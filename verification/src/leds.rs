//! LED state and DIMM_LEDS frame encoding.
//!
//! 62 physical positions, brightness 0-63, written as two 32-byte banks.
//! Positions follow the kernel driver's table (verified on hardware).

use crate::input::Button;
use crate::CMD_DIMM_LEDS;
use vstd::prelude::*;

verus! {

/// The LEDs, by physical position in the brightness array.
#[derive(Debug, Clone, Copy, PartialEq, Eq, Structural)]
pub enum Led {
    Pad4,
    Pad3,
    Pad2,
    Pad1,
    Pad8,
    Pad7,
    Pad6,
    Pad5,
    Pad12,
    Pad11,
    Pad10,
    Pad9,
    Pad16,
    Pad15,
    Pad14,
    Pad13,
    Mute,
    Solo,
    Select,
    Duplicate,
    Navigate,
    PadMode,
    Pattern,
    Scene,
    Shift,
    Erase,
    Grid,
    StepRight,
    Rec,
    Play,
    StepLeft,
    Restart,
    GroupH,
    GroupG,
    GroupD,
    GroupC,
    GroupF,
    GroupE,
    GroupB,
    GroupA,
    AutoWrite,
    Snap,
    Right,
    Left,
    Sampling,
    Browse,
    Step,
    Control,
    Softkey8,
    Softkey7,
    Softkey6,
    Softkey5,
    Softkey4,
    Softkey3,
    Softkey2,
    Softkey1,
    NoteRepeat,
    Backlight,
}

/// Where an LED sits in the brightness array. Each row of four pads runs
/// right to left; positions 30 and 31 hold no LED.
pub open spec fn led_position(led: Led) -> int {
    match led {
        Led::Pad4 => 0,
        Led::Pad3 => 1,
        Led::Pad2 => 2,
        Led::Pad1 => 3,
        Led::Pad8 => 4,
        Led::Pad7 => 5,
        Led::Pad6 => 6,
        Led::Pad5 => 7,
        Led::Pad12 => 8,
        Led::Pad11 => 9,
        Led::Pad10 => 10,
        Led::Pad9 => 11,
        Led::Pad16 => 12,
        Led::Pad15 => 13,
        Led::Pad14 => 14,
        Led::Pad13 => 15,
        Led::Mute => 16,
        Led::Solo => 17,
        Led::Select => 18,
        Led::Duplicate => 19,
        Led::Navigate => 20,
        Led::PadMode => 21,
        Led::Pattern => 22,
        Led::Scene => 23,
        Led::Shift => 24,
        Led::Erase => 25,
        Led::Grid => 26,
        Led::StepRight => 27,
        Led::Rec => 28,
        Led::Play => 29,
        Led::StepLeft => 32,
        Led::Restart => 33,
        Led::GroupH => 34,
        Led::GroupG => 35,
        Led::GroupD => 36,
        Led::GroupC => 37,
        Led::GroupF => 38,
        Led::GroupE => 39,
        Led::GroupB => 40,
        Led::GroupA => 41,
        Led::AutoWrite => 42,
        Led::Snap => 43,
        Led::Right => 44,
        Led::Left => 45,
        Led::Sampling => 46,
        Led::Browse => 47,
        Led::Step => 48,
        Led::Control => 49,
        Led::Softkey8 => 50,
        Led::Softkey7 => 51,
        Led::Softkey6 => 52,
        Led::Softkey5 => 53,
        Led::Softkey4 => 54,
        Led::Softkey3 => 55,
        Led::Softkey2 => 56,
        Led::Softkey1 => 57,
        Led::NoteRepeat => 58,
        Led::Backlight => 59,
    }
}

/// LED of pad 1-16.
pub open spec fn pad_led(number: int) -> Led {
    if number == 1 {
        Led::Pad1
    } else if number == 2 {
        Led::Pad2
    } else if number == 3 {
        Led::Pad3
    } else if number == 4 {
        Led::Pad4
    } else if number == 5 {
        Led::Pad5
    } else if number == 6 {
        Led::Pad6
    } else if number == 7 {
        Led::Pad7
    } else if number == 8 {
        Led::Pad8
    } else if number == 9 {
        Led::Pad9
    } else if number == 10 {
        Led::Pad10
    } else if number == 11 {
        Led::Pad11
    } else if number == 12 {
        Led::Pad12
    } else if number == 13 {
        Led::Pad13
    } else if number == 14 {
        Led::Pad14
    } else if number == 15 {
        Led::Pad15
    } else {
        Led::Pad16
    }
}

/// LED behind a button.
pub open spec fn button_led(b: Button) -> Led {
    match b {
        Button::Mute => Led::Mute,
        Button::Solo => Led::Solo,
        Button::Select => Led::Select,
        Button::Duplicate => Led::Duplicate,
        Button::Navigate => Led::Navigate,
        Button::PadMode => Led::PadMode,
        Button::Pattern => Led::Pattern,
        Button::Scene => Led::Scene,
        Button::Rec => Led::Rec,
        Button::Erase => Led::Erase,
        Button::Shift => Led::Shift,
        Button::Grid => Led::Grid,
        Button::StepRight => Led::StepRight,
        Button::StepLeft => Led::StepLeft,
        Button::Restart => Led::Restart,
        Button::GroupE => Led::GroupE,
        Button::GroupF => Led::GroupF,
        Button::GroupG => Led::GroupG,
        Button::GroupH => Led::GroupH,
        Button::GroupD => Led::GroupD,
        Button::GroupC => Led::GroupC,
        Button::GroupB => Led::GroupB,
        Button::GroupA => Led::GroupA,
        Button::Control => Led::Control,
        Button::Browse => Led::Browse,
        Button::Left => Led::Left,
        Button::Snap => Led::Snap,
        Button::AutoWrite => Led::AutoWrite,
        Button::Right => Led::Right,
        Button::Sampling => Led::Sampling,
        Button::Step => Led::Step,
        Button::Softkey1 => Led::Softkey1,
        Button::Softkey2 => Led::Softkey2,
        Button::Softkey3 => Led::Softkey3,
        Button::Softkey4 => Led::Softkey4,
        Button::Softkey5 => Led::Softkey5,
        Button::Softkey6 => Led::Softkey6,
        Button::Softkey7 => Led::Softkey7,
        Button::Softkey8 => Led::Softkey8,
        Button::NoteRepeat => Led::NoteRepeat,
        Button::Play => Led::Play,
    }
}

/// Pad LEDs, pad 1 first.
pub const PAD_LEDS: [Led; 16] = [
    Led::Pad1, Led::Pad2, Led::Pad3, Led::Pad4,
    Led::Pad5, Led::Pad6, Led::Pad7, Led::Pad8,
    Led::Pad9, Led::Pad10, Led::Pad11, Led::Pad12,
    Led::Pad13, Led::Pad14, Led::Pad15, Led::Pad16,
];

impl Led {
    /// Position in the brightness array.
    pub fn position(self) -> (r: usize)
        ensures
            r == led_position(self),
            r < 60,
    {
        match self {
            Led::Pad4 => 0,
            Led::Pad3 => 1,
            Led::Pad2 => 2,
            Led::Pad1 => 3,
            Led::Pad8 => 4,
            Led::Pad7 => 5,
            Led::Pad6 => 6,
            Led::Pad5 => 7,
            Led::Pad12 => 8,
            Led::Pad11 => 9,
            Led::Pad10 => 10,
            Led::Pad9 => 11,
            Led::Pad16 => 12,
            Led::Pad15 => 13,
            Led::Pad14 => 14,
            Led::Pad13 => 15,
            Led::Mute => 16,
            Led::Solo => 17,
            Led::Select => 18,
            Led::Duplicate => 19,
            Led::Navigate => 20,
            Led::PadMode => 21,
            Led::Pattern => 22,
            Led::Scene => 23,
            Led::Shift => 24,
            Led::Erase => 25,
            Led::Grid => 26,
            Led::StepRight => 27,
            Led::Rec => 28,
            Led::Play => 29,
            Led::StepLeft => 32,
            Led::Restart => 33,
            Led::GroupH => 34,
            Led::GroupG => 35,
            Led::GroupD => 36,
            Led::GroupC => 37,
            Led::GroupF => 38,
            Led::GroupE => 39,
            Led::GroupB => 40,
            Led::GroupA => 41,
            Led::AutoWrite => 42,
            Led::Snap => 43,
            Led::Right => 44,
            Led::Left => 45,
            Led::Sampling => 46,
            Led::Browse => 47,
            Led::Step => 48,
            Led::Control => 49,
            Led::Softkey8 => 50,
            Led::Softkey7 => 51,
            Led::Softkey6 => 52,
            Led::Softkey5 => 53,
            Led::Softkey4 => 54,
            Led::Softkey3 => 55,
            Led::Softkey2 => 56,
            Led::Softkey1 => 57,
            Led::NoteRepeat => 58,
            Led::Backlight => 59,
        }
    }

    /// LED for pad index 0-15 (pad 1 = index 0); higher indices start over.
    pub fn pad(index: usize) -> (r: Led)
        ensures
            r == pad_led(index % 16 + 1),
    {
        PAD_LEDS[index % 16]
    }

    /// LED behind a button, if it has one. Every button has.
    pub fn for_button(b: Button) -> (r: Option<Led>)
        ensures
            r == Some(button_led(b)),
    {
        Some(
            match b {
                Button::Mute => Led::Mute,
                Button::Solo => Led::Solo,
                Button::Select => Led::Select,
                Button::Duplicate => Led::Duplicate,
                Button::Navigate => Led::Navigate,
                Button::PadMode => Led::PadMode,
                Button::Pattern => Led::Pattern,
                Button::Scene => Led::Scene,
                Button::Rec => Led::Rec,
                Button::Erase => Led::Erase,
                Button::Shift => Led::Shift,
                Button::Grid => Led::Grid,
                Button::StepRight => Led::StepRight,
                Button::StepLeft => Led::StepLeft,
                Button::Restart => Led::Restart,
                Button::GroupE => Led::GroupE,
                Button::GroupF => Led::GroupF,
                Button::GroupG => Led::GroupG,
                Button::GroupH => Led::GroupH,
                Button::GroupD => Led::GroupD,
                Button::GroupC => Led::GroupC,
                Button::GroupB => Led::GroupB,
                Button::GroupA => Led::GroupA,
                Button::Control => Led::Control,
                Button::Browse => Led::Browse,
                Button::Left => Led::Left,
                Button::Snap => Led::Snap,
                Button::AutoWrite => Led::AutoWrite,
                Button::Right => Led::Right,
                Button::Sampling => Led::Sampling,
                Button::Step => Led::Step,
                Button::Softkey1 => Led::Softkey1,
                Button::Softkey2 => Led::Softkey2,
                Button::Softkey3 => Led::Softkey3,
                Button::Softkey4 => Led::Softkey4,
                Button::Softkey5 => Led::Softkey5,
                Button::Softkey6 => Led::Softkey6,
                Button::Softkey7 => Led::Softkey7,
                Button::Softkey8 => Led::Softkey8,
                Button::NoteRepeat => Led::NoteRepeat,
                Button::Play => Led::Play,
            },
        )
    }
}

/// No two LEDs share a position.
pub proof fn law_led_positions_distinct(a: Led, b: Led)
    requires
        led_position(a) == led_position(b),
    ensures
        a == b,
{
}

/// Pad LEDs sit in rows of four, each row reversed.
pub proof fn law_pad_rows_reversed(number: int)
    requires
        1 <= number <= 16,
    ensures
        led_position(pad_led(number)) == 4 * ((number - 1) / 4) + 3 - (number - 1) % 4,
{
}

pub const MAX_BRIGHTNESS: u8 = 63;

pub const BANK_SIZE: usize = 32;

/// Bank numbers that the device knows the two halves by.
pub const BANK_IDS: [u8; 2] = [0x00, 0x1e];

/// Full LED state with dirty tracking per bank.
#[derive(Debug, Clone, PartialEq, Eq)]
pub struct LedState {
    state: [u8; 64],
    dirty: [bool; 2],
}

/// LED state: brightness by position, and which banks the device has yet to
/// be told of.
#[verifier::ext_equal]
pub struct Leds {
    pub level: Seq<u8>,
    pub dirty: Seq<bool>,
}

impl View for LedState {
    type V = Leds;

    closed spec fn view(&self) -> Leds {
        Leds { level: self.state@, dirty: self.dirty@ }
    }
}

/// Brightness as stored: never above the maximum.
pub open spec fn capped(brightness: u8) -> u8 {
    if brightness > MAX_BRIGHTNESS {
        MAX_BRIGHTNESS
    } else {
        brightness
    }
}

impl Leds {
    /// All LEDs off, both banks pending so that the device is told.
    pub open spec fn initial() -> Leds {
        Leds { level: Seq::new(64, |i: int| 0u8), dirty: seq![true, true] }
    }

    pub open spec fn wf(self) -> bool {
        &&& self.level.len() == 64
        &&& self.dirty.len() == 2
        &&& forall|i: int| 0 <= i < 64 ==> #[trigger] self.level[i] <= MAX_BRIGHTNESS
    }

    /// One LED set; its bank becomes pending if that changed anything.
    pub open spec fn with(self, led: Led, brightness: u8) -> Leds {
        let pos = led_position(led);
        if self.level[pos] == capped(brightness) {
            self
        } else {
            Leds {
                level: self.level.update(pos, capped(brightness)),
                dirty: self.dirty.update(pos / 32, true),
            }
        }
    }

    /// Every position up to the last LED set, both banks pending.
    pub open spec fn with_all(self, brightness: u8) -> Leds {
        Leds {
            level: Seq::new(
                64,
                |i: int|
                    if i <= led_position(Led::Backlight) {
                        capped(brightness)
                    } else {
                        self.level[i]
                    },
            ),
            dirty: seq![true, true],
        }
    }

    /// The DIMM_LEDS message for one bank.
    pub open spec fn bank_frame(self, bank: int) -> Seq<u8> {
        seq![CMD_DIMM_LEDS, BANK_IDS@[bank]] + self.level.subrange(32 * bank, 32 * bank + 32)
    }

    /// The messages that tell the device of the pending banks.
    pub open spec fn pending(self) -> Seq<Seq<u8>> {
        (if self.dirty[0] {
            seq![self.bank_frame(0)]
        } else {
            seq![]
        }) + (if self.dirty[1] {
            seq![self.bank_frame(1)]
        } else {
            seq![]
        })
    }

    /// Nothing pending any more.
    pub open spec fn flushed(self) -> Leds {
        Leds { level: self.level, dirty: seq![false, false] }
    }
}

/// The frames as byte sequences.
pub open spec fn frame_bytes(frames: Seq<[u8; 34]>) -> Seq<Seq<u8>> {
    frames.map_values(|f: [u8; 34]| f@)
}

impl Default for LedState {
    fn default() -> (r: Self)
        ensures
            r@ == Leds::initial(),
            r@.wf(),
    {
        LedState::new()
    }
}

impl LedState {
    pub fn new() -> (r: Self)
        ensures
            r@ == Leds::initial(),
            r@.wf(),
    {
        let r = LedState {
            state: [0;64],
            dirty: [true;2],  // force initial sync
        };
        assert(r@ =~= Leds::initial());
        r
    }

    pub fn set(&mut self, led: Led, brightness: u8)
        requires
            old(self)@.wf(),
        ensures
            final(self)@.wf(),
            final(self)@ == old(self)@.with(led, brightness),
    {
        let pos = led.position();
        let v: u8 = if brightness > MAX_BRIGHTNESS {
            MAX_BRIGHTNESS
        } else {
            brightness
        };
        if self.state[pos] != v {
            self.state[pos] = v;
            self.dirty[pos / BANK_SIZE] = true;
        }
        assert(self@ =~= old(self)@.with(led, brightness));
    }

    pub fn set_all(&mut self, brightness: u8)
        requires
            old(self)@.wf(),
        ensures
            final(self)@.wf(),
            final(self)@ == old(self)@.with_all(brightness),
    {
        let v: u8 = if brightness > MAX_BRIGHTNESS {
            MAX_BRIGHTNESS
        } else {
            brightness
        };
        let last = Led::Backlight.position();
        let mut pos: usize = 0;
        while pos <= last
            invariant
                pos <= last + 1,
                last == led_position(Led::Backlight),
                v == capped(brightness),
                forall|i: int| 0 <= i < pos ==> self.state@[i] == v,
                forall|i: int| pos <= i < 64 ==> self.state@[i] == old(self).state@[i],
            decreases last + 1 - pos,
        {
            self.state[pos] = v;
            pos += 1;
        }
        self.dirty = [true;2];
        assert(self@ =~= old(self)@.with_all(brightness)) by {
            assert(self@.dirty =~= seq![true, true]);
        }
        assert(self@.wf()) by {
            assert forall|i: int| 0 <= i < 64 implies #[trigger] self@.level[i]
                <= MAX_BRIGHTNESS by {
                assert(old(self)@.level[i] <= MAX_BRIGHTNESS);
            }
        }
    }

    /// The DIMM_LEDS message for one bank.
    fn bank_frame(&self, bank: usize) -> (r: [u8; 34])
        requires
            bank < 2,
        ensures
            r@ == self@.bank_frame(bank as int),
    {
        let mut msg: [u8; 34] = [0;34];
        msg[0] = CMD_DIMM_LEDS;
        msg[1] = BANK_IDS[bank];
        let mut i: usize = 0;
        while i < BANK_SIZE
            invariant
                i <= BANK_SIZE,
                bank < 2,
                msg@[0] == CMD_DIMM_LEDS,
                msg@[1] == BANK_IDS@[bank as int],
                forall|k: int| 2 <= k < 2 + i ==> #[trigger] msg@[k] == self.state@[32 * bank + k - 2],
            decreases BANK_SIZE - i,
        {
            msg[2 + i] = self.state[bank * BANK_SIZE + i];
            i += 1;
        }
        assert(msg@ =~= self@.bank_frame(bank as int));
        msg
    }

    /// Encode pending changes as EP1 DIMM_LEDS messages and clear dirty flags.
    pub fn frames(&mut self) -> (r: Vec<[u8; 34]>)
        requires
            old(self)@.wf(),
        ensures
            final(self)@.wf(),
            final(self)@ == old(self)@.flushed(),
            frame_bytes(r@) == old(self)@.pending(),
    {
        let mut out: Vec<[u8; 34]> = Vec::new();
        if self.dirty[0] {
            out.push(self.bank_frame(0));
        }
        if self.dirty[1] {
            out.push(self.bank_frame(1));
        }
        assert(frame_bytes(out@) =~= self@.pending());
        self.dirty = [false;2];
        assert(self@ =~= old(self)@.flushed()) by {
            assert(self@.dirty =~= seq![false, false]);
        }
        out
    }
}

/// What the device shows after one DIMM_LEDS message: the named bank replaced.
pub open spec fn device_after_frame(shown: Seq<u8>, frame: Seq<u8>) -> Seq<u8> {
    Seq::new(
        64,
        |i: int|
            if frame[1] == BANK_IDS@[i / 32] {
                frame[2 + i % 32]
            } else {
                shown[i]
            },
    )
}

/// What the device shows after DIMM_LEDS messages, in order.
pub open spec fn device_after(shown: Seq<u8>, frames: Seq<Seq<u8>>) -> Seq<u8>
    decreases frames.len(),
{
    if frames.len() == 0 {
        shown
    } else {
        device_after_frame(device_after(shown, frames.drop_last()), frames.last())
    }
}

/// A device shows every bank that is not pending as the state has it.
pub open spec fn device_in_step(shown: Seq<u8>, leds: Leds) -> bool {
    shown.len() == 64 && forall|i: int|
        0 <= i < 64 && !leds.dirty[i / 32] ==> #[trigger] shown[i] == leds.level[i]
}

/// A device that is in step with the state shows exactly that state once the
/// pending frames are through.
pub proof fn law_frames_bring_device_up_to_date(shown: Seq<u8>, leds: Leds)
    requires
        leds.wf(),
        device_in_step(shown, leds),
    ensures
        device_after(shown, leds.pending()) == leds.level,
        device_in_step(leds.level, leds.flushed()),
{
    let frames = leds.pending();
    reveal_with_fuel(device_after, 3);
    if leds.dirty[0] && leds.dirty[1] {
        assert(frames.drop_last() =~= seq![leds.bank_frame(0)]);
        assert(frames.drop_last().drop_last() =~= seq![]);
    } else if leds.dirty[0] || leds.dirty[1] {
        assert(frames.drop_last() =~= seq![]);
    } else {
        assert(frames =~= seq![]);
    }
    assert(device_after(shown, frames) =~= leds.level);
}

/// Setting LEDs never lets the device fall out of step: what it does not show
/// is pending.
pub proof fn law_setting_keeps_device_in_step(
    shown: Seq<u8>,
    leds: Leds,
    led: Led,
    brightness: u8,
)
    requires
        leds.wf(),
        device_in_step(shown, leds),
    ensures
        device_in_step(shown, leds.with(led, brightness)),
        device_in_step(shown, leds.with_all(brightness)),
{
}

/// A new state is in step with any device, whatever it shows.
pub proof fn law_initial_state_is_in_step(shown: Seq<u8>)
    requires
        shown.len() == 64,
    ensures
        device_in_step(shown, Leds::initial()),
{
}

/// Nothing is pending right after the frames were taken.
pub proof fn law_flushed_has_no_frames(leds: Leds)
    ensures
        leds.flushed().pending() == Seq::<Seq<u8>>::empty(),
{
}

/// Setting an LED sets that one, to the brightness asked for but never above
/// the maximum, and no other. Its bank becomes pending exactly when its
/// brightness changed, and the other bank is left alone.
pub proof fn law_set_changes_one_led(leds: Leds, led: Led, brightness: u8, other: Led, bank: int)
    requires
        leds.wf(),
        0 <= bank < 2,
    ensures
        leds.with(led, brightness).wf(),
        ({
            let level = leds.with(led, brightness).level[led_position(led)];
            &&& brightness <= 63 ==> level == brightness
            &&& brightness > 63 ==> level == 63
        }),
        other != led ==> leds.with(led, brightness).level[led_position(other)]
            == leds.level[led_position(other)],
        leds.with(led, brightness).dirty[bank] == (leds.dirty[bank] || (bank == led_position(led)
            / 32 && leds.with(led, brightness).level[led_position(led)] != leds.level[led_position(
            led,
        )])),
{
    if other != led && led_position(other) == led_position(led) {
        law_led_positions_distinct(other, led);
    }
}

/// Setting all LEDs sets every one of them, and tells the device of both banks.
pub proof fn law_set_all_sets_every_led(leds: Leds, brightness: u8, led: Led)
    requires
        leds.wf(),
    ensures
        leds.with_all(brightness).wf(),
        ({
            let level = leds.with_all(brightness).level[led_position(led)];
            &&& brightness <= 63 ==> level == brightness
            &&& brightness > 63 ==> level == 63
        }),
        leds.with_all(brightness).pending().len() == 2,
{
}

/// A pending bank is one frame: the dimming command, the bank, and the levels
/// of its 32 positions. A bank that is not pending has none.
pub proof fn law_frames_hold_their_bank(leds: Leds, i: int)
    requires
        leds.wf(),
        0 <= i < 32,
    ensures
        leds.pending().len() == (if leds.dirty[0] {
            1int
        } else {
            0
        }) + (if leds.dirty[1] {
            1int
        } else {
            0
        }),
        leds.dirty[0] ==> ({
            let f = leds.pending()[0];
            f.len() == 34 && f[0] == 0x0c && f[1] == 0x00 && f[2 + i] == leds.level[i]
        }),
        leds.dirty[1] ==> ({
            let f = leds.pending().last();
            f.len() == 34 && f[0] == 0x0c && f[1] == 0x1e && f[2 + i] == leds.level[32 + i]
        }),
{
}

/// A new state has every LED off, and tells the device so.
pub proof fn law_new_state_is_dark(led: Led)
    ensures
        Leds::initial().wf(),
        Leds::initial().level[led_position(led)] == 0,
        Leds::initial().pending().len() == 2,
{
}

} // verus!
