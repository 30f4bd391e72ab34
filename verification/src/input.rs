//! Input parsing: pads (EP 0x84), knobs and buttons (EP 0x81 reports).

use crate::{device_info, DeviceInfo};
use crate::{CMD_GET_DEVICE_INFO, CMD_MIDI_READ, CMD_READ_ERP, CMD_READ_IO};
use crate::text::same_text;
use vstd::prelude::*;

verus! {

/// Taper readings run between these two peaks.
pub const LOW_PEAK: i32 = -7;

pub const HIGH_PEAK: i32 = 268;

/// Half a turn, in taper units.
pub const DEG180: i32 = 275;

pub const DEG90: i32 = 137;

pub const DEG270: i32 = 412;

pub const DEG360: i32 = 550;

/// The taper value halfway between the peaks.
pub const MID_VALUE: i32 = 130;

/// How much the second taper counts, in percent: nothing while the first one
/// is on its straight part, everything near its peaks.
pub open spec fn erp_weight_b(a: int) -> int {
    let away = if a < MID_VALUE {
        MID_VALUE - a
    } else {
        a - MID_VALUE
    };
    let w = away - (DEG180 / 2 - 100) / 2;
    if w < 0 {
        0
    } else if w > 100 {
        100
    } else {
        w
    }
}

/// The angle, in taper units, that the first taper reading stands for.
pub open spec fn erp_angle_a(a: int, b: int) -> int {
    if b > MID_VALUE {
        a - LOW_PEAK
    } else {
        HIGH_PEAK - a + DEG180
    }
}

/// The angle, in taper units, that the second taper reading stands for.
pub open spec fn erp_angle_b(a: int, b: int) -> int {
    if a < MID_VALUE {
        // 0..90 and 270..360 degrees
        (b - LOW_PEAK + DEG270) % (DEG360 as int)
    } else {
        // 90..270 degrees
        HIGH_PEAK - b + DEG90
    }
}

/// Position 0-999 of an endless rotary pot: the weighted mean of the two
/// angles, scaled from a full turn to 1000 steps.
pub open spec fn erp_position(a: int, b: int) -> int {
    let w = erp_weight_b(a);
    (erp_angle_a(a, b) * (100 - w) + erp_angle_b(a, b) * w) * 10 / (DEG360 as int)
}

proof fn lemma_weighted_mean(x: int, y: int, w: int, max: int)
    by (nonlinear_arith)
    requires
        0 <= x <= max,
        0 <= y <= max,
        0 <= w <= 100,
    ensures
        0 <= x * (100 - w) <= max * (100 - w),
        0 <= y * w <= max * w,
        0 <= x * (100 - w) + y * w <= 100 * max,
{
}

/// Every pair of taper readings decodes to a position below 1000.
pub proof fn law_erp_range(a: u8, b: u8)
    ensures
        0 <= erp_position(a as int, b as int) < 1000,
{
    lemma_weighted_mean(
        erp_angle_a(a as int, b as int),
        erp_angle_b(a as int, b as int),
        erp_weight_b(a as int),
        549,
    );
}

/// Decode one endless-rotary-pot taper pair to an absolute position 0-999.
/// Same algorithm as the kernel driver (two tapers, 90 degrees phase shifted,
/// peaks at -7 and 268).
pub fn decode_erp(a: u8, b: u8) -> (r: u16)
    ensures
        r == erp_position(a as int, b as int),
        r < 1000,
{
    let a: i32 = a as i32;
    let b: i32 = b as i32;
    let away: i32 = if a < MID_VALUE {
        MID_VALUE - a
    } else {
        a - MID_VALUE
    };
    let raw_weight: i32 = away - (DEG180 / 2 - 100) / 2;
    let weight_b: i32 = if raw_weight < 0 {
        0
    } else if raw_weight > 100 {
        100
    } else {
        raw_weight
    };
    let weight_a: i32 = 100 - weight_b;
    let pos_b: i32 = if a < MID_VALUE {
        let p: i32 = b - LOW_PEAK + DEG270;
        if p >= DEG360 {
            p - DEG360
        } else {
            p
        }
    } else {
        HIGH_PEAK - b + DEG90
    };
    let pos_a: i32 = if b > MID_VALUE {
        a - LOW_PEAK
    } else {
        HIGH_PEAK - a + DEG180
    };
    proof {
        law_erp_range(a as u8, b as u8);
        lemma_weighted_mean(pos_a as int, pos_b as int, weight_b as int, 549);
    }
    ((pos_a * weight_a + pos_b * weight_b) * 10 / DEG360) as u16
}

/// The 11 knobs, in report order 1-8 (screens, left to right) then the three
/// master encoders. `Knob::ALL` and the parsed positions use this order.
#[derive(Debug, Clone, Copy, PartialEq, Eq, Structural)]
pub enum Knob {
    Knob1,
    Knob2,
    Knob3,
    Knob4,
    Knob5,
    Knob6,
    Knob7,
    Knob8,
    Volume,
    Tempo,
    Swing,
}

/// The name a knob goes by in OSC addresses.
pub open spec fn knob_name(k: Knob) -> Seq<char> {
    match k {
        Knob::Knob1 => "knob/1"@,
        Knob::Knob2 => "knob/2"@,
        Knob::Knob3 => "knob/3"@,
        Knob::Knob4 => "knob/4"@,
        Knob::Knob5 => "knob/5"@,
        Knob::Knob6 => "knob/6"@,
        Knob::Knob7 => "knob/7"@,
        Knob::Knob8 => "knob/8"@,
        Knob::Volume => "volume"@,
        Knob::Tempo => "tempo"@,
        Knob::Swing => "swing"@,
    }
}

impl Knob {
    pub const ALL: [Knob; 11] = [
        Knob::Knob1, Knob::Knob2, Knob::Knob3, Knob::Knob4,
        Knob::Knob5, Knob::Knob6, Knob::Knob7, Knob::Knob8,
        Knob::Volume, Knob::Tempo, Knob::Swing,
    ];

    pub fn name(self) -> (r: &'static str)
        ensures
            r@ == knob_name(self),
    {
        match self {
            Knob::Knob1 => "knob/1",
            Knob::Knob2 => "knob/2",
            Knob::Knob3 => "knob/3",
            Knob::Knob4 => "knob/4",
            Knob::Knob5 => "knob/5",
            Knob::Knob6 => "knob/6",
            Knob::Knob7 => "knob/7",
            Knob::Knob8 => "knob/8",
            Knob::Volume => "volume",
            Knob::Tempo => "tempo",
            Knob::Swing => "swing",
        }
    }
}

/// (a, b) byte offsets into the ERP payload for each knob, `Knob::ALL` order.
pub const ERP_OFFSETS: [(usize, usize); 11] = [
    (21, 20),
    (15, 14),
    (9, 8),
    (3, 2),
    (19, 18),
    (13, 12),
    (7, 6),
    (1, 0),
    (17, 16),  // volume
    (11, 10),  // tempo
    (5, 4),  // swing
];

/// Positions of all knobs in an ERP payload, `Knob::ALL` order.
pub open spec fn erp_positions(payload: Seq<u8>) -> Seq<u16> {
    Seq::new(
        11,
        |i: int|
            erp_position(
                payload[ERP_OFFSETS@[i].0 as int] as int,
                payload[ERP_OFFSETS@[i].1 as int] as int,
            ) as u16,
    )
}

/// Absolute knob positions, 0-999 each, `Knob::ALL` order.
pub fn parse_erp(payload: &[u8]) -> (r: Option<[u16; 11]>)
    ensures
        r is Some <==> payload@.len() >= 22,
        r matches Some(p) ==> p@ == erp_positions(payload@) && (forall|i: int|
            0 <= i < 11 ==> (#[trigger] p@[i]) < 1000),
{
    if payload.len() < 22 {
        return None;
    }
    let mut out: [u16; 11] = [0;11];
    let mut i: usize = 0;
    while i < 11
        invariant
            i <= 11,
            payload@.len() >= 22,
            forall|j: int| 0 <= j < i ==> out@[j] == erp_positions(payload@)[j] && out@[j] < 1000,
        decreases 11 - i,
    {
        let (a, b) = ERP_OFFSETS[i];
        out[i] = decode_erp(payload[a], payload[b]);
        i += 1;
    }
    assert(out@ == erp_positions(payload@));
    Some(out)
}

/// Buttons, identified in READ_IO reports by their bit.
#[derive(Debug, Clone, Copy, PartialEq, Eq, Structural)]
pub enum Button {
    Mute,
    Solo,
    Select,
    Duplicate,
    Navigate,
    PadMode,
    Pattern,
    Scene,
    Rec,
    Erase,
    Shift,
    Grid,
    StepRight,
    StepLeft,
    Restart,
    GroupE,
    GroupF,
    GroupG,
    GroupH,
    GroupD,
    GroupC,
    GroupB,
    GroupA,
    Control,
    Browse,
    Left,
    Snap,
    AutoWrite,
    Right,
    Sampling,
    Step,
    Softkey1,
    Softkey2,
    Softkey3,
    Softkey4,
    Softkey5,
    Softkey6,
    Softkey7,
    Softkey8,
    NoteRepeat,
    Play,
}

/// The READ_IO bit of a button. Bit 8 is reserved, and the softkeys run right
/// to left.
pub open spec fn button_bit(b: Button) -> u64 {
    match b {
        Button::Mute => 0,
        Button::Solo => 1,
        Button::Select => 2,
        Button::Duplicate => 3,
        Button::Navigate => 4,
        Button::PadMode => 5,
        Button::Pattern => 6,
        Button::Scene => 7,
        Button::Rec => 9,
        Button::Erase => 10,
        Button::Shift => 11,
        Button::Grid => 12,
        Button::StepRight => 13,
        Button::StepLeft => 14,
        Button::Restart => 15,
        Button::GroupE => 16,
        Button::GroupF => 17,
        Button::GroupG => 18,
        Button::GroupH => 19,
        Button::GroupD => 20,
        Button::GroupC => 21,
        Button::GroupB => 22,
        Button::GroupA => 23,
        Button::Control => 24,
        Button::Browse => 25,
        Button::Left => 26,
        Button::Snap => 27,
        Button::AutoWrite => 28,
        Button::Right => 29,
        Button::Sampling => 30,
        Button::Step => 31,
        Button::Softkey1 => 39,
        Button::Softkey2 => 38,
        Button::Softkey3 => 37,
        Button::Softkey4 => 36,
        Button::Softkey5 => 35,
        Button::Softkey6 => 34,
        Button::Softkey7 => 33,
        Button::Softkey8 => 32,
        Button::NoteRepeat => 40,
        Button::Play => 41,
    }
}

/// The name a button goes by in OSC addresses.
pub open spec fn button_name(b: Button) -> Seq<char> {
    match b {
        Button::Mute => "mute"@,
        Button::Solo => "solo"@,
        Button::Select => "select"@,
        Button::Duplicate => "duplicate"@,
        Button::Navigate => "navigate"@,
        Button::PadMode => "pad_mode"@,
        Button::Pattern => "pattern"@,
        Button::Scene => "scene"@,
        Button::Rec => "rec"@,
        Button::Erase => "erase"@,
        Button::Shift => "shift"@,
        Button::Grid => "grid"@,
        Button::StepRight => "step_right"@,
        Button::StepLeft => "step_left"@,
        Button::Restart => "restart"@,
        Button::GroupE => "group_e"@,
        Button::GroupF => "group_f"@,
        Button::GroupG => "group_g"@,
        Button::GroupH => "group_h"@,
        Button::GroupD => "group_d"@,
        Button::GroupC => "group_c"@,
        Button::GroupB => "group_b"@,
        Button::GroupA => "group_a"@,
        Button::Control => "control"@,
        Button::Browse => "browse"@,
        Button::Left => "left"@,
        Button::Snap => "snap"@,
        Button::AutoWrite => "autowrite"@,
        Button::Right => "right"@,
        Button::Sampling => "sampling"@,
        Button::Step => "step"@,
        Button::Softkey1 => "softkey1"@,
        Button::Softkey2 => "softkey2"@,
        Button::Softkey3 => "softkey3"@,
        Button::Softkey4 => "softkey4"@,
        Button::Softkey5 => "softkey5"@,
        Button::Softkey6 => "softkey6"@,
        Button::Softkey7 => "softkey7"@,
        Button::Softkey8 => "softkey8"@,
        Button::NoteRepeat => "note_repeat"@,
        Button::Play => "play"@,
    }
}

impl Button {
    pub const ALL: [Button; 41] = [
        Button::Mute, Button::Solo, Button::Select, Button::Duplicate,
        Button::Navigate, Button::PadMode, Button::Pattern, Button::Scene,
        Button::Rec, Button::Erase, Button::Shift, Button::Grid,
        Button::StepRight, Button::StepLeft, Button::Restart, Button::GroupE,
        Button::GroupF, Button::GroupG, Button::GroupH, Button::GroupD,
        Button::GroupC, Button::GroupB, Button::GroupA, Button::Control,
        Button::Browse, Button::Left, Button::Snap, Button::AutoWrite,
        Button::Right, Button::Sampling, Button::Step, Button::Softkey1,
        Button::Softkey2, Button::Softkey3, Button::Softkey4, Button::Softkey5,
        Button::Softkey6, Button::Softkey7, Button::Softkey8, Button::NoteRepeat,
        Button::Play,
    ];

    /// Bit position in the READ_IO payload.
    pub fn bit(self) -> (r: u64)
        ensures
            r == button_bit(self),
            r < 42,
    {
        match self {
            Button::Mute => 0,
            Button::Solo => 1,
            Button::Select => 2,
            Button::Duplicate => 3,
            Button::Navigate => 4,
            Button::PadMode => 5,
            Button::Pattern => 6,
            Button::Scene => 7,
            Button::Rec => 9,
            Button::Erase => 10,
            Button::Shift => 11,
            Button::Grid => 12,
            Button::StepRight => 13,
            Button::StepLeft => 14,
            Button::Restart => 15,
            Button::GroupE => 16,
            Button::GroupF => 17,
            Button::GroupG => 18,
            Button::GroupH => 19,
            Button::GroupD => 20,
            Button::GroupC => 21,
            Button::GroupB => 22,
            Button::GroupA => 23,
            Button::Control => 24,
            Button::Browse => 25,
            Button::Left => 26,
            Button::Snap => 27,
            Button::AutoWrite => 28,
            Button::Right => 29,
            Button::Sampling => 30,
            Button::Step => 31,
            Button::Softkey1 => 39,
            Button::Softkey2 => 38,
            Button::Softkey3 => 37,
            Button::Softkey4 => 36,
            Button::Softkey5 => 35,
            Button::Softkey6 => 34,
            Button::Softkey7 => 33,
            Button::Softkey8 => 32,
            Button::NoteRepeat => 40,
            Button::Play => 41,
        }
    }

    pub fn name(self) -> (r: &'static str)
        ensures
            r@ == button_name(self),
    {
        match self {
            Button::Mute => "mute",
            Button::Solo => "solo",
            Button::Select => "select",
            Button::Duplicate => "duplicate",
            Button::Navigate => "navigate",
            Button::PadMode => "pad_mode",
            Button::Pattern => "pattern",
            Button::Scene => "scene",
            Button::Rec => "rec",
            Button::Erase => "erase",
            Button::Shift => "shift",
            Button::Grid => "grid",
            Button::StepRight => "step_right",
            Button::StepLeft => "step_left",
            Button::Restart => "restart",
            Button::GroupE => "group_e",
            Button::GroupF => "group_f",
            Button::GroupG => "group_g",
            Button::GroupH => "group_h",
            Button::GroupD => "group_d",
            Button::GroupC => "group_c",
            Button::GroupB => "group_b",
            Button::GroupA => "group_a",
            Button::Control => "control",
            Button::Browse => "browse",
            Button::Left => "left",
            Button::Snap => "snap",
            Button::AutoWrite => "autowrite",
            Button::Right => "right",
            Button::Sampling => "sampling",
            Button::Step => "step",
            Button::Softkey1 => "softkey1",
            Button::Softkey2 => "softkey2",
            Button::Softkey3 => "softkey3",
            Button::Softkey4 => "softkey4",
            Button::Softkey5 => "softkey5",
            Button::Softkey6 => "softkey6",
            Button::Softkey7 => "softkey7",
            Button::Softkey8 => "softkey8",
            Button::NoteRepeat => "note_repeat",
            Button::Play => "play",
        }
    }
}

/// Position of a button in `Button::ALL`.
pub open spec fn button_index(b: Button) -> int {
    match b {
        Button::Mute => 0,
        Button::Solo => 1,
        Button::Select => 2,
        Button::Duplicate => 3,
        Button::Navigate => 4,
        Button::PadMode => 5,
        Button::Pattern => 6,
        Button::Scene => 7,
        Button::Rec => 8,
        Button::Erase => 9,
        Button::Shift => 10,
        Button::Grid => 11,
        Button::StepRight => 12,
        Button::StepLeft => 13,
        Button::Restart => 14,
        Button::GroupE => 15,
        Button::GroupF => 16,
        Button::GroupG => 17,
        Button::GroupH => 18,
        Button::GroupD => 19,
        Button::GroupC => 20,
        Button::GroupB => 21,
        Button::GroupA => 22,
        Button::Control => 23,
        Button::Browse => 24,
        Button::Left => 25,
        Button::Snap => 26,
        Button::AutoWrite => 27,
        Button::Right => 28,
        Button::Sampling => 29,
        Button::Step => 30,
        Button::Softkey1 => 31,
        Button::Softkey2 => 32,
        Button::Softkey3 => 33,
        Button::Softkey4 => 34,
        Button::Softkey5 => 35,
        Button::Softkey6 => 36,
        Button::Softkey7 => 37,
        Button::Softkey8 => 38,
        Button::NoteRepeat => 39,
        Button::Play => 40,
    }
}

/// `Button::ALL` lists every button, once.
pub proof fn law_all_buttons(b: Button)
    ensures
        0 <= button_index(b) < 41,
        Button::ALL@[button_index(b)] == b,
        forall|i: int| 0 <= i < 41 ==> button_index(#[trigger] Button::ALL@[i]) == i,
{
}

/// No two buttons share a name.
pub proof fn law_button_names_distinct(a: Button, b: Button)
    requires
        button_name(a) == button_name(b),
    ensures
        a == b,
{
    reveal_strlit("mute");
    reveal_strlit("solo");
    reveal_strlit("select");
    reveal_strlit("duplicate");
    reveal_strlit("navigate");
    reveal_strlit("pad_mode");
    reveal_strlit("pattern");
    reveal_strlit("scene");
    reveal_strlit("rec");
    reveal_strlit("erase");
    reveal_strlit("shift");
    reveal_strlit("grid");
    reveal_strlit("step_right");
    reveal_strlit("step_left");
    reveal_strlit("restart");
    reveal_strlit("group_e");
    reveal_strlit("group_f");
    reveal_strlit("group_g");
    reveal_strlit("group_h");
    reveal_strlit("group_d");
    reveal_strlit("group_c");
    reveal_strlit("group_b");
    reveal_strlit("group_a");
    reveal_strlit("control");
    reveal_strlit("browse");
    reveal_strlit("left");
    reveal_strlit("snap");
    reveal_strlit("autowrite");
    reveal_strlit("right");
    reveal_strlit("sampling");
    reveal_strlit("step");
    reveal_strlit("softkey1");
    reveal_strlit("softkey2");
    reveal_strlit("softkey3");
    reveal_strlit("softkey4");
    reveal_strlit("softkey5");
    reveal_strlit("softkey6");
    reveal_strlit("softkey7");
    reveal_strlit("softkey8");
    reveal_strlit("note_repeat");
    reveal_strlit("play");
    let (na, nb) = (button_name(a), button_name(b));
    assert(na.len() == nb.len());
    assert(na[0] == nb[0]);
    assert(na[2] == nb[2]);
    assert(na[na.len() - 1] == nb[nb.len() - 1]);
}

/// The button with this name, if there is one.
pub open spec fn named_button(name: Seq<char>) -> Option<Button> {
    if exists|b: Button| #[trigger] button_name(b) == name {
        Some(choose|b: Button| #[trigger] button_name(b) == name)
    } else {
        None
    }
}

/// A button is the one that its name names.
pub proof fn law_button_is_named(b: Button)
    ensures
        named_button(button_name(b)) == Some(b),
{
    let found = choose|c: Button| #[trigger] button_name(c) == button_name(b);
    law_button_names_distinct(found, b);
}

/// The button with this name, if there is one.
pub fn button_by_name(name: &str) -> (r: Option<Button>)
    ensures
        r == named_button(name@),
{
    let mut i: usize = 0;
    while i < 41
        invariant
            i <= 41,
            forall|j: int| 0 <= j < i ==> button_name(#[trigger] Button::ALL@[j]) != name@,
        decreases 41 - i,
    {
        let b = Button::ALL[i];
        if same_text(b.name(), name) {
            proof {
                law_button_is_named(b);
            }
            return Some(b);
        }
        i += 1;
    }
    proof {
        assert forall|b: Button| #[trigger] button_name(b) != name@ by {
            law_all_buttons(b);
        }
    }
    None
}

/// Snapshot of all button states from one READ_IO report.
#[derive(Debug, Clone, Copy, PartialEq, Eq, Structural)]
pub struct ButtonStates(pub u64);

impl Default for ButtonStates {
    /// Nothing pressed.
    fn default() -> (r: Self)
        ensures
            r == ButtonStates(0),
    {
        ButtonStates(0)
    }
}

/// The number that bytes stand for, least significant first.
pub open spec fn le_value(s: Seq<u8>) -> nat
    decreases s.len(),
{
    if s.len() == 0 {
        0
    } else {
        s[0] as nat + 256 * le_value(s.skip(1))
    }
}

proof fn lemma_le_value_bound(s: Seq<u8>)
    requires
        s.len() <= 6,
    ensures
        le_value(s) < 0x1_0000_0000_0000,
        s.len() <= 5 ==> le_value(s) < 0x100_0000_0000,
{
    reveal_with_fuel(le_value, 7);
}

/// The part of a READ_IO payload that holds buttons: its first six bytes.
pub open spec fn button_bytes(payload: Seq<u8>) -> Seq<u8> {
    if payload.len() < 6 {
        payload
    } else {
        payload.take(6)
    }
}

/// The button states that a READ_IO payload reports.
pub open spec fn button_states(payload: Seq<u8>) -> ButtonStates {
    ButtonStates(le_value(button_bytes(payload)) as u64)
}

/// Whether a snapshot has this button down.
pub open spec fn is_pressed(s: ButtonStates, b: Button) -> bool {
    s.0 & (1u64 << button_bit(b)) != 0
}

/// The buttons among the first `n` of `Button::ALL` whose state differs
/// between two snapshots, each with its new state.
pub open spec fn changed_among(now: ButtonStates, prev: ButtonStates, n: int) -> Seq<(Button, bool)>
    decreases n,
{
    if n <= 0 {
        Seq::empty()
    } else {
        let b = Button::ALL@[n - 1];
        let before = changed_among(now, prev, n - 1);
        if is_pressed(now, b) != is_pressed(prev, b) {
            before.push((b, is_pressed(now, b)))
        } else {
            before
        }
    }
}

/// The buttons whose state differs between two snapshots, `Button::ALL`
/// order, each with its new state.
pub open spec fn changed_buttons(now: ButtonStates, prev: ButtonStates) -> Seq<(Button, bool)> {
    changed_among(now, prev, 41)
}

impl ButtonStates {
    pub fn parse(payload: &[u8]) -> (r: Self)
        ensures
            r == button_states(payload@),
    {
        let n: usize = if payload.len() < 6 {
            payload.len()
        } else {
            6
        };
        let ghost used = button_bytes(payload@);
        let mut bits: u64 = 0;
        let mut i: usize = n;
        assert(used.skip(n as int) == Seq::<u8>::empty());
        while i > 0
            invariant
                i <= n <= 6,
                n == used.len(),
                n <= payload@.len(),
                used == payload@.take(n as int),
                bits == le_value(used.skip(i as int)),
            decreases i,
        {
            proof {
                lemma_le_value_bound(used.skip(i as int));
                assert(used.skip(i - 1).skip(1) == used.skip(i as int));
            }
            i -= 1;
            bits = payload[i] as u64 + 256 * bits;
        }
        assert(used.skip(0) == used);
        ButtonStates(bits)
    }

    pub fn pressed(self, b: Button) -> (r: bool)
        ensures
            r == is_pressed(self, b),
    {
        self.0 & (1u64 << b.bit()) != 0
    }

    /// Buttons whose state differs from `prev`, with the new state.
    pub fn diff(self, prev: Self) -> (r: Vec<(Button, bool)>)
        ensures
            r@ == changed_buttons(self, prev),
    {
        let mut out: Vec<(Button, bool)> = Vec::new();
        let mut i: usize = 0;
        while i < 41
            invariant
                i <= 41,
                out@ == changed_among(self, prev, i as int),
            decreases 41 - i,
        {
            let b = Button::ALL[i];
            let down = self.pressed(b);
            if down != prev.pressed(b) {
                out.push((b, down));
            }
            i += 1;
        }
        out
    }
}

/// A button is down exactly when its bit is set in the payload byte that
/// holds it; a byte the payload lacks holds no pressed button.
pub proof fn law_buttons_follow_payload(payload: Seq<u8>, b: Button)
    ensures
        is_pressed(button_states(payload), b) <==> {
            let k = (button_bit(b) / 8) as int;
            k < payload.len() && payload[k] & (1u8 << (button_bit(b) % 8)) != 0
        },
{
    let used = button_bytes(payload);
    let at = |i: int|
        if i < used.len() {
            used[i]
        } else {
            0u8
        };
    let (b0, b1, b2, b3, b4, b5) = (at(0), at(1), at(2), at(3), at(4), at(5));
    let v = button_states(payload).0;
    lemma_le_value_bound(used);
    assert(v == b0 + 0x100 * b1 + 0x1_0000 * b2 + 0x100_0000 * b3 + 0x1_0000_0000 * b4
        + 0x100_0000_0000 * b5) by {
        reveal_with_fuel(le_value, 7);
    }
    let k = button_bit(b);
    assert((v & (1u64 << k) != 0) == ((if k / 8 == 0 {
        b0
    } else if k / 8 == 1 {
        b1
    } else if k / 8 == 2 {
        b2
    } else if k / 8 == 3 {
        b3
    } else if k / 8 == 4 {
        b4
    } else {
        b5
    }) & (1u8 << (k % 8)) != 0)) by (bit_vector)
        requires
            k < 48,
            v == b0 + 0x100 * b1 + 0x1_0000 * b2 + 0x100_0000 * b3 + 0x1_0000_0000 * b4
                + 0x100_0000_0000 * b5,
    ;
    assert(0u8 & (1u8 << (k % 8)) == 0) by (bit_vector);
}

/// A difference names exactly the buttons whose state changed, with the state
/// they changed to.
pub proof fn law_diff_is_the_change(now: ButtonStates, prev: ButtonStates, b: Button, down: bool)
    ensures
        changed_buttons(now, prev).contains((b, down)) <==> (is_pressed(now, b) != is_pressed(
            prev,
            b,
        ) && down == is_pressed(now, b)),
{
    lemma_changed_among(now, prev, 41);
    let d = changed_buttons(now, prev);
    law_all_buttons(b);
    if is_pressed(now, b) != is_pressed(prev, b) {
        assert(d.contains((Button::ALL@[button_index(b)], is_pressed(now, b))));
    }
}

proof fn lemma_changed_among(now: ButtonStates, prev: ButtonStates, n: int)
    requires
        0 <= n <= 41,
    ensures
        forall|e: (Button, bool)| #[trigger]
            changed_among(now, prev, n).contains(e) ==> is_pressed(now, e.0) != is_pressed(
                prev,
                e.0,
            ) && e.1 == is_pressed(now, e.0),
        forall|i: int|
            0 <= i < n && is_pressed(now, #[trigger] Button::ALL@[i]) != is_pressed(
                prev,
                Button::ALL@[i],
            ) ==> changed_among(now, prev, n).contains(
                (Button::ALL@[i], is_pressed(now, Button::ALL@[i])),
            ),
    decreases n,
{
    if n > 0 {
        lemma_changed_among(now, prev, n - 1);
        let before = changed_among(now, prev, n - 1);
        let after = changed_among(now, prev, n);
        let b = Button::ALL@[n - 1];
        let last = (b, is_pressed(now, b));
        assert forall|e: (Button, bool)| before.contains(e) implies after.contains(e) by {
            let i = choose|i: int| 0 <= i < before.len() && before[i] == e;
            assert(after[i] == e);
        }
        if is_pressed(now, b) != is_pressed(prev, b) {
            assert(after[before.len() as int] == last);
            assert forall|e: (Button, bool)| #[trigger] after.contains(e) implies is_pressed(
                now,
                e.0,
            ) != is_pressed(prev, e.0) && e.1 == is_pressed(now, e.0) by {
                let i = choose|i: int| 0 <= i < after.len() && after[i] == e;
                if i < before.len() {
                    assert(before[i] == e);
                    assert(before.contains(e));
                }
            }
        }
    }
}

/// One parsed EP 0x81 message.
#[derive(Debug, PartialEq, Eq)]
pub enum Ep1Message<'a> {
    DeviceInfo(DeviceInfo),
    Knobs([u16; 11]),
    Buttons(ButtonStates),
    Midi { port: u8, data: &'a [u8] },
    Unknown { cmd: u8, payload: &'a [u8] },
}

/// What an EP 0x81 message says, free of where its bytes lie.
pub enum Ep1Content {
    DeviceInfo(DeviceInfo),
    Knobs(Seq<u16>),
    Buttons(ButtonStates),
    Midi { port: u8, data: Seq<u8> },
    Unknown { cmd: u8, payload: Seq<u8> },
}

impl<'a> View for Ep1Message<'a> {
    type V = Ep1Content;

    open spec fn view(&self) -> Ep1Content {
        match *self {
            Ep1Message::DeviceInfo(info) => Ep1Content::DeviceInfo(info),
            Ep1Message::Knobs(k) => Ep1Content::Knobs(k@),
            Ep1Message::Buttons(b) => Ep1Content::Buttons(b),
            Ep1Message::Midi { port, data } => Ep1Content::Midi { port, data: data@ },
            Ep1Message::Unknown { cmd, payload } => Ep1Content::Unknown { cmd, payload: payload@ },
        }
    }
}

/// What a message on EP 0x81 says: a command byte, then a payload laid out by
/// command. Too short a payload makes the message unreadable.
pub open spec fn ep1_content(buf: Seq<u8>) -> Option<Ep1Content> {
    if buf.len() == 0 {
        None
    } else {
        let cmd = buf[0];
        let payload = buf.skip(1);
        if cmd == CMD_GET_DEVICE_INFO {
            match device_info(payload) {
                Some(info) => Some(Ep1Content::DeviceInfo(info)),
                None => None,
            }
        } else if cmd == CMD_READ_ERP {
            if payload.len() < 22 {
                None
            } else {
                Some(Ep1Content::Knobs(erp_positions(payload)))
            }
        } else if cmd == CMD_READ_IO {
            Some(Ep1Content::Buttons(button_states(payload)))
        } else if cmd == CMD_MIDI_READ {
            if payload.len() < 2 || payload.len() - 2 < payload[1] {
                None
            } else {
                Some(
                    Ep1Content::Midi {
                        port: payload[0],
                        data: payload.subrange(2, 2 + payload[1] as int),
                    },
                )
            }
        } else {
            Some(Ep1Content::Unknown { cmd, payload })
        }
    }
}

impl<'a> Ep1Message<'a> {
    pub fn parse(buf: &'a [u8]) -> (r: Option<Self>)
        ensures
            match r {
                Some(m) => ep1_content(buf@) == Some(m@),
                None => ep1_content(buf@) is None,
            },
            r matches Some(Ep1Message::Knobs(k)) ==> forall|i: int|
                0 <= i < 11 ==> (#[trigger] k@[i]) < 1000,
    {
        if buf.len() == 0 {
            return None;
        }
        let cmd = buf[0];
        let payload = &buf[1..buf.len()];
        assert(payload@ == buf@.skip(1));
        if cmd == CMD_GET_DEVICE_INFO {
            match DeviceInfo::parse(payload) {
                Some(info) => Some(Ep1Message::DeviceInfo(info)),
                None => None,
            }
        } else if cmd == CMD_READ_ERP {
            match parse_erp(payload) {
                Some(k) => Some(Ep1Message::Knobs(k)),
                None => None,
            }
        } else if cmd == CMD_READ_IO {
            Some(Ep1Message::Buttons(ButtonStates::parse(payload)))
        } else if cmd == CMD_MIDI_READ {
            if payload.len() < 2 {
                return None;
            }
            let port = payload[0];
            let len: usize = payload[1] as usize;
            if payload.len() - 2 < len {
                return None;
            }
            Some(Ep1Message::Midi { port, data: &payload[2..2 + len] })
        } else {
            Some(Ep1Message::Unknown { cmd, payload })
        }
    }
}

/// The pad words of an EP 0x84 report: (pad 0-15, pressure 0-4095) in the high
/// 4 and low 12 bits of little-endian 16-bit words. An odd byte at the end is
/// no word.
pub open spec fn pad_words(buf: Seq<u8>) -> Seq<(u8, u16)> {
    Seq::new(
        (buf.len() / 2) as nat,
        |i: int|
            (
                (buf[2 * i + 1] / 16) as u8,
                (256 * (buf[2 * i + 1] % 16) + buf[2 * i]) as u16,
            ),
    )
}

/// Parse an EP 0x84 pad report: (pad 0-15, pressure 0-4095) pairs. Words are
/// self-identifying; the same pad may appear more than once.
pub fn parse_pads(buf: &[u8]) -> (r: Vec<(u8, u16)>)
    ensures
        r@ == pad_words(buf@),
        forall|i: int| 0 <= i < r@.len() ==> (#[trigger] r@[i]).0 < 16 && r@[i].1 < 4096,
{
    let n: usize = buf.len() / 2;
    let mut out: Vec<(u8, u16)> = Vec::new();
    let mut i: usize = 0;
    while i < n
        invariant
            i <= n,
            n == buf@.len() / 2,
            2 * n <= buf.len(),
            out@ == pad_words(buf@).take(i as int),
            forall|j: int| 0 <= j < i ==> (#[trigger] out@[j]).0 < 16 && out@[j].1 < 4096,
        decreases n - i,
    {
        let low = buf[2 * i];
        let high = buf[2 * i + 1];
        out.push((high / 16, 256 * ((high % 16) as u16) + low as u16));
        assert(out@ == pad_words(buf@).take(i + 1));
        i += 1;
    }
    assert(pad_words(buf@).take(n as int) == pad_words(buf@));
    out
}

/// The number printed next to a pad. Raw ids run row by row from the top left,
/// printed numbers from the bottom left: raw 0 is pad 13, raw 12 is pad 1.
pub open spec fn printed_pad(raw: int) -> int {
    4 * (3 - raw % 16 / 4) + raw % 4 + 1
}

/// The number 1-16 printed next to the pad with this raw id (only the low
/// four bits of an id count).
pub fn pad_number(raw: u8) -> (r: u8)
    ensures
        r == printed_pad(raw as int),
        1 <= r <= 16,
{
    4 * (3 - raw % 16 / 4) + raw % 4 + 1
}

/// Every printed number belongs to exactly one raw pad id.
pub proof fn law_printed_pads_are_distinct(a: int, b: int)
    requires
        0 <= a < 16,
        0 <= b < 16,
        printed_pad(a) == printed_pad(b),
    ensures
        a == b,
{
}

} // verus!
