//! The OSC engine: profile-mapped controls out, LEDs and feedback in.
//!
//! Controls go to the active profile's target at banked addresses
//! `/maschine/<a-h>/pad|knob|softkey/<n>`, globals at `/maschine/volume`,
//! `/maschine/tempo`, `/maschine/swing` and `/maschine/button/<name>`, unless
//! the profile maps a control elsewhere. Group buttons are device-owned: with
//! Shift they select a bank, with Control a profile.
//!
//! The engine takes events and gives back what has to be done, in order.

use vstd::prelude::*;
use vstd::string::StringExecFns;

use crate::controls::{
    bank_letter, banked_key, control_key, group_bank, group_index, led_of_key, led_slot, letter,
    numbered, read_number, slot_ok, softkey_index, softkey_place, LedSlot, BANKS, GROUP_LEDS,
    SOFTKEY_LEDS,
};
use crate::input::{
    button_by_name, button_name, named_button, pad_number, printed_pad, Button,
};
use crate::leds::{button_led, pad_led, Led};
use crate::osc::{osc_int, osc_msg_i, osc_msg_s, osc_string};
use crate::profile::{active_slot, entry_at, opt_text, set_active, EntryView, Profile, ProfileView};
use crate::text::{after_prefix, same_text, strip_prefix};

verus! {

/// The port that LED writes and feedback arrive on.
pub const LED_PORT: i32 = 9001;

/// Seconds between two feedback registrations.
pub const SYNC_SECONDS: u64 = 5;

/// Whether it is time for another feedback registration, this long after the
/// last one.
pub open spec fn registration_due(elapsed_ms: u64) -> bool {
    elapsed_ms >= 1000 * SYNC_SECONDS
}

/// Whether it is time for another feedback registration, this long after the
/// last one.
pub fn sync_due(elapsed_ms: u64) -> (r: bool)
    ensures
        r == registration_due(elapsed_ms),
{
    elapsed_ms >= 1000 * SYNC_SECONDS
}

/// Full scale of a raw knob position.
pub const KNOB_SCALE: u16 = 999;

/// Full scale of a pad pressure.
pub const PAD_SCALE: u16 = 4095;

/// Something that happened.
#[derive(Debug, PartialEq, Eq)]
pub enum Event {
    /// Knob index (0-7 the knobs, 8-10 volume, tempo, swing) and position 0-999.
    Knob(usize, u16),
    /// Raw pad id and pressure 0-4095.
    Pad(u8, u16),
    /// A button went down or up.
    Button(Button, bool),
    /// A message came in on the LED port: address, and value as brightness 0-63.
    In(String, u8),
    /// The stored profiles or the active slot changed.
    Reload,
}

/// An event by its contents.
pub enum EventView {
    Knob(usize, u16),
    Pad(u8, u16),
    Button(Button, bool),
    In(Seq<char>, u8),
    Reload,
}

impl View for Event {
    type V = EventView;

    open spec fn view(&self) -> EventView {
        match self {
            Event::Knob(i, raw) => EventView::Knob(*i, *raw),
            Event::Pad(raw, p) => EventView::Pad(*raw, *p),
            Event::Button(b, down) => EventView::Button(*b, *down),
            Event::In(addr, b) => EventView::In(addr@, *b),
            Event::Reload => EventView::Reload,
        }
    }
}

/// Something the engine asks for.
#[derive(Debug, PartialEq, Eq)]
pub enum Action {
    /// Send this datagram to the target.
    Send(Vec<u8>),
    /// Send the float `num / den` to this address at the target.
    Emit { addr: String, num: u16, den: u16 },
    /// Advance the virtual position of a knob by `delta * scale` (the bits of a
    /// 64-bit float, none is 1.0) of `KNOB_SCALE`, wrapping or clamping it to
    /// 0-1, and send it to this address, if there is one.
    Turn {
        bank: usize,
        knob: usize,
        delta: i32,
        scale: Option<u64>,
        wrap: bool,
        to: Option<String>,
    },
    /// Set an LED.
    Led(Led, u8),
    /// Store this as the active slot.
    StoreSlot(u8),
    /// Load the active slot and its profile, and hand them to `reload`.
    Reload,
    /// Send to this target from now on; to the configured one if there is none
    /// or it is no `"ip:port"`.
    Retarget(Option<String>),
}

/// An action by its contents.
pub enum Effect {
    Send(Seq<u8>),
    Emit { addr: Seq<char>, num: u16, den: u16 },
    Turn {
        bank: int,
        knob: int,
        delta: int,
        scale: Option<u64>,
        wrap: bool,
        to: Option<Seq<char>>,
    },
    Led(Led, u8),
    StoreSlot(u8),
    Reload,
    Retarget(Option<Seq<char>>),
}

impl View for Action {
    type V = Effect;

    open spec fn view(&self) -> Effect {
        match self {
            Action::Send(b) => Effect::Send(b@),
            Action::Emit { addr, num, den } => Effect::Emit { addr: addr@, num: *num, den: *den },
            Action::Turn { bank, knob, delta, scale, wrap, to } => Effect::Turn {
                bank: *bank as int,
                knob: *knob as int,
                delta: *delta as int,
                scale: *scale,
                wrap: *wrap,
                to: opt_text(*to),
            },
            Action::Led(led, b) => Effect::Led(*led, *b),
            Action::StoreSlot(s) => Effect::StoreSlot(*s),
            Action::Reload => Effect::Reload,
            Action::Retarget(t) => Effect::Retarget(opt_text(*t)),
        }
    }
}

/// Actions by their contents.
pub open spec fn effects(actions: Seq<Action>) -> Seq<Effect> {
    actions.map_values(|a: Action| a@)
}

/// How far a knob has turned, the shortest way around its 0-999 circle; a
/// first reading is no turn.
pub open spec fn knob_delta(last: Option<u16>, now: u16) -> int {
    match last {
        None => 0,
        Some(p) => if now - p > 500 {
            now - p - 1000
        } else if now - p < -500 {
            now - p + 1000
        } else {
            now - p
        },
    }
}

/// The name of a knob beyond the eight banked ones.
pub open spec fn global_knob(i: int) -> Seq<char> {
    if i == 8 {
        "volume"@
    } else if i == 9 {
        "tempo"@
    } else {
        "swing"@
    }
}

/// Where a control's value goes: to its entry's address, nowhere if the entry
/// has none, and to the generated address if there is no entry.
pub open spec fn route(map: Seq<(Seq<char>, EntryView)>, key: Seq<char>) -> Option<Seq<char>> {
    match entry_at(map, key) {
        Some(e) => e.osc,
        None => Some("/maschine/"@ + key),
    }
}

/// Which LED each feedback address drives: that of every control with a
/// `led_source` and an LED, in the order of the map.
pub open spec fn feedback_table(map: Seq<(Seq<char>, EntryView)>) -> Seq<(Seq<char>, LedSlot)>
    decreases map.len(),
{
    if map.len() == 0 {
        Seq::empty()
    } else {
        let before = feedback_table(map.drop_last());
        let (key, entry) = map.last();
        match (entry.led_source, led_of_key(key)) {
            (Some(addr), Some(slot)) => before.push((addr, slot)),
            _ => before,
        }
    }
}

/// The LED that an address drives: where two controls name it, the later one's.
pub open spec fn driven_led(table: Seq<(Seq<char>, LedSlot)>, addr: Seq<char>) -> Option<LedSlot>
    decreases table.len(),
{
    if table.len() == 0 {
        None
    } else if table.last().0 == addr {
        Some(table.last().1)
    } else {
        driven_led(table.drop_last(), addr)
    }
}

/// The state of the engine.
#[verifier::ext_equal]
pub struct EngineState {
    pub profile: ProfileView,
    pub slot: u8,
    pub bank: usize,
    pub shift: bool,
    pub ctrl: bool,
    /// Last raw position of knobs 1-8.
    pub knobs: Seq<Option<u16>>,
    /// Host-written LEDs, by bank.
    pub pad_led: Seq<Seq<u8>>,
    pub softkey_led: Seq<Seq<u8>>,
    pub feedback: Seq<(Seq<char>, LedSlot)>,
}

impl EngineState {
    pub open spec fn initial() -> EngineState {
        EngineState {
            profile: ProfileView::empty(),
            slot: 0,
            bank: 0,
            shift: false,
            ctrl: false,
            knobs: Seq::new(8, |i: int| None),
            pad_led: Seq::new(8, |b: int| Seq::new(16, |i: int| 0u8)),
            softkey_led: Seq::new(8, |b: int| Seq::new(8, |i: int| 0u8)),
            feedback: Seq::empty(),
        }
    }

    pub open spec fn wf(self) -> bool {
        &&& self.bank < BANKS
        &&& self.knobs.len() == 8
        &&& self.pad_led.len() == 8
        &&& forall|b: int| 0 <= b < 8 ==> (#[trigger] self.pad_led[b]).len() == 16
        &&& self.softkey_led.len() == 8
        &&& forall|b: int| 0 <= b < 8 ==> (#[trigger] self.softkey_led[b]).len() == 8
        &&& self.feedback == feedback_table(self.profile.map)
        &&& forall|i: int|
            0 <= i < self.feedback.len() ==> slot_ok((#[trigger] self.feedback[i]).1)
    }

    /// Sending a control's value.
    pub open spec fn emitted(self, key: Seq<char>, num: u16, den: u16) -> Seq<Effect> {
        match route(self.profile.map, key) {
            Some(addr) => seq![Effect::Emit { addr, num, den }],
            None => Seq::empty(),
        }
    }

    /// The group that is lit: the active bank, or the active profile while
    /// Control alone is held.
    pub open spec fn lit(self) -> int {
        if self.ctrl && !self.shift {
            self.slot as int
        } else {
            self.bank as int
        }
    }

    /// Painting the group LEDs.
    pub open spec fn painted_groups(self) -> Seq<Effect> {
        let lit = self.lit();
        Seq::new(
            8,
            |g: int|
                Effect::Led(
                    GROUP_LEDS@[g],
                    if g == lit {
                        63
                    } else {
                        0
                    },
                ),
        )
    }

    /// Painting the pads and softkeys of the active bank.
    pub open spec fn painted_bank(self) -> Seq<Effect> {
        Seq::new(16, |i: int| Effect::Led(pad_led(i + 1), self.pad_led[self.bank as int][i]))
            + Seq::new(
            8,
            |i: int| Effect::Led(SOFTKEY_LEDS@[i], self.softkey_led[self.bank as int][i]),
        )
    }

    /// Registering for feedback.
    pub open spec fn registered(self) -> Seq<Effect> {
        match self.profile.sync {
            Some(addr) => seq![Effect::Send(osc_int(addr, LED_PORT))],
            None => Seq::empty(),
        }
    }

    /// What the passing of time asks for, this long after the last registration.
    pub open spec fn ticked(self, elapsed_ms: u64) -> Seq<Effect> {
        if registration_due(elapsed_ms) {
            self.registered()
        } else {
            Seq::empty()
        }
    }

    /// Knob `i` reads `raw`.
    pub open spec fn after_knob(self, i: int, raw: u16) -> EngineState {
        if i < 8 {
            EngineState { knobs: self.knobs.update(i, Some(raw)), ..self }
        } else {
            self
        }
    }

    pub open spec fn knob_effects(self, i: int, raw: u16) -> Seq<Effect> {
        if i < 8 {
            let key = control_key(self.bank as int, "knob"@, (i + 1) as nat);
            let entry = entry_at(self.profile.map, key);
            seq![
                Effect::Turn {
                    bank: self.bank as int,
                    knob: i,
                    delta: knob_delta(self.knobs[i], raw),
                    scale: match entry {
                        Some(e) => e.scale,
                        None => None,
                    },
                    wrap: entry matches Some(e) && e.mode == Some("wrap"@),
                    to: route(self.profile.map, key),
                },
            ]
        } else {
            self.emitted(global_knob(i), raw, KNOB_SCALE)
        }
    }

    /// The bank is `g`.
    pub open spec fn after_bank(self, g: usize) -> EngineState {
        EngineState { bank: g, ..self }
    }

    /// Switching to bank `g`: it is announced and painted. Selecting the
    /// active bank does nothing.
    pub open spec fn bank_effects(self, g: usize) -> Seq<Effect> {
        if self.bank == g {
            Seq::empty()
        } else {
            seq![Effect::Send(osc_string("/maschine/bank"@, seq![letter(g as int)]))]
                + self.after_bank(g).painted_groups() + self.after_bank(g).painted_bank()
        }
    }

    /// Only the modifiers and a bank switch change the state.
    pub open spec fn after_button(self, b: Button, down: bool) -> EngineState {
        if b == Button::Shift {
            EngineState { shift: down, ..self }
        } else if b == Button::Control {
            EngineState { ctrl: down, ..self }
        } else {
            match group_bank(b) {
                Some(g) => if down && self.shift {
                    self.after_bank(g)
                } else {
                    self
                },
                None => self,
            }
        }
    }

    /// A modifier repaints the groups. A group press is a bank switch with
    /// Shift, else a profile switch with Control, else nothing, and is never
    /// forwarded. Every other press and release is.
    pub open spec fn button_effects(self, b: Button, down: bool) -> Seq<Effect> {
        let value: u16 = if down {
            1
        } else {
            0
        };
        match (group_bank(b), softkey_place(b)) {
            (Some(g), _) => if !down {
                Seq::empty()
            } else if self.shift {
                self.bank_effects(g)
            } else if self.ctrl {
                seq![Effect::StoreSlot(active_slot(g as u8)), Effect::Reload]
            } else {
                Seq::empty()
            },
            (None, Some(n)) => self.emitted(
                control_key(self.bank as int, "softkey"@, (n + 1) as nat),
                value,
                1,
            ),
            (None, None) => {
                let after = self.after_button(b, down);
                let sent = after.emitted("button/"@ + button_name(b), value, 1);
                if b == Button::Shift || b == Button::Control {
                    after.painted_groups() + sent
                } else {
                    sent
                }
            },
        }
    }

    /// The LED that a name below `/maschine/led/` means: a banked control's
    /// key, `backlight`, `pad/<1-16>` or a button's name. The unbanked ones
    /// mean the active bank, and group LEDs belong to the device.
    pub open spec fn led_of_name(self, name: Seq<char>) -> Option<LedSlot> {
        if led_of_key(name) is Some {
            led_of_key(name)
        } else if name == "backlight"@ {
            Some(LedSlot::Button(Led::Backlight))
        } else {
            match after_prefix(name, "pad/"@) {
                Some(n) => match numbered(n, 16) {
                    Some(i) => Some(LedSlot::Pad(self.bank, i)),
                    None => None,
                },
                None => match named_button(name) {
                    Some(b) => if group_bank(b) is Some {
                        None
                    } else {
                        match softkey_place(b) {
                            Some(i) => Some(LedSlot::Softkey(self.bank, i)),
                            None => Some(LedSlot::Button(button_led(b))),
                        }
                    },
                    None => None,
                },
            }
        }
    }

    /// The LED that a message to this address sets.
    pub open spec fn addressed(self, addr: Seq<char>) -> Option<LedSlot> {
        match after_prefix(addr, "/maschine/led/"@) {
            Some(name) => self.led_of_name(name),
            None => driven_led(self.feedback, addr),
        }
    }

    /// An LED is set: the banked ones are remembered, whatever bank is active.
    pub open spec fn after_led(self, slot: LedSlot, b: u8) -> EngineState {
        match slot {
            LedSlot::Pad(bank, i) => EngineState {
                pad_led: self.pad_led.update(
                    bank as int,
                    self.pad_led[bank as int].update(i as int, b),
                ),
                ..self
            },
            LedSlot::Softkey(bank, i) => EngineState {
                softkey_led: self.softkey_led.update(
                    bank as int,
                    self.softkey_led[bank as int].update(i as int, b),
                ),
                ..self
            },
            LedSlot::Button(_) => self,
        }
    }

    /// It is shown at once, unless it belongs to a bank that is not active.
    pub open spec fn led_effects(self, slot: LedSlot, b: u8) -> Seq<Effect> {
        match slot {
            LedSlot::Pad(bank, i) => if bank == self.bank {
                seq![Effect::Led(pad_led(i + 1), b)]
            } else {
                Seq::empty()
            },
            LedSlot::Softkey(bank, i) => if bank == self.bank {
                seq![Effect::Led(SOFTKEY_LEDS@[i as int], b)]
            } else {
                Seq::empty()
            },
            LedSlot::Button(led) => seq![Effect::Led(led, b)],
        }
    }

    pub open spec fn after_event(self, e: EventView) -> EngineState {
        match e {
            EventView::Knob(i, raw) => self.after_knob(i as int, raw),
            EventView::Pad(_, _) => self,
            EventView::Button(b, down) => self.after_button(b, down),
            EventView::In(addr, b) => match self.addressed(addr) {
                Some(slot) => self.after_led(slot, b),
                None => self,
            },
            EventView::Reload => self,
        }
    }

    pub open spec fn event_effects(self, e: EventView) -> Seq<Effect> {
        match e {
            EventView::Knob(i, raw) => self.knob_effects(i as int, raw),
            EventView::Pad(raw, p) => self.emitted(
                control_key(self.bank as int, "pad"@, printed_pad(raw as int) as nat),
                p,
                PAD_SCALE,
            ),
            EventView::Button(b, down) => self.button_effects(b, down),
            EventView::In(addr, b) => match self.addressed(addr) {
                Some(slot) => self.led_effects(slot, b),
                None => Seq::empty(),
            },
            EventView::Reload => seq![Effect::Reload],
        }
    }

    /// A profile was loaded from a slot.
    pub open spec fn after_reload(self, slot: u8, profile: ProfileView) -> EngineState {
        EngineState { slot, profile, feedback: feedback_table(profile.map), ..self }
    }

    pub open spec fn reload_effects(self, slot: u8, profile: ProfileView) -> Seq<Effect> {
        let after = self.after_reload(slot, profile);
        seq![Effect::Retarget(profile.target)] + after.painted_groups() + after.registered()
    }
}

/// Whether the engine knows this event: there are eleven knobs.
pub open spec fn event_ok(e: EventView) -> bool {
    e matches EventView::Knob(i, _) ==> i < 11
}

pub struct Engine {
    profile: Profile,
    slot: u8,
    bank: usize,
    shift: bool,
    ctrl: bool,
    knobs: [Option<u16>; 8],
    pad_led: [[u8; 16]; 8],
    softkey_led: [[u8; 8]; 8],
    feedback: Vec<(String, LedSlot)>,
}

/// The feedback table by its contents.
pub open spec fn table_of(feedback: Seq<(String, LedSlot)>) -> Seq<(Seq<char>, LedSlot)> {
    feedback.map_values(|f: (String, LedSlot)| (f.0@, f.1))
}

impl View for Engine {
    type V = EngineState;

    closed spec fn view(&self) -> EngineState {
        EngineState {
            profile: self.profile@,
            slot: self.slot,
            bank: self.bank,
            shift: self.shift,
            ctrl: self.ctrl,
            knobs: self.knobs@,
            pad_led: self.pad_led@.map_values(|row: [u8; 16]| row@),
            softkey_led: self.softkey_led@.map_values(|row: [u8; 8]| row@),
            feedback: table_of(self.feedback@),
        }
    }
}

/// Append one action.
fn ask(out: &mut Vec<Action>, a: Action)
    ensures
        effects(final(out)@) == effects(old(out)@).push(a@),
{
    out.push(a);
    assert(effects(out@) =~= effects(old(out)@).push(a@));
}

fn copy_text(t: &Option<String>) -> (r: Option<String>)
    ensures
        opt_text(r) == opt_text(*t),
{
    match t {
        Some(s) => Some(s.clone()),
        None => None,
    }
}

impl Engine {
    pub fn new() -> (r: Self)
        ensures
            r@ == EngineState::initial(),
            r@.wf(),
    {
        let r = Engine {
            profile: Profile::new(),
            slot: 0,
            bank: 0,
            shift: false,
            ctrl: false,
            knobs: [None; 8],
            pad_led: [[0; 16]; 8],
            softkey_led: [[0; 8]; 8],
            feedback: Vec::new(),
        };
        assert(r@.pad_led =~~= EngineState::initial().pad_led);
        assert(r@.softkey_led =~~= EngineState::initial().softkey_led);
        assert(r@ =~= EngineState::initial());
        r
    }

    /// Where a control's value goes.
    fn address(&self, key: &str) -> (r: Option<String>)
        ensures
            opt_text(r) == route(self@.profile.map, key@),
    {
        match self.profile.map.get(key) {
            Some(e) => copy_text(&e.osc),
            None => {
                let mut addr = "/maschine/".to_owned();
                addr.append(key);
                Some(addr)
            },
        }
    }

    fn emit(&self, key: &str, num: u16, den: u16, out: &mut Vec<Action>)
        ensures
            effects(final(out)@) == effects(old(out)@) + self@.emitted(key@, num, den),
    {
        match self.address(key) {
            Some(addr) => ask(out, Action::Emit { addr, num, den }),
            None => (),
        }
        assert(effects(out@) =~= effects(old(out)@) + self@.emitted(key@, num, den));
    }

    /// Take in one event; gives what has to be done.
    pub fn on_event(&mut self, e: Event) -> (r: Vec<Action>)
        requires
            old(self)@.wf(),
            event_ok(e@),
        ensures
            final(self)@.wf(),
            final(self)@ == old(self)@.after_event(e@),
            effects(r@) == old(self)@.event_effects(e@),
    {
        let mut out: Vec<Action> = Vec::new();
        assert(effects(out@) =~= Seq::empty());
        match e {
            Event::Knob(i, raw) => self.on_knob(i, raw, &mut out),
            Event::Pad(raw, p) => {
                let key = banked_key(self.bank, "pad", pad_number(raw) as u64);
                self.emit(key.as_str(), p, PAD_SCALE, &mut out);
            },
            Event::Button(b, down) => self.on_button(b, down, &mut out),
            Event::In(addr, b) => self.on_in(addr.as_str(), b, &mut out),
            Event::Reload => ask(&mut out, Action::Reload),
        }
        assert(effects(out@) =~= old(self)@.event_effects(e@));
        out
    }

    fn on_knob(&mut self, i: usize, raw: u16, out: &mut Vec<Action>)
        requires
            old(self)@.wf(),
            i < 11,
        ensures
            final(self)@.wf(),
            final(self)@ == old(self)@.after_knob(i as int, raw),
            effects(final(out)@) == effects(old(out)@) + old(self)@.knob_effects(i as int, raw),
    {
        if i < 8 {
            let delta: i32 = match self.knobs[i] {
                Some(p) => {
                    let d: i32 = raw as i32 - p as i32;
                    if d > 500 {
                        d - 1000
                    } else if d < -500 {
                        d + 1000
                    } else {
                        d
                    }
                },
                None => 0,
            };
            self.knobs[i] = Some(raw);
            assert(self@ =~= old(self)@.after_knob(i as int, raw));
            let key = banked_key(self.bank, "knob", i as u64 + 1);
            let (scale, wrap) = match self.profile.map.get(key.as_str()) {
                Some(e) => (
                    e.scale,
                    match &e.mode {
                        Some(m) => same_text(m.as_str(), "wrap"),
                        None => false,
                    },
                ),
                None => (None, false),
            };
            let to = self.address(key.as_str());
            ask(out, Action::Turn { bank: self.bank, knob: i, delta, scale, wrap, to });
            assert(effects(out@) =~= effects(old(out)@) + old(self)@.knob_effects(i as int, raw));
        } else {
            let name = if i == 8 {
                "volume"
            } else if i == 9 {
                "tempo"
            } else {
                "swing"
            };
            self.emit(name, raw, KNOB_SCALE, out);
        }
    }

    fn on_button(&mut self, b: Button, down: bool, out: &mut Vec<Action>)
        requires
            old(self)@.wf(),
        ensures
            final(self)@.wf(),
            final(self)@ == old(self)@.after_button(b, down),
            effects(final(out)@) == effects(old(out)@) + old(self)@.button_effects(b, down),
    {
        if b == Button::Shift || b == Button::Control {
            if b == Button::Shift {
                self.shift = down;
            } else {
                self.ctrl = down;
            }
            self.paint_groups(out);
        }
        let value: u16 = if down {
            1
        } else {
            0
        };
        if let Some(g) = group_index(b) {
            if down {
                if self.shift {
                    self.set_bank(g, out);
                } else if self.ctrl {
                    self.set_slot(g as u8, out);
                }
            }
        } else if let Some(n) = softkey_index(b) {
            let key = banked_key(self.bank, "softkey", n as u64 + 1);
            self.emit(key.as_str(), value, 1, out);
        } else {
            let mut key = "button/".to_owned();
            key.append(b.name());
            self.emit(key.as_str(), value, 1, out);
        }
        assert(effects(out@) =~= effects(old(out)@) + old(self)@.button_effects(b, down));
    }

    fn set_bank(&mut self, g: usize, out: &mut Vec<Action>)
        requires
            old(self)@.wf(),
            g < BANKS,
        ensures
            final(self)@.wf(),
            final(self)@ == old(self)@.after_bank(g),
            effects(final(out)@) == effects(old(out)@) + old(self)@.bank_effects(g),
    {
        if self.bank == g {
            assert(effects(out@) =~= effects(old(out)@) + old(self)@.bank_effects(g));
            return ;
        }
        self.bank = g;
        let mut name = String::new();
        name.push(bank_letter(g));
        assert(name@ =~= seq![letter(g as int)]);
        ask(out, Action::Send(osc_msg_s("/maschine/bank", name.as_str())));
        self.paint_groups(out);
        self.paint_bank(out);
        assert(effects(out@) =~= effects(old(out)@) + old(self)@.bank_effects(g));
    }

    /// Paint the pads and softkeys of the active bank.
    fn paint_bank(&self, out: &mut Vec<Action>)
        requires
            self@.wf(),
        ensures
            effects(final(out)@) == effects(old(out)@) + self@.painted_bank(),
    {
        let pads = self.pad_led[self.bank];
        let softkeys = self.softkey_led[self.bank];
        assert(pads@ == self@.pad_led[self.bank as int]);
        assert(softkeys@ == self@.softkey_led[self.bank as int]);
        let ghost whole = self@.painted_bank();
        assert(whole.len() == 24);
        assert(effects(out@) =~= effects(old(out)@) + whole.take(0));
        let mut i: usize = 0;
        while i < 16
            invariant
                i <= 16,
                whole.len() == 24,
                whole == self@.painted_bank(),
                pads@ == self@.pad_led[self.bank as int],
                self.bank == self@.bank,
                effects(out@) == effects(old(out)@) + whole.take(i as int),
            decreases 16 - i,
        {
            ask(out, Action::Led(Led::pad(i), pads[i]));
            assert(whole.take(i + 1) =~= whole.take(i as int).push(whole[i as int]));
            assert(effects(out@) =~= effects(old(out)@) + whole.take(i + 1));
            i += 1;
        }
        let mut j: usize = 0;
        while j < 8
            invariant
                j <= 8,
                whole.len() == 24,
                whole == self@.painted_bank(),
                softkeys@ == self@.softkey_led[self.bank as int],
                self.bank == self@.bank,
                effects(out@) == effects(old(out)@) + whole.take(16 + j),
            decreases 8 - j,
        {
            ask(out, Action::Led(SOFTKEY_LEDS[j], softkeys[j]));
            assert(whole.take(17 + j) =~= whole.take(16 + j).push(whole[16 + j]));
            assert(effects(out@) =~= effects(old(out)@) + whole.take(17 + j));
            j += 1;
        }
        assert(whole.take(24) =~= whole);
    }

    fn set_slot(&self, s: u8, out: &mut Vec<Action>)
        ensures
            effects(final(out)@) == effects(old(out)@) + seq![
                Effect::StoreSlot(active_slot(s)),
                Effect::Reload,
            ],
    {
        ask(out, Action::StoreSlot(set_active(s)));
        ask(out, Action::Reload);
        assert(effects(out@) =~= effects(old(out)@) + seq![
            Effect::StoreSlot(active_slot(s)),
            Effect::Reload,
        ]);
    }

    /// Group LEDs: the active bank, or the active profile while Control alone
    /// is held.
    fn paint_groups(&self, out: &mut Vec<Action>)
        ensures
            effects(final(out)@) == effects(old(out)@) + self@.painted_groups(),
    {
        let lit: usize = if self.ctrl && !self.shift {
            self.slot as usize
        } else {
            self.bank
        };
        let ghost whole = self@.painted_groups();
        assert(effects(out@) =~= effects(old(out)@) + whole.take(0));
        let mut g: usize = 0;
        while g < 8
            invariant
                g <= 8,
                whole == self@.painted_groups(),
                lit == self@.lit(),
                effects(out@) == effects(old(out)@) + whole.take(g as int),
            decreases 8 - g,
        {
            ask(
                out,
                Action::Led(
                    GROUP_LEDS[g],
                    if g == lit {
                        63
                    } else {
                        0
                    },
                ),
            );
            assert(whole.take(g + 1) =~= whole.take(g as int).push(whole[g as int]));
            assert(effects(out@) =~= effects(old(out)@) + whole.take(g + 1));
            g += 1;
        }
        assert(whole.take(8) =~= whole);
    }

    /// Use this profile, loaded from the active slot; gives what has to be
    /// done.
    pub fn reload(&mut self, slot: u8, profile: Profile) -> (r: Vec<Action>)
        requires
            old(self)@.wf(),
        ensures
            final(self)@.wf(),
            final(self)@ == old(self)@.after_reload(slot, profile@),
            effects(r@) == old(self)@.reload_effects(slot, profile@),
    {
        let mut out: Vec<Action> = Vec::new();
        assert(effects(out@) =~= Seq::empty());
        self.slot = slot;
        self.feedback = feedback_of(&profile);
        ask(&mut out, Action::Retarget(copy_text(&profile.target)));
        self.profile = profile;
        assert(self@ =~= old(self)@.after_reload(slot, profile@));
        self.paint_groups(&mut out);
        self.register(&mut out);
        assert(effects(out@) =~= old(self)@.reload_effects(slot, profile@));
        out
    }

    fn register(&self, out: &mut Vec<Action>)
        ensures
            effects(final(out)@) == effects(old(out)@) + self@.registered(),
    {
        match &self.profile.sync {
            Some(addr) => ask(out, Action::Send(osc_msg_i(addr.as_str(), LED_PORT))),
            None => (),
        }
        assert(effects(out@) =~= effects(old(out)@) + self@.registered());
    }

    /// Register for feedback, if the profile asks for it.
    pub fn sync_now(&self) -> (r: Vec<Action>)
        ensures
            effects(r@) == self@.registered(),
    {
        let mut out: Vec<Action> = Vec::new();
        assert(effects(out@) =~= Seq::empty());
        self.register(&mut out);
        assert(effects(out@) =~= self@.registered());
        out
    }

    /// Time passes, this much since the last registration: gives what has to be
    /// done.
    pub fn tick(&self, elapsed_ms: u64) -> (r: Vec<Action>)
        ensures
            effects(r@) == self@.ticked(elapsed_ms),
            effects(r@) == if registration_due(elapsed_ms) {
                self@.registered()
            } else {
                Seq::empty()
            },
    {
        if sync_due(elapsed_ms) {
            return self.sync_now();
        }
        let out: Vec<Action> = Vec::new();
        assert(effects(out@) =~= Seq::empty());
        out
    }

    fn on_in(&mut self, addr: &str, b: u8, out: &mut Vec<Action>)
        requires
            old(self)@.wf(),
        ensures
            final(self)@.wf(),
            final(self)@ == match old(self)@.addressed(addr@) {
                Some(slot) => old(self)@.after_led(slot, b),
                None => old(self)@,
            },
            effects(final(out)@) == effects(old(out)@) + match old(self)@.addressed(addr@) {
                Some(slot) => old(self)@.led_effects(slot, b),
                None => Seq::empty(),
            },
    {
        let found = match strip_prefix(addr, "/maschine/led/") {
            Some(name) => self.led_name_slot(name),
            None => self.feedback_slot(addr),
        };
        match found {
            Some(slot) => self.apply_led(slot, b, out),
            None => {
                assert(effects(out@) =~= effects(old(out)@) + Seq::empty());
            },
        }
    }

    /// The LED that a feedback address drives.
    fn feedback_slot(&self, addr: &str) -> (r: Option<LedSlot>)
        requires
            self@.wf(),
        ensures
            r == driven_led(self@.feedback, addr@),
            r matches Some(slot) ==> slot_ok(slot),
    {
        let ghost table = self@.feedback;
        let mut n: usize = self.feedback.len();
        assert(table.take(n as int) =~= table);
        while n > 0
            invariant
                n <= self.feedback@.len(),
                table == table_of(self.feedback@),
                table.len() == self.feedback@.len(),
                driven_led(table, addr@) == driven_led(table.take(n as int), addr@),
                forall|i: int| 0 <= i < table.len() ==> slot_ok((#[trigger] table[i]).1),
            decreases n,
        {
            let f = &self.feedback[n - 1];
            assert(table[n - 1] == (f.0@, f.1));
            assert(table.take(n as int).last() == table[n - 1]);
            assert(table.take(n as int).drop_last() =~= table.take(n - 1));
            if same_text(f.0.as_str(), addr) {
                return Some(f.1);
            }
            n -= 1;
        }
        None
    }

    /// The LED that a name below `/maschine/led/` means.
    fn led_name_slot(&self, name: &str) -> (r: Option<LedSlot>)
        requires
            self@.wf(),
        ensures
            r == self@.led_of_name(name@),
            r matches Some(slot) ==> slot_ok(slot),
    {
        let banked = led_slot(name);
        if banked.is_some() {
            return banked;
        }
        if same_text(name, "backlight") {
            return Some(LedSlot::Button(Led::Backlight));
        }
        if let Some(n) = strip_prefix(name, "pad/") {
            return match read_number(n, 16) {
                Some(i) => Some(LedSlot::Pad(self.bank, i)),
                None => None,
            };
        }
        match button_by_name(name) {
            Some(b) => {
                if group_index(b).is_some() {
                    return None;
                }
                match softkey_index(b) {
                    Some(i) => Some(LedSlot::Softkey(self.bank, i)),
                    None => match Led::for_button(b) {
                        Some(led) => Some(LedSlot::Button(led)),
                        None => None,
                    },
                }
            },
            None => None,
        }
    }

    fn apply_led(&mut self, slot: LedSlot, b: u8, out: &mut Vec<Action>)
        requires
            old(self)@.wf(),
            slot_ok(slot),
        ensures
            final(self)@.wf(),
            final(self)@ == old(self)@.after_led(slot, b),
            effects(final(out)@) == effects(old(out)@) + old(self)@.led_effects(slot, b),
    {
        match slot {
            LedSlot::Pad(bank, i) => {
                let mut row = self.pad_led[bank];
                row[i] = b;
                self.pad_led[bank] = row;
                assert(self@.pad_led =~= old(self)@.after_led(slot, b).pad_led);
                if bank == self.bank {
                    ask(out, Action::Led(Led::pad(i), b));
                }
            },
            LedSlot::Softkey(bank, i) => {
                let mut row = self.softkey_led[bank];
                row[i] = b;
                self.softkey_led[bank] = row;
                assert(self@.softkey_led =~= old(self)@.after_led(slot, b).softkey_led);
                if bank == self.bank {
                    ask(out, Action::Led(SOFTKEY_LEDS[i], b));
                }
            },
            LedSlot::Button(led) => ask(out, Action::Led(led, b)),
        }
        assert(self@ =~= old(self)@.after_led(slot, b));
        assert(effects(out@) =~= effects(old(out)@) + old(self)@.led_effects(slot, b));
    }
}

/// The feedback table of a profile.
fn feedback_of(profile: &Profile) -> (r: Vec<(String, LedSlot)>)
    ensures
        table_of(r@) == feedback_table(profile@.map),
        forall|i: int| 0 <= i < r@.len() ==> slot_ok((#[trigger] r@[i]).1),
{
    let mut out: Vec<(String, LedSlot)> = Vec::new();
    let ghost map = profile@.map;
    assert(table_of(out@) =~= Seq::empty());
    assert(map.take(0) =~= Seq::empty());
    let mut i: usize = 0;
    while i < profile.map.len()
        invariant
            i <= map.len(),
            map == profile.map@,
            table_of(out@) == feedback_table(map.take(i as int)),
            forall|k: int| 0 <= k < out@.len() ==> slot_ok((#[trigger] out@[k]).1),
        decreases map.len() - i,
    {
        let (key, entry) = profile.map.at(i);
        assert(map.take(i + 1).last() == map[i as int]);
        assert(map.take(i + 1).drop_last() =~= map.take(i as int));
        let ghost before = out@;
        if let Some(addr) = &entry.led_source {
            if let Some(slot) = led_slot(key) {
                out.push((addr.clone(), slot));
                assert(table_of(out@) =~= table_of(before).push((addr@, slot)));
            }
        }
        i += 1;
    }
    assert(map.take(map.len() as int) =~= map);
    out
}

} // verus!
