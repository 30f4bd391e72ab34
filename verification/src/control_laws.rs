//! What holds of the engine's controls and LEDs: what each of them sends, what
//! is remembered, and what is left alone.

use vstd::prelude::*;

use crate::controls::{
    control_key, group_bank, law_keys_name_their_leds, law_tables_match_buttons, led_of_key,
    softkey_place, LedSlot, GROUP_LEDS, SOFTKEY_LEDS,
};
use crate::engine::{
    driven_led, event_ok, feedback_table, registration_due, Effect, EngineState, EventView,
};
use crate::engine_laws::{law_messages_leave_painted_leds, law_unbanked_names_mean_active_bank};
use crate::input::{button_name, law_button_is_named, printed_pad, Button};
use crate::input_laws::law_button_names_are_plain;
use crate::leds::{button_led, pad_led, Led};
use crate::osc::osc_int;
use crate::profile::{entry_at, EntryView, ProfileView};
use crate::text::{decimal, is_digit, law_prefix_is_stripped, lemma_decimal_digits, starts_with};

verus! {

/// Whether exactly this is sent for a control: `num / den`, to the address in
/// its entry, to `/maschine/<key>` without an entry, nothing if its entry has no
/// address.
pub open spec fn sends(
    effects: Seq<Effect>,
    map: Seq<(Seq<char>, EntryView)>,
    key: Seq<char>,
    num: u16,
    den: u16,
) -> bool {
    match entry_at(map, key) {
        Some(e) => match e.osc {
            Some(addr) => effects == seq![Effect::Emit { addr, num, den }],
            None => effects.len() == 0,
        },
        None => effects == seq![Effect::Emit { addr: "/maschine/"@ + key, num, den }],
    }
}

/// The key of a banked control, spelled out: bank letter, kind, number.
pub open spec fn spelled(bank: int, kind: Seq<char>, number: nat) -> Seq<char> {
    seq![(97 + bank) as char] + seq!['/'] + kind + seq!['/'] + decimal(number)
}

/// A turn of one of the eight banked knobs asks for one thing: that the virtual
/// position of this knob in the active bank moves. Whatever its entry's mode,
/// it moves by exactly the entry's scale, by none without an entry; it wraps
/// exactly in mode `wrap`; and it goes where the entry says, to the generated
/// address without an entry, nowhere if the entry has no address.
pub proof fn law_turn_follows_the_entry(s: EngineState, i: usize, raw: u16)
    requires
        s.wf(),
        i < 8,
    ensures
        ({
            let key = spelled(s.bank as int, "knob"@, (i + 1) as nat);
            let effects = s.event_effects(EventView::Knob(i, raw));
            &&& effects.len() == 1
            &&& effects[0] matches Effect::Turn { bank, knob, delta, scale, wrap, to } && {
                &&& bank == s.bank && knob == i
                &&& match entry_at(s.profile.map, key) {
                    Some(e) => scale == e.scale && to == e.osc && (wrap <==> e.mode == Some(
                        "wrap"@,
                    )),
                    None => scale is None && to == Some("/maschine/"@ + key) && !wrap,
                }
            }
        }),
{
    let key = spelled(s.bank as int, "knob"@, (i + 1) as nat);
    assert(key =~= control_key(s.bank as int, "knob"@, (i + 1) as nat));
}

/// The delta of a turn, if the effects are one.
pub open spec fn turned_by(effects: Seq<Effect>) -> int {
    match effects[0] {
        Effect::Turn { bank, knob, delta, scale, wrap, to } => delta,
        _ => 0,
    }
}

/// The turn between two readings of a knob is how far it went from the one to
/// the other, the shortest way round, whatever else happened in between: other
/// knobs, pads, buttons, a bank switch, or messages.
pub proof fn law_turn_is_the_way_between_readings(
    s: EngineState,
    i: usize,
    first: u16,
    between: EventView,
    second: u16,
)
    requires
        s.wf(),
        i < 8,
        first < 1000,
        second < 1000,
        !(between matches EventView::Knob(k, _) && k == i),
    ensures
        ({
            let later = s.after_event(EventView::Knob(i, first)).after_event(between);
            let delta = turned_by(later.event_effects(EventView::Knob(i, second)));
            &&& -500 <= delta <= 500
            &&& (first + delta) % 1000 == second as int
            &&& second - first <= 500 && first - second <= 500 ==> delta == second - first
        }),
{
}

/// The first reading of a knob is no turn, in whatever state, and the engine
/// starts with none read.
pub proof fn law_first_reading_is_no_turn(s: EngineState, i: usize, raw: u16)
    requires
        i < 8,
        s.knobs[i as int] is None,
    ensures
        turned_by(s.event_effects(EventView::Knob(i, raw))) == 0,
        EngineState::initial().knobs[i as int] is None,
{
}

/// Volume, tempo and swing are the same in every bank and send where they are,
/// as a share of 999.
pub proof fn law_global_knobs_send_their_position(s: EngineState, raw: u16)
    ensures
        sends(s.event_effects(EventView::Knob(8, raw)), s.profile.map, "volume"@, raw, 999),
        sends(s.event_effects(EventView::Knob(9, raw)), s.profile.map, "tempo"@, raw, 999),
        sends(s.event_effects(EventView::Knob(10, raw)), s.profile.map, "swing"@, raw, 999),
        s.after_event(EventView::Knob(8, raw)) == s,
        s.after_event(EventView::Knob(9, raw)) == s,
        s.after_event(EventView::Knob(10, raw)) == s,
{
}

/// A pad sends its pressure, as a share of 4095, under the number printed next
/// to it in the active bank, whatever the pressure: also none.
pub proof fn law_pad_sends_its_pressure(s: EngineState, raw: u8, pressure: u16)
    ensures
        sends(
            s.event_effects(EventView::Pad(raw, pressure)),
            s.profile.map,
            spelled(s.bank as int, "pad"@, printed_pad(raw as int) as nat),
            pressure,
            4095,
        ),
        s.after_event(EventView::Pad(raw, pressure)) == s,
{
    assert(spelled(s.bank as int, "pad"@, printed_pad(raw as int) as nat) =~= control_key(
        s.bank as int,
        "pad"@,
        printed_pad(raw as int) as nat,
    ));
}

/// A softkey sends 1 when it goes down and 0 when it comes up, under its place
/// in the active bank.
pub proof fn law_softkey_sends_press_and_release(s: EngineState, b: Button, n: usize)
    requires
        softkey_place(b) == Some(n),
    ensures
        ({
            let key = spelled(s.bank as int, "softkey"@, (n + 1) as nat);
            &&& sends(s.event_effects(EventView::Button(b, true)), s.profile.map, key, 1, 1)
            &&& sends(s.event_effects(EventView::Button(b, false)), s.profile.map, key, 0, 1)
            &&& s.after_event(EventView::Button(b, true)) == s
            &&& s.after_event(EventView::Button(b, false)) == s
        }),
{
    assert(spelled(s.bank as int, "softkey"@, (n + 1) as nat) =~= control_key(
        s.bank as int,
        "softkey"@,
        (n + 1) as nat,
    ));
}

/// Every other button that is no group sends 1 when it goes down and 0 when it
/// comes up, under its name. The two modifiers also repaint the eight groups,
/// before that.
pub proof fn law_button_sends_press_and_release(s: EngineState, b: Button, down: bool)
    requires
        group_bank(b) is None,
        softkey_place(b) is None,
    ensures
        ({
            let effects = s.event_effects(EventView::Button(b, down));
            let key = "button/"@ + button_name(b);
            let value: u16 = if down {
                1
            } else {
                0
            };
            if b == Button::Shift || b == Button::Control {
                &&& sends(effects.skip(8), s.profile.map, key, value, 1)
                &&& effects.len() >= 8
                &&& forall|g: int| 0 <= g < 8 ==> (#[trigger] effects[g]) is Led
            } else {
                &&& sends(effects, s.profile.map, key, value, 1)
                &&& s.after_event(EventView::Button(b, down)) == s
            }
        }),
{
    let effects = s.event_effects(EventView::Button(b, down));
    if b == Button::Shift || b == Button::Control {
        let after = s.after_button(b, down);
        let sent = after.emitted(
            "button/"@ + button_name(b),
            if down {
                1
            } else {
                0
            },
            1,
        );
        assert(effects.skip(8) =~= sent);
        assert(forall|g: int| 0 <= g < 8 ==> effects[g] == #[trigger] after.painted_groups()[g]);
    }
}

/// A modifier is held from its press to its release, and by nothing else.
pub proof fn law_modifiers_follow_their_buttons(s: EngineState, e: EventView)
    ensures
        s.after_event(e).shift == match e {
            EventView::Button(b, down) => if b == Button::Shift {
                down
            } else {
                s.shift
            },
            _ => s.shift,
        },
        s.after_event(e).ctrl == match e {
            EventView::Button(b, down) => if b == Button::Control {
                down
            } else {
                s.ctrl
            },
            _ => s.ctrl,
        },
{
}

/// The bank changes only with a group pressed under Shift, and then to that
/// group's. Events never change the profile; only loading one does.
pub proof fn law_only_shifted_groups_change_the_bank(s: EngineState, e: EventView)
    ensures
        s.after_event(e).bank == match e {
            EventView::Button(b, down) => match group_bank(b) {
                Some(g) => if down && s.shift {
                    g
                } else {
                    s.bank
                },
                None => s.bank,
            },
            _ => s.bank,
        },
        s.after_event(e).profile == s.profile,
        s.after_event(e).slot == s.slot,
        s.after_event(e).feedback == s.feedback,
{
}

/// What is remembered of a knob is its last reading, and a bank switch does not
/// change that.
pub proof fn law_knob_memory_is_the_last_reading(s: EngineState, e: EventView, i: int)
    requires
        s.wf(),
        event_ok(e),
        0 <= i < 8,
    ensures
        s.after_event(e).wf(),
        s.after_event(e).knobs[i] == match e {
            EventView::Knob(k, raw) => if k == i {
                Some(raw)
            } else {
                s.knobs[i]
            },
            _ => s.knobs[i],
        },
{
    if let EventView::In(addr, _) = e {
        law_messages_leave_painted_leds(s, addr);
    }
}

/// LED memory changes only by messages that address it, one LED at a time and
/// to the brightness sent: no control, no bank switch and no other message
/// makes the engine forget what a host wrote.
pub proof fn law_led_memory_is_what_was_written(
    s: EngineState,
    e: EventView,
    bank: int,
    i: int,
)
    requires
        s.wf(),
        event_ok(e),
        0 <= bank < 8,
    ensures
        0 <= i < 16 ==> s.after_event(e).pad_led[bank][i] == match e {
            EventView::In(addr, b) => if s.addressed(addr) == Some(
                LedSlot::Pad(bank as usize, i as usize),
            ) {
                b
            } else {
                s.pad_led[bank][i]
            },
            _ => s.pad_led[bank][i],
        },
        0 <= i < 8 ==> s.after_event(e).softkey_led[bank][i] == match e {
            EventView::In(addr, b) => if s.addressed(addr) == Some(
                LedSlot::Softkey(bank as usize, i as usize),
            ) {
                b
            } else {
                s.softkey_led[bank][i]
            },
            _ => s.softkey_led[bank][i],
        },
{
    if let EventView::In(addr, _) = e {
        law_messages_leave_painted_leds(s, addr);
    }
}

proof fn lemma_led_address(s: EngineState, name: Seq<char>)
    ensures
        s.addressed("/maschine/led/"@ + name) == s.led_of_name(name),
{
    let p = "/maschine/led/"@;
    let addr = p + name;
    assert(addr.take(p.len() as int) =~= p);
    assert(addr.skip(p.len() as int) =~= name);
}

/// A message to a banked pad's LED is remembered for its bank, and shown at
/// once exactly if that bank is active.
pub proof fn law_pad_led_message(s: EngineState, bank: int, index: nat, b: u8)
    requires
        s.wf(),
        0 <= bank < 8,
        index < 16,
    ensures
        ({
            let e = EventView::In("/maschine/led/"@ + spelled(bank, "pad"@, index + 1), b);
            &&& s.after_event(e).pad_led[bank][index as int] == b
            &&& s.event_effects(e) == if bank == s.bank {
                seq![Effect::Led(pad_led(index as int + 1), b)]
            } else {
                Seq::empty()
            }
        }),
{
    let k = spelled(bank, "pad"@, index + 1);
    assert(k =~= control_key(bank, "pad"@, index + 1));
    law_keys_name_their_leds(bank, index, Button::Mute);
    lemma_led_address(s, k);
    assert(s.addressed("/maschine/led/"@ + k) == Some(LedSlot::Pad(bank as usize, index as usize)));
}

/// A message to a banked softkey's LED is remembered for its bank, and shown at
/// once exactly if that bank is active.
pub proof fn law_softkey_led_message(s: EngineState, bank: int, index: nat, b: u8)
    requires
        s.wf(),
        0 <= bank < 8,
        index < 8,
    ensures
        ({
            let e = EventView::In("/maschine/led/"@ + spelled(bank, "softkey"@, index + 1), b);
            &&& s.after_event(e).softkey_led[bank][index as int] == b
            &&& s.event_effects(e) == if bank == s.bank {
                seq![Effect::Led(SOFTKEY_LEDS@[index as int], b)]
            } else {
                Seq::empty()
            }
        }),
{
    let k = spelled(bank, "softkey"@, index + 1);
    assert(k =~= control_key(bank, "softkey"@, index + 1));
    law_keys_name_their_leds(bank, index, Button::Mute);
    lemma_led_address(s, k);
    assert(s.addressed("/maschine/led/"@ + k) == Some(
        LedSlot::Softkey(bank as usize, index as usize),
    ));
}

/// A message to a pad's unbanked name is for the active bank: it is remembered
/// there and shown.
pub proof fn law_unbanked_pad_led_message(s: EngineState, index: nat, b: u8)
    requires
        s.wf(),
        index < 16,
    ensures
        ({
            let e = EventView::In("/maschine/led/"@ + ("pad/"@ + decimal(index + 1)), b);
            &&& s.after_event(e).pad_led[s.bank as int][index as int] == b
            &&& s.event_effects(e) == seq![Effect::Led(pad_led(index as int + 1), b)]
        }),
{
    let name = "pad/"@ + decimal(index + 1);
    lemma_led_address(s, name);
    law_unbanked_names_mean_active_bank(s, index + 1, Button::Mute);
    law_keys_name_their_leds(s.bank as int, index, Button::Mute);
    assert(s.addressed("/maschine/led/"@ + name) == Some(LedSlot::Pad(s.bank, index as usize)));
}

/// A message to a softkey's unbanked name is for the active bank: it is
/// remembered there and shown.
pub proof fn law_unbanked_softkey_led_message(s: EngineState, key: Button, i: usize, b: u8)
    requires
        s.wf(),
        softkey_place(key) == Some(i),
    ensures
        ({
            let e = EventView::In("/maschine/led/"@ + button_name(key), b);
            &&& s.after_event(e).softkey_led[s.bank as int][i as int] == b
            &&& s.event_effects(e) == seq![Effect::Led(button_led(key), b)]
        }),
{
    lemma_led_address(s, button_name(key));
    law_unbanked_names_mean_active_bank(s, 1, key);
    law_keys_name_their_leds(s.bank as int, i as nat, key);
    law_tables_match_buttons(key);
    assert(s.addressed("/maschine/led/"@ + button_name(key)) == Some(LedSlot::Softkey(s.bank, i)));
}

/// A message to a button's LED, or to the backlight, sets that LED to the
/// brightness sent and nothing else. Group LEDs are the device's: a message to
/// one does nothing.
pub proof fn law_button_led_message(s: EngineState, key: Button, b: u8)
    requires
        softkey_place(key) is None,
    ensures
        ({
            let e = EventView::In("/maschine/led/"@ + button_name(key), b);
            &&& s.after_event(e) == s
            &&& s.event_effects(e) == if group_bank(key) is Some {
                Seq::empty()
            } else {
                seq![Effect::Led(button_led(key), b)]
            }
        }),
        ({
            let e = EventView::In("/maschine/led/backlight"@, b);
            &&& s.after_event(e) == s
            &&& s.event_effects(e) == seq![Effect::Led(Led::Backlight, b)]
        }),
{
    reveal_strlit("button/");
    reveal_strlit("pad/");
    let name = button_name(key);
    lemma_led_address(s, name);
    law_button_names_are_plain(key);
    law_button_is_named(key);
    if starts_with(name, "button/"@) {
        assert(name.take(7)[6] == name[6]);
    }
    if starts_with(name, "pad/"@) {
        assert(name.take(4)[3] == name[3]);
    }
    assert(led_of_key(name) is None);
    reveal_strlit("backlight");
    reveal_strlit("/maschine/led/");
    reveal_strlit("/maschine/led/backlight");
    assert("/maschine/led/backlight"@ =~= "/maschine/led/"@ + "backlight"@);
    lemma_led_address(s, "backlight"@);
    assert("backlight"@.take(7)[1] == 'a');
    assert(led_of_key("backlight"@) is None);
}

/// Feedback to an address outside `/maschine/led/` sets the LED of a control
/// that names it as its source, and one that no control names does nothing.
pub proof fn law_feedback_message(s: EngineState, addr: Seq<char>, b: u8)
    requires
        s.wf(),
        !starts_with(addr, "/maschine/led/"@),
    ensures
        ({
            let e = EventView::In(addr, b);
            match driven_led(feedback_table(s.profile.map), addr) {
                Some(LedSlot::Button(led)) => s.event_effects(e) == seq![Effect::Led(led, b)]
                    && s.after_event(e) == s,
                Some(LedSlot::Pad(bank, i)) => s.after_event(e).pad_led[bank as int][i as int] == b
                    && s.event_effects(e) == if bank == s.bank {
                    seq![Effect::Led(pad_led(i + 1), b)]
                } else {
                    Seq::empty()
                },
                Some(LedSlot::Softkey(bank, i)) => s.after_event(
                    e,
                ).softkey_led[bank as int][i as int] == b && s.event_effects(e) == if bank
                    == s.bank {
                    seq![Effect::Led(SOFTKEY_LEDS@[i as int], b)]
                } else {
                    Seq::empty()
                },
                None => s.event_effects(e).len() == 0 && s.after_event(e) == s,
            }
        }),
{
    law_messages_leave_painted_leds(s, addr);
}

/// A key that no pad or softkey has names no LED: no such number, no such bank,
/// or a knob.
pub proof fn law_other_keys_name_no_led(bank: int, n: nat)
    requires
        0 <= bank < 26,
    ensures
        bank >= 8 || n == 0 || n > 16 ==> led_of_key(spelled(bank, "pad"@, n)) is None,
        bank >= 8 || n == 0 || n > 8 ==> led_of_key(spelled(bank, "softkey"@, n)) is None,
        led_of_key(spelled(bank, "knob"@, n)) is None,
{
    reveal_strlit("button/");
    reveal_strlit("pad/");
    reveal_strlit("softkey/");
    reveal_strlit("pad");
    reveal_strlit("softkey");
    reveal_strlit("knob");
    lemma_decimal_digits(n);
    assert(is_digit(decimal(n)[0]));
    let p = spelled(bank, "pad"@, n);
    let k = spelled(bank, "softkey"@, n);
    let t = spelled(bank, "knob"@, n);
    assert(p[1] == '/' && k[1] == '/' && t[1] == '/');
    if starts_with(p, "button/"@) {
        assert(p.take(7)[1] == p[1]);
    }
    if starts_with(k, "button/"@) {
        assert(k.take(7)[1] == k[1]);
    }
    if starts_with(t, "button/"@) {
        assert(t.take(7)[1] == t[1]);
    }
    assert(p.skip(2).take(4) =~= "pad/"@);
    assert(p.skip(2).skip(4) =~= decimal(n));
    assert(k.skip(2).take(4)[0] == 's');
    assert(k.skip(2).take(8) =~= "softkey/"@);
    assert(k.skip(2).skip(8) =~= decimal(n));
    assert(t.skip(2)[0] == 'k');
    if starts_with(t.skip(2), "pad/"@) {
        assert(t.skip(2).take(4)[0] == t.skip(2)[0]);
    }
    if starts_with(t.skip(2), "softkey/"@) {
        assert(t.skip(2).take(8)[0] == t.skip(2)[0]);
    }
}

/// The groups show one light: the active profile's while Control is held and
/// Shift is not, else the active bank's.
pub proof fn law_groups_show_bank_or_profile(s: EngineState, g: int)
    requires
        0 <= g < 8,
    ensures
        s.painted_groups().len() == 8,
        s.painted_groups()[g] == Effect::Led(
            GROUP_LEDS@[g],
            if g == (if s.ctrl && !s.shift {
                s.slot as int
            } else {
                s.bank as int
            }) {
                63
            } else {
                0
            },
        ),
{
}

/// Loading a profile takes it as it is, first sends to its target and last
/// registers for feedback. Bank, modifiers, knobs and LED memory stay.
pub proof fn law_reload_takes_the_profile(s: EngineState, slot: u8, profile: ProfileView)
    ensures
        ({
            let after = s.after_reload(slot, profile);
            let effects = s.reload_effects(slot, profile);
            &&& after.slot == slot && after.profile == profile
            &&& after.bank == s.bank && after.shift == s.shift && after.ctrl == s.ctrl
            &&& after.knobs == s.knobs
            &&& after.pad_led == s.pad_led && after.softkey_led == s.softkey_led
            &&& effects[0] == Effect::Retarget(profile.target)
            &&& effects.len() == if profile.sync is Some {
                10int
            } else {
                9
            }
            &&& profile.sync matches Some(addr) ==> effects[9] == Effect::Send(
                osc_int(addr, 9001),
            )
        }),
{
}

/// A profile with a registration address is registered, with the LED port, each
/// time that five seconds have passed, and not before; one without never is.
pub proof fn law_registration_every_five_seconds(s: EngineState, elapsed_ms: u64)
    ensures
        registration_due(elapsed_ms) <==> elapsed_ms as int / 1000 >= 5,
        s.ticked(elapsed_ms) == if elapsed_ms >= 5000 {
            s.registered()
        } else {
            Seq::empty()
        },
        match s.profile.sync {
            Some(addr) => s.registered() == seq![Effect::Send(osc_int(addr, 9001))],
            None => s.registered().len() == 0,
        },
{
}

/// A change of the stored profiles asks for nothing but to load the active one.
pub proof fn law_reload_event_asks_to_load(s: EngineState)
    ensures
        s.event_effects(EventView::Reload) == seq![Effect::Reload],
        s.after_event(EventView::Reload) == s,
{
}

/// The engine starts in bank a with an empty profile, no modifier held, no knob
/// read and no LED written.
pub proof fn law_engine_starts_afresh(bank: int, i: int)
    requires
        0 <= bank < 8,
        0 <= i < 8,
    ensures
        ({
            let s = EngineState::initial();
            &&& s.wf()
            &&& s.bank == 0 && s.slot == 0 && !s.shift && !s.ctrl
            &&& s.profile.map.len() == 0 && s.profile.sync is None && s.profile.target is None
            &&& s.knobs[i] is None
            &&& s.softkey_led[bank][i] == 0 && s.pad_led[bank][2 * i] == 0 && s.pad_led[bank][2 * i
                + 1] == 0
        }),
{
}

/// A name that no control has sets no LED.
pub proof fn law_unknown_names_set_no_led(s: EngineState, name: Seq<char>, b: u8)
    requires
        forall|key: Button| #[trigger] button_name(key) != name,
        name != "backlight"@,
        !starts_with(name, "pad/"@),
        !starts_with(name, "button/"@),
        name.len() < 2 || name[1] != '/',
    ensures
        s.event_effects(EventView::In("/maschine/led/"@ + name, b)).len() == 0,
        s.after_event(EventView::In("/maschine/led/"@ + name, b)) == s,
        led_of_key("button/"@ + name) is None,
{
    lemma_led_address(s, name);
    law_prefix_is_stripped("button/"@, name, name);
}

} // verus!
