//! What holds of the OSC engine as a whole.

use vstd::prelude::*;

use crate::controls::{
    control_key, group_bank, law_keys_name_their_leds, law_tables_match_buttons, led_of_key,
    letter, slot_ok, softkey_place, LedSlot, BANKS, GROUP_LEDS, SOFTKEY_LEDS,
};
use crate::engine::{
    driven_led, event_ok, feedback_table, knob_delta, Effect, EngineState, EventView,
};
use crate::input::{button_name, law_button_is_named, named_button, Button};
use crate::leds::{button_led, law_pad_rows_reversed, led_position, pad_led, Led};
use crate::osc::osc_string;
use crate::profile::{entry_at, EntryView, ProfileView};
use crate::text::{after_prefix, decimal, law_decimal_reads_back};

verus! {

/// What the LEDs show after effects, from what they showed before, as far as
/// the engine sets them.
pub open spec fn shown_after(shown: spec_fn(Led) -> u8, effects: Seq<Effect>) -> spec_fn(Led) -> u8
    decreases effects.len(),
{
    if effects.len() == 0 {
        shown
    } else {
        let before = shown_after(shown, effects.drop_last());
        match effects.last() {
            Effect::Led(led, b) => |x: Led|
                if x == led {
                    b
                } else {
                    before(x)
                },
            _ => before,
        }
    }
}

/// The LEDs show the engine's state: pads and softkeys those of the active
/// bank, groups the active bank or profile.
pub open spec fn leds_in_step(shown: spec_fn(Led) -> u8, s: EngineState) -> bool {
    &&& forall|n: int| 1 <= n <= 16 ==> shown(#[trigger] pad_led(n)) == s.pad_led[s.bank as int][n - 1]
    &&& forall|i: int|
        0 <= i < 8 ==> shown(#[trigger] SOFTKEY_LEDS@[i]) == s.softkey_led[s.bank as int][i]
    &&& groups_in_step(shown, s)
}

pub open spec fn groups_in_step(shown: spec_fn(Led) -> u8, s: EngineState) -> bool {
    forall|g: int|
        0 <= g < 8 ==> shown(#[trigger] GROUP_LEDS@[g]) == if g == s.lit() {
            63u8
        } else {
            0u8
        }
}

/// Whether an effect sets `led`.
pub open spec fn sets(e: Effect, led: Led) -> bool {
    e matches Effect::Led(l, _) && l == led
}

proof fn lemma_untouched(shown: spec_fn(Led) -> u8, effects: Seq<Effect>, led: Led)
    requires
        forall|j: int| 0 <= j < effects.len() ==> !sets(#[trigger] effects[j], led),
    ensures
        shown_after(shown, effects)(led) == shown(led),
    decreases effects.len(),
{
    if effects.len() > 0 {
        assert forall|j: int| 0 <= j < effects.drop_last().len() implies !sets(
            #[trigger] effects.drop_last()[j],
            led,
        ) by {
            assert(!sets(effects[j], led));
        }
        lemma_untouched(shown, effects.drop_last(), led);
        assert(!sets(effects[effects.len() - 1], led));
    }
}

/// The last effect on an LED decides.
proof fn lemma_last_decides(shown: spec_fn(Led) -> u8, effects: Seq<Effect>, i: int, led: Led, b: u8)
    requires
        0 <= i < effects.len(),
        effects[i] == Effect::Led(led, b),
        forall|j: int| i < j < effects.len() ==> !sets(#[trigger] effects[j], led),
    ensures
        shown_after(shown, effects)(led) == b,
    decreases effects.len(),
{
    if i < effects.len() - 1 {
        let rest = effects.drop_last();
        assert forall|j: int| i < j < rest.len() implies !sets(#[trigger] rest[j], led) by {
            assert(!sets(effects[j], led));
        }
        lemma_last_decides(shown, rest, i, led, b);
        assert(!sets(effects[effects.len() - 1], led));
    }
}

/// Where the LEDs that the engine paints are.
proof fn lemma_painted_positions()
    ensures
        forall|n: int|
            1 <= n <= 16 ==> led_position(#[trigger] pad_led(n)) == 4 * ((n - 1) / 4) + 3 - (n - 1)
                % 4,
        forall|i: int| 0 <= i < 8 ==> led_position(#[trigger] SOFTKEY_LEDS@[i]) == 57 - i,
        forall|g: int|
            0 <= g < 8 ==> 34 <= led_position(#[trigger] GROUP_LEDS@[g]) <= 41,
        forall|g: int, h: int|
            0 <= g < h < 8 ==> #[trigger] GROUP_LEDS@[g] != #[trigger] GROUP_LEDS@[h],
{
    assert forall|n: int| 1 <= n <= 16 implies led_position(#[trigger] pad_led(n)) == 4 * ((n - 1)
        / 4) + 3 - (n - 1) % 4 by {
        law_pad_rows_reversed(n);
    }
}

/// An LED that a button's message may set: none that the engine paints.
pub open spec fn free_led(led: Led) -> bool {
    let p = led_position(led);
    16 <= p < 34 || 41 < p < 50 || 57 < p
}

proof fn lemma_button_leds_free(b: Button)
    requires
        group_bank(b) is None,
        softkey_place(b) is None,
    ensures
        free_led(button_led(b)),
{
}

proof fn lemma_driven_led(map: Seq<(Seq<char>, EntryView)>, addr: Seq<char>)
    ensures
        driven_led(feedback_table(map), addr) matches Some(slot) ==> exists|i: int|
            0 <= i < map.len() && (#[trigger] map[i]).1.led_source == Some(addr) && led_of_key(
                map[i].0,
            ) == Some(slot),
        (exists|i: int|
            0 <= i < map.len() && (#[trigger] map[i]).1.led_source == Some(addr) && led_of_key(
                map[i].0,
            ) is Some) ==> driven_led(feedback_table(map), addr) is Some,
    decreases map.len(),
{
    if map.len() > 0 {
        let rest = map.drop_last();
        lemma_driven_led(rest, addr);
        let t = feedback_table(map);
        let (key, entry) = map.last();
        let last = map.len() - 1;
        assert(map[last] == (key, entry));
        if entry.led_source is Some && led_of_key(key) is Some {
            assert(t.drop_last() =~= feedback_table(rest));
        }
        if let Some(slot) = driven_led(feedback_table(rest), addr) {
            let i = choose|i: int|
                0 <= i < rest.len() && (#[trigger] rest[i]).1.led_source == Some(addr)
                    && led_of_key(rest[i].0) == Some(slot);
            assert(map[i] == rest[i]);
        }
        if exists|i: int|
            0 <= i < map.len() && (#[trigger] map[i]).1.led_source == Some(addr) && led_of_key(
                map[i].0,
            ) is Some {
            let i = choose|i: int|
                0 <= i < map.len() && (#[trigger] map[i]).1.led_source == Some(addr) && led_of_key(
                    map[i].0,
                ) is Some;
            if i < last {
                assert(rest[i] == map[i]);
            }
        }
    }
}

/// A profile's feedback reaches the LEDs: an address that some control with an
/// LED names as its `led_source` drives the LED of such a control, and no
/// other address drives any.
pub proof fn law_feedback_drives_its_led(map: Seq<(Seq<char>, EntryView)>, addr: Seq<char>)
    ensures
        driven_led(feedback_table(map), addr) is Some <==> exists|i: int|
            0 <= i < map.len() && (#[trigger] map[i]).1.led_source == Some(addr) && led_of_key(
                map[i].0,
            ) is Some,
        driven_led(feedback_table(map), addr) matches Some(slot) ==> exists|i: int|
            0 <= i < map.len() && (#[trigger] map[i]).1.led_source == Some(addr) && led_of_key(
                map[i].0,
            ) == Some(slot),
{
    lemma_driven_led(map, addr);
    if let Some(slot) = driven_led(feedback_table(map), addr) {
        let i = choose|i: int|
            0 <= i < map.len() && (#[trigger] map[i]).1.led_source == Some(addr) && led_of_key(
                map[i].0,
            ) == Some(slot);
        assert(map[i].1.led_source == Some(addr) && led_of_key(map[i].0) is Some);
    }
}

/// Group LEDs are device-owned: no message sets a group LED, whatever its
/// address, and pads and softkeys are only reached as banked slots.
pub proof fn law_messages_leave_painted_leds(s: EngineState, addr: Seq<char>)
    requires
        s.wf(),
    ensures
        s.addressed(addr) matches Some(LedSlot::Button(led)) ==> free_led(led),
        s.addressed(addr) matches Some(slot) ==> slot_ok(slot),
{
    lemma_driven_led(s.profile.map, addr);
    assert forall|key: Seq<char>| true implies (#[trigger] led_of_key(key) matches Some(
        LedSlot::Button(led),
    ) ==> free_led(led)) && (led_of_key(key) matches Some(slot) ==> slot_ok(slot)) by {
        if let Some(name) = after_prefix(key, "button/"@) {
            if let Some(b) = named_button(name) {
                if group_bank(b) is None && softkey_place(b) is None {
                    lemma_button_leds_free(b);
                }
            }
        }
    }
    if let Some(name) = after_prefix(addr, "/maschine/led/"@) {
        if let Some(b) = named_button(name) {
            if group_bank(b) is None && softkey_place(b) is None {
                lemma_button_leds_free(b);
            }
            law_tables_match_buttons(b);
        }
    }
}

/// Painting the groups shows the active bank or profile and leaves the rest.
proof fn lemma_groups_painted(shown: spec_fn(Led) -> u8, s: EngineState, tail: Seq<Effect>)
    requires
        forall|j: int, g: int|
            0 <= j < tail.len() && 0 <= g < 8 ==> !sets(#[trigger] tail[j], #[trigger] GROUP_LEDS@[g]),
    ensures
        groups_in_step(shown_after(shown, s.painted_groups() + tail), s),
{
    lemma_painted_positions();
    let all = s.painted_groups() + tail;
    assert forall|g: int| 0 <= g < 8 implies shown_after(shown, all)(#[trigger] GROUP_LEDS@[g])
        == if g == s.lit() {
        63u8
    } else {
        0u8
    } by {
        assert forall|j: int| g < j < all.len() implies !sets(#[trigger] all[j], GROUP_LEDS@[g]) by {
            if j >= 8 {
                assert(all[j] == tail[j - 8]);
            } else {
                assert(all[j] == s.painted_groups()[j]);
            }
        }
        lemma_last_decides(
            shown,
            all,
            g,
            GROUP_LEDS@[g],
            if g == s.lit() {
                63u8
            } else {
                0u8
            },
        );
    }
}

proof fn lemma_shown_concat(shown: spec_fn(Led) -> u8, a: Seq<Effect>, b: Seq<Effect>)
    ensures
        shown_after(shown, a + b) == shown_after(shown_after(shown, a), b),
    decreases b.len(),
{
    if b.len() == 0 {
        assert(a + b =~= a);
    } else {
        assert((a + b).drop_last() =~= a + b.drop_last());
        lemma_shown_concat(shown, a, b.drop_last());
    }
}

/// Effects that set no LED leave what is shown.
proof fn lemma_no_led(shown: spec_fn(Led) -> u8, effects: Seq<Effect>)
    requires
        forall|j: int| 0 <= j < effects.len() ==> !((#[trigger] effects[j]) is Led),
    ensures
        shown_after(shown, effects) == shown,
    decreases effects.len(),
{
    if effects.len() > 0 {
        let rest = effects.drop_last();
        assert forall|j: int| 0 <= j < rest.len() implies !((#[trigger] rest[j]) is Led) by {
            assert(!(effects[j] is Led));
        }
        lemma_no_led(shown, rest);
        assert(!(effects[effects.len() - 1] is Led));
    }
}

/// Painting the groups leaves the pads and softkeys.
proof fn lemma_groups_leave_bank(shown: spec_fn(Led) -> u8, s: EngineState)
    ensures
        forall|n: int|
            1 <= n <= 16 ==> shown_after(shown, s.painted_groups())(#[trigger] pad_led(n)) == shown(
                pad_led(n),
            ),
        forall|i: int|
            0 <= i < 8 ==> shown_after(shown, s.painted_groups())(#[trigger] SOFTKEY_LEDS@[i])
                == shown(SOFTKEY_LEDS@[i]),
{
    lemma_painted_positions();
    let p = s.painted_groups();
    assert forall|led: Led| 0 <= led_position(led) < 16 || 50 <= led_position(led) <= 57 implies (
    #[trigger] shown_after(shown, p)(led)) == shown(led) by {
        assert forall|j: int| 0 <= j < p.len() implies !sets(#[trigger] p[j], led) by {
            assert(34 <= led_position(GROUP_LEDS@[j]) <= 41);
        }
        lemma_untouched(shown, p, led);
    }
}

/// Painting a bank shows its pads and softkeys and leaves the groups.
proof fn lemma_bank_painted(shown: spec_fn(Led) -> u8, s: EngineState)
    requires
        s.wf(),
        groups_in_step(shown, s),
    ensures
        leds_in_step(shown_after(shown, s.painted_bank()), s),
{
    lemma_painted_positions();
    let p = s.painted_bank();
    let after = shown_after(shown, p);
    let pads = s.pad_led[s.bank as int];
    let softkeys = s.softkey_led[s.bank as int];
    assert forall|j: int| 0 <= j < 16 implies #[trigger] p[j] == Effect::Led(
        pad_led(j + 1),
        pads[j],
    ) by {}
    assert forall|j: int| 16 <= j < 24 implies #[trigger] p[j] == Effect::Led(
        SOFTKEY_LEDS@[j - 16],
        softkeys[j - 16],
    ) by {}
    assert forall|n: int| 1 <= n <= 16 implies after(#[trigger] pad_led(n)) == pads[n - 1] by {
        assert forall|j: int| n - 1 < j < p.len() implies !sets(#[trigger] p[j], pad_led(n)) by {
            if j < 16 {
                assert(led_position(pad_led(j + 1)) == 4 * (j / 4) + 3 - j % 4);
            } else {
                assert(led_position(SOFTKEY_LEDS@[j - 16]) >= 50);
            }
        }
        assert(p[n - 1] == Effect::Led(pad_led(n), pads[n - 1]));
        lemma_last_decides(shown, p, n - 1, pad_led(n), pads[n - 1]);
    }
    assert forall|i: int| 0 <= i < 8 implies after(#[trigger] SOFTKEY_LEDS@[i]) == softkeys[i] by {
        assert forall|j: int| 16 + i < j < p.len() implies !sets(
            #[trigger] p[j],
            SOFTKEY_LEDS@[i],
        ) by {
            assert(led_position(SOFTKEY_LEDS@[j - 16]) == 57 - (j - 16));
        }
        assert(p[16 + i] == Effect::Led(SOFTKEY_LEDS@[i], softkeys[i]));
        lemma_last_decides(shown, p, 16 + i, SOFTKEY_LEDS@[i], softkeys[i]);
    }
    assert forall|g: int| 0 <= g < 8 implies after(#[trigger] GROUP_LEDS@[g]) == shown(
        GROUP_LEDS@[g],
    ) by {
        assert forall|j: int| 0 <= j < p.len() implies !sets(#[trigger] p[j], GROUP_LEDS@[g]) by {
            if j < 16 {
                assert(led_position(pad_led(j + 1)) == 4 * (j / 4) + 3 - j % 4);
            } else {
                assert(led_position(SOFTKEY_LEDS@[j - 16]) >= 50);
            }
        }
        lemma_untouched(shown, p, GROUP_LEDS@[g]);
    }
}

/// Switching the bank repaints everything that belongs to it.
proof fn lemma_bank_switched(shown: spec_fn(Led) -> u8, s: EngineState, g: usize)
    requires
        s.wf(),
        g < BANKS,
        leds_in_step(shown, s),
    ensures
        leds_in_step(shown_after(shown, s.bank_effects(g)), s.after_bank(g)),
{
    if s.bank != g {
        let t = s.after_bank(g);
        let head = seq![Effect::Send(osc_string("/maschine/bank"@, seq![letter(g as int)]))];
        lemma_no_led(shown, head);
        lemma_shown_concat(shown, head, t.painted_groups());
        lemma_shown_concat(shown, head + t.painted_groups(), t.painted_bank());
        lemma_groups_painted(shown, t, Seq::empty());
        assert(t.painted_groups() + Seq::empty() =~= t.painted_groups());
        lemma_bank_painted(shown_after(shown, t.painted_groups()), t);
    }
}

/// One LED of the active bank set, or one that the engine does not paint.
proof fn lemma_led_set(shown: spec_fn(Led) -> u8, s: EngineState, slot: LedSlot, b: u8)
    requires
        s.wf(),
        leds_in_step(shown, s),
        slot_ok(slot),
        slot matches LedSlot::Button(led) ==> free_led(led),
    ensures
        leds_in_step(shown_after(shown, s.led_effects(slot, b)), s.after_led(slot, b)),
{
    lemma_painted_positions();
    let e = s.led_effects(slot, b);
    let t = s.after_led(slot, b);
    if e.len() == 1 {
        assert(e.drop_last() =~= Seq::empty());
        reveal_with_fuel(shown_after, 2);
    }
    let after = shown_after(shown, e);
    assert forall|n: int| 1 <= n <= 16 implies after(#[trigger] pad_led(n))
        == t.pad_led[t.bank as int][n - 1] by {
        if let LedSlot::Pad(bank, i) = slot {
            if bank == s.bank && i + 1 != n {
                assert(led_position(pad_led(i + 1)) == 4 * ((i + 1 - 1) / 4) + 3 - (i + 1 - 1) % 4);
            }
        }
    }
}

/// No event brings the LEDs out of step with the engine's state, as far as the
/// engine sets them: the pads and softkeys show what was last written to the
/// active bank, also when it was written while another bank was active, and
/// the groups show the active bank or profile. The session's pressure echo sets
/// the same pad LEDs on its own account and is not part of this.
pub proof fn law_leds_stay_in_step(shown: spec_fn(Led) -> u8, s: EngineState, e: EventView)
    requires
        s.wf(),
        event_ok(e),
        leds_in_step(shown, s),
    ensures
        leds_in_step(shown_after(shown, s.event_effects(e)), s.after_event(e)),
{
    let effects = s.event_effects(e);
    match e {
        EventView::Button(b, down) => {
            if b == Button::Shift || b == Button::Control {
                let t = s.after_button(b, down);
                let value: u16 = if down {
                    1
                } else {
                    0
                };
                let sent = t.emitted("button/"@ + button_name(b), value, 1);
                assert(effects == t.painted_groups() + sent);
                lemma_groups_painted(shown, t, sent);
                lemma_groups_leave_bank(shown, t);
                lemma_shown_concat(shown, t.painted_groups(), sent);
                lemma_no_led(shown_after(shown, t.painted_groups()), sent);
            } else if let Some(g) = group_bank(b) {
                if down && s.shift {
                    lemma_bank_switched(shown, s, g);
                } else {
                    lemma_no_led(shown, effects);
                }
            } else {
                lemma_no_led(shown, effects);
            }
        },
        EventView::In(addr, b) => {
            law_messages_leave_painted_leds(s, addr);
            if let Some(slot) = s.addressed(addr) {
                lemma_led_set(shown, s, slot, b);
            }
        },
        _ => {
            lemma_no_led(shown, effects);
        },
    }
}

/// Loading a profile keeps the LEDs in step, and brings the groups in step
/// whatever was shown before.
pub proof fn law_reload_paints_groups(
    shown: spec_fn(Led) -> u8,
    s: EngineState,
    slot: u8,
    profile: ProfileView,
)
    requires
        s.wf(),
    ensures
        groups_in_step(
            shown_after(shown, s.reload_effects(slot, profile)),
            s.after_reload(slot, profile),
        ),
        leds_in_step(shown, s) ==> leds_in_step(
            shown_after(shown, s.reload_effects(slot, profile)),
            s.after_reload(slot, profile),
        ),
{
    let t = s.after_reload(slot, profile);
    let head = seq![Effect::Retarget(profile.target)];
    let p = t.painted_groups();
    lemma_no_led(shown, head);
    lemma_shown_concat(shown, head, p);
    lemma_shown_concat(shown, head + p, t.registered());
    lemma_groups_painted(shown, t, Seq::empty());
    assert(p + Seq::empty() =~= p);
    lemma_no_led(shown_after(shown, p), t.registered());
    lemma_groups_leave_bank(shown, t);
}

/// From dark LEDs, loading the first profile brings them all in step.
pub proof fn law_start_is_in_step(shown: spec_fn(Led) -> u8, slot: u8, profile: ProfileView)
    requires
        forall|led: Led| #[trigger] shown(led) == 0,
    ensures
        leds_in_step(
            shown_after(shown, EngineState::initial().reload_effects(slot, profile)),
            EngineState::initial().after_reload(slot, profile),
        ),
{
    let s = EngineState::initial();
    let t = s.after_reload(slot, profile);
    let head = seq![Effect::Retarget(profile.target)];
    let p = t.painted_groups();
    law_reload_paints_groups(shown, s, slot, profile);
    lemma_no_led(shown, head);
    lemma_shown_concat(shown, head, p);
    lemma_shown_concat(shown, head + p, t.registered());
    lemma_no_led(shown_after(shown, p), t.registered());
    lemma_groups_leave_bank(shown, t);
}

/// A group press is never forwarded: nothing is emitted for it.
pub proof fn law_groups_are_never_forwarded(s: EngineState, b: Button, down: bool, i: int)
    requires
        group_bank(b) is Some,
        0 <= i < s.button_effects(b, down).len(),
    ensures
        !(s.button_effects(b, down)[i] is Emit),
        !(s.button_effects(b, down)[i] is Turn),
{
}

/// A bare group press is inert: it changes nothing and asks for nothing. So
/// does every release of a group.
pub proof fn law_bare_group_is_inert(s: EngineState, b: Button, down: bool)
    requires
        group_bank(b) is Some,
        !down || (!s.shift && !s.ctrl),
    ensures
        s.after_button(b, down) == s,
        s.button_effects(b, down) == Seq::<Effect>::empty(),
{
}

/// With Shift a group selects its bank, and Shift wins where both modifiers
/// are down: the active profile stays. With Control alone it stores its slot
/// and the bank stays.
pub proof fn law_modifiers_choose(s: EngineState, b: Button)
    requires
        group_bank(b) is Some,
    ensures
        s.shift ==> s.after_button(b, true).bank == group_bank(b)->0 && s.after_button(
            b,
            true,
        ).slot == s.slot && s.button_effects(b, true) == s.bank_effects(group_bank(b)->0),
        !s.shift && s.ctrl ==> s.after_button(b, true) == s && s.button_effects(b, true)
            == seq![Effect::StoreSlot(group_bank(b)->0 as u8), Effect::Reload],
{
}

/// Every bank switch is announced, before anything else, with the letter of
/// the new bank; selecting the active bank announces nothing.
pub proof fn law_bank_switch_is_announced(s: EngineState, g: usize)
    ensures
        s.bank != g ==> s.bank_effects(g).len() == 33 && s.bank_effects(g)[0] == Effect::Send(
            osc_string("/maschine/bank"@, seq![letter(g as int)]),
        ),
        s.bank == g ==> s.bank_effects(g) == Seq::<Effect>::empty(),
{
}

/// A control without an entry keeps its generated address, one with an entry
/// has exactly the entry's, and one whose entry has none is silent.
pub proof fn law_profile_routes_controls(s: EngineState, key: Seq<char>, num: u16, den: u16)
    ensures
        entry_at(s.profile.map, key) is None ==> s.emitted(key, num, den) == seq![
            Effect::Emit { addr: "/maschine/"@ + key, num, den },
        ],
        entry_at(s.profile.map, key) matches Some(e) ==> match e.osc {
            Some(addr) => s.emitted(key, num, den) == seq![Effect::Emit { addr, num, den }],
            None => s.emitted(key, num, den) == Seq::<Effect>::empty(),
        },
{
}

/// A turn goes the shortest way around the circle and ends where the knob is.
pub proof fn law_knob_takes_shortest_way(last: u16, now: u16)
    requires
        last < 1000,
        now < 1000,
    ensures
        -500 <= knob_delta(Some(last), now) <= 500,
        (last + knob_delta(Some(last), now)) % 1000 == now as int,
{
}

/// An unbanked LED name means the active bank: `pad/<n>` is the same as
/// `<bank>/pad/<n>`, and a softkey's name the same as `<bank>/softkey/<n>`.
pub proof fn law_unbanked_names_mean_active_bank(s: EngineState, number: nat, b: Button)
    requires
        s.wf(),
    ensures
        1 <= number <= 16 ==> s.led_of_name("pad/"@ + decimal(number)) == s.led_of_name(
            control_key(s.bank as int, "pad"@, number),
        ),
        softkey_place(b) matches Some(i) ==> s.led_of_name(button_name(b)) == s.led_of_name(
            control_key(s.bank as int, "softkey"@, (i + 1) as nat),
        ),
{
    reveal_strlit("pad/");
    reveal_strlit("button/");
    reveal_strlit("backlight");
    if 1 <= number <= 16 {
        law_keys_name_their_leds(s.bank as int, (number - 1) as nat, b);
        let name = "pad/"@ + decimal(number);
        assert(name[0] == 'p' && name[1] == 'a');
        if name.len() >= 7 {
            assert(name.take(7)[0] == name[0]);
        }
        assert(led_of_key(name) is None);
        assert("backlight"@[0] == 'b');
        assert(name.take(4) =~= "pad/"@);
        assert(name.skip(4) =~= decimal(number));
        law_decimal_reads_back(number, 16);
    }
    if let Some(i) = softkey_place(b) {
        law_keys_name_their_leds(s.bank as int, i as nat, b);
        law_button_is_named(b);
        let name = button_name(b);
        reveal_strlit("softkey1");
        reveal_strlit("softkey2");
        reveal_strlit("softkey3");
        reveal_strlit("softkey4");
        reveal_strlit("softkey5");
        reveal_strlit("softkey6");
        reveal_strlit("softkey7");
        reveal_strlit("softkey8");
        assert(name.len() == 8 && name[0] == 's' && name[1] == 'o');
        assert(name.take(7)[0] == name[0]);
        assert(led_of_key(name) is None);
        assert(name.take(4)[0] == name[0]);
    }
}

} // verus!
