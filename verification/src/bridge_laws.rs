//! What holds of the desktop bridge as a whole: what it reports of the
//! controls, and what its LEDs show.

use vstd::prelude::*;

use crate::bridge::{
    asks_to_dump, first_plain, handshake_after, handshake_waits, knob_reports,
    led_of_bridge_address, led_of_bridge_name, leds_after_buttons, target_argument, Handshake,
    PadsState, PanelState, ReportView, BACKLIGHT, OSC_IN_PORT, OSC_OUT_PORT,
};
use crate::input::{
    button_index, button_name, changed_buttons, ep1_content, is_pressed, knob_name, law_button_is_named,
    law_button_names_distinct, law_diff_is_the_change, printed_pad, Button,
    ButtonStates, Ep1Content, Knob,
};
use crate::input_laws::{
    law_button_names_are_plain, law_diff_names_each_button_once, law_knob_names,
};
use crate::leds::{button_led, law_set_changes_one_led, led_position, pad_led, Led, Leds};
use crate::text::{
    decimal, is_digit, law_decimal_reads_back, law_prefix_is_stripped, lemma_decimal_digits,
    starts_with,
};
use crate::usb_laws::apart;

verus! {

/// What is remembered of a pad stays closer than 32 to what it reports, up or
/// down, and is nothing once the pad is let go. Readings below 6 are a pad at
/// rest.
pub proof fn law_bridge_pad_tracks_pressure(s: PadsState, raw: u8, pressure: u16)
    requires
        s.wf(),
        raw < 16,
        pressure < 4096,
    ensures
        ({
            let kept = s.after_word((raw, pressure)).last[raw as int];
            &&& pressure < 6 ==> kept == 0
            &&& pressure >= 6 ==> apart(kept as int, pressure as int) < 32
        }),
{
}

/// A pad word is reported exactly when the pressure is at least 32 from the one
/// reported last, or the pad was let go. The report names the pad by its id
/// counted from 1 and has the pressure as a share of 4095; it is remembered,
/// and the LED of the printed pad shows it. Where nothing is reported, nothing
/// changes, and no other pad and no other LED ever does.
pub proof fn law_bridge_pad_word_is_reported(
    s: PadsState,
    raw: u8,
    pressure: u16,
    other: int,
    led: Led,
)
    requires
        s.wf(),
        raw < 16,
        pressure < 4096,
        0 <= other < 16,
        other != raw,
    ensures
        ({
            let last = s.last[raw as int] as int;
            let now = if pressure < 6 {
                0
            } else {
                pressure as int
            };
            let after = s.after_word((raw, pressure));
            let reports = s.word_reports((raw, pressure));
            let own = pad_led(printed_pad(raw as int));
            &&& after.wf()
            &&& if apart(last, now) >= 32 || (now == 0 && last != 0) {
                &&& reports.len() == 1
                &&& reports[0].name == "pad/"@ + decimal((raw + 1) as nat)
                &&& reports[0].num == now && reports[0].den == 4095
                &&& after.last[raw as int] == now
                &&& after.leds.level[led_position(own)] == now / 64
            } else {
                reports.len() == 0 && after == s
            }
            &&& after.last[other] == s.last[other]
            &&& led != own ==> after.leds.level[led_position(led)] == s.leds.level[led_position(
                led,
            )]
        }),
{
    let own = pad_led(printed_pad(raw as int));
    let p = if pressure < 6 {
        0u16
    } else {
        pressure
    };
    law_set_changes_one_led(s.leds, own, (p / 64) as u8, led, 0);
}

/// Reports of several words are those of each word, in order, none more.
pub proof fn law_bridge_words_are_reported_in_turn(
    s: PadsState,
    words: Seq<(u8, u16)>,
    word: (u8, u16),
)
    ensures
        s.words_reports(words.push(word)) == s.words_reports(words) + s.after_words(
            words,
        ).word_reports(word),
        s.after_words(words.push(word)) == s.after_words(words).after_word(word),
        s.words_reports(Seq::empty()).len() == 0,
        s.after_words(Seq::empty()) == s,
{
    assert(words.push(word).drop_last() =~= words);
}

/// Whether a knob is news: nothing was read of the knobs before, or it was
/// elsewhere, higher or lower.
pub open spec fn knob_is_news(prev: Option<Seq<u16>>, now: Seq<u16>, i: int) -> bool {
    match prev {
        Some(p) => p[i] < now[i] || p[i] > now[i],
        None => true,
    }
}

proof fn lemma_knob_reports(prev: Option<Seq<u16>>, now: Seq<u16>, n: int)
    requires
        0 <= n <= 11,
    ensures
        forall|j: int|
            0 <= j < knob_reports(prev, now, n).len() ==> exists|i: int|
                0 <= i < n && knob_is_news(prev, now, i) && #[trigger] knob_reports(
                    prev,
                    now,
                    n,
                )[j] == (ReportView {
                    name: knob_name(#[trigger] Knob::ALL@[i]),
                    num: now[i],
                    den: 999,
                }),
        forall|i: int|
            0 <= i < n && knob_is_news(prev, now, i) ==> knob_reports(prev, now, n).contains(
                ReportView { name: knob_name(#[trigger] Knob::ALL@[i]), num: now[i], den: 999 },
            ),
        knob_reports(prev, now, n).len() <= n,
    decreases n,
{
    if n > 0 {
        lemma_knob_reports(prev, now, n - 1);
        let before = knob_reports(prev, now, n - 1);
        let after = knob_reports(prev, now, n);
        let own = ReportView { name: knob_name(Knob::ALL@[n - 1]), num: now[n - 1], den: 999 };
        assert forall|j: int| 0 <= j < after.len() implies exists|i: int|
            0 <= i < n && knob_is_news(prev, now, i) && #[trigger] after[j] == (ReportView {
                name: knob_name(#[trigger] Knob::ALL@[i]),
                num: now[i],
                den: 999,
            }) by {
            if j < before.len() {
                assert(after[j] == before[j]);
                let i = choose|i: int|
                    0 <= i < n - 1 && knob_is_news(prev, now, i) && before[j] == (ReportView {
                        name: knob_name(#[trigger] Knob::ALL@[i]),
                        num: now[i],
                        den: 999,
                    });
                assert(after[j] == (ReportView {
                    name: knob_name(Knob::ALL@[i]),
                    num: now[i],
                    den: 999,
                }));
            } else {
                assert(after[j] == own);
            }
        }
        assert forall|i: int| 0 <= i < n && knob_is_news(prev, now, i) implies after.contains(
            ReportView { name: knob_name(#[trigger] Knob::ALL@[i]), num: now[i], den: 999 },
        ) by {
            let r = ReportView { name: knob_name(Knob::ALL@[i]), num: now[i], den: 999 };
            if i < n - 1 {
                assert(before.contains(r));
                let j = choose|j: int| 0 <= j < before.len() && before[j] == r;
                assert(after[j] == r);
            } else {
                assert(after[before.len() as int] == r);
            }
        }
    }
}

/// A knob message is reported knob by knob: exactly those that are not where
/// they were, higher or lower, each by its name and with its new position as a
/// share of 999. A first message reports all of them.
pub proof fn law_knob_message_reports_changes(s: PanelState, now: Seq<u16>, i: int, r: ReportView)
    requires
        s.wf(),
        now.len() == 11,
        0 <= i < 11,
    ensures
        ({
            let msg = Some(Ep1Content::Knobs(now));
            let reports = s.reports(msg);
            &&& r.name == knob_name(Knob::ALL@[i]) ==> (reports.contains(r) <==> knob_is_news(
                s.knobs,
                now,
                i,
            ) && r.num == now[i] && r.den == 999)
            &&& reports.len() <= 11
            &&& s.after(msg).knobs == Some(now)
            &&& s.after(msg).buttons == s.buttons
        }),
{
    lemma_knob_reports(s.knobs, now, 11);
    let reports = s.reports(Some(Ep1Content::Knobs(now)));
    if r.name == knob_name(Knob::ALL@[i]) {
        if reports.contains(r) {
            let j = choose|j: int| 0 <= j < reports.len() && reports[j] == r;
            let k = choose|k: int|
                0 <= k < 11 && knob_is_news(s.knobs, now, k) && reports[j] == (ReportView {
                    name: knob_name(#[trigger] Knob::ALL@[k]),
                    num: now[k],
                    den: 999,
                });
            law_knob_names(i, k);
        }
        if knob_is_news(s.knobs, now, i) && r.num == now[i] && r.den == 999 {
            assert(r == (ReportView {
                name: knob_name(Knob::ALL@[i]),
                num: now[i],
                den: 999,
            }));
        }
    }
}

/// Where a knob stands after a list of reports: at the last one that names it.
pub open spec fn knob_followed(at: u16, reports: Seq<ReportView>, name: Seq<char>) -> u16
    decreases reports.len(),
{
    if reports.len() == 0 {
        at
    } else if reports.last().name == name {
        reports.last().num
    } else {
        knob_followed(at, reports.drop_last(), name)
    }
}

proof fn lemma_knob_followed(at: u16, reports: Seq<ReportView>, name: Seq<char>, v: u16)
    requires
        forall|j: int|
            0 <= j < reports.len() && (#[trigger] reports[j]).name == name ==> reports[j].num == v,
        (exists|j: int| 0 <= j < reports.len() && (#[trigger] reports[j]).name == name) || at == v,
    ensures
        knob_followed(at, reports, name) == v,
    decreases reports.len(),
{
    if reports.len() > 0 {
        let last = reports.len() - 1;
        if reports[last].name != name {
            let rest = reports.drop_last();
            assert forall|j: int| 0 <= j < rest.len() && (#[trigger] rest[j]).name == name implies
                rest[j].num == v by {
                assert(rest[j] == reports[j]);
            }
            if at != v {
                let j = choose|j: int|
                    0 <= j < reports.len() && (#[trigger] reports[j]).name == name;
                assert(rest[j].name == name);
            }
            lemma_knob_followed(at, rest, name, v);
        }
    }
}

/// Whoever follows the reports knows every knob as last read: from where it
/// was, or from anywhere at the first message.
pub proof fn law_knob_reports_can_be_followed(s: PanelState, now: Seq<u16>, i: int, at: u16)
    requires
        s.wf(),
        now.len() == 11,
        0 <= i < 11,
        s.knobs matches Some(k) ==> at == k[i],
    ensures
        knob_followed(
            at,
            s.reports(Some(Ep1Content::Knobs(now))),
            knob_name(Knob::ALL@[i]),
        ) == now[i],
{
    let reports = s.reports(Some(Ep1Content::Knobs(now)));
    let name = knob_name(Knob::ALL@[i]);
    assert forall|j: int| 0 <= j < reports.len() && (#[trigger] reports[j]).name == name implies
        reports[j].num == now[i] by {
        assert(reports.contains(reports[j]));
        law_knob_message_reports_changes(s, now, i, reports[j]);
    }
    let own = ReportView { name, num: now[i], den: 999 };
    law_knob_message_reports_changes(s, now, i, own);
    if at != now[i] {
        let j = choose|j: int| 0 <= j < reports.len() && reports[j] == own;
        assert(reports[j].name == name);
    }
    lemma_knob_followed(at, reports, name, now[i]);
}

/// A button message is reported button by button: exactly those that went down
/// or up, by name, as 1 or 0 of 1, in `Button::ALL` order, each once.
pub proof fn law_button_message_reports_changes(
    s: PanelState,
    now: ButtonStates,
    b: Button,
    r: ReportView,
)
    requires
        r.name == "button/"@ + button_name(b),
    ensures
        ({
            let msg = Some(Ep1Content::Buttons(now));
            let reports = s.reports(msg);
            &&& reports.contains(r) <==> is_pressed(now, b) != is_pressed(s.buttons, b) && r.den
                == 1 && r.num == if is_pressed(now, b) {
                1int
            } else {
                0
            }
            &&& reports.len() == changed_buttons(now, s.buttons).len()
            &&& s.after(msg).buttons == now
            &&& s.after(msg).knobs == s.knobs
        }),
{
    let changes = changed_buttons(now, s.buttons);
    let reports = s.reports(Some(Ep1Content::Buttons(now)));
    law_diff_is_the_change(now, s.buttons, b, true);
    law_diff_is_the_change(now, s.buttons, b, false);
    if reports.contains(r) {
        let j = choose|j: int| 0 <= j < reports.len() && reports[j] == r;
        let (c, down) = changes[j];
        let n = "button/"@.len() as int;
        assert(r.name.skip(n) =~= button_name(b));
        assert(("button/"@ + button_name(c)).skip(n) =~= button_name(c));
        law_button_names_distinct(c, b);
        assert(changes.contains((c, down)));
    }
    if is_pressed(now, b) != is_pressed(s.buttons, b) {
        let j = choose|j: int| 0 <= j < changes.len() && changes[j] == (b, is_pressed(now, b));
        assert(reports[j].name == r.name);
        if r.den == 1 && r.num == (if is_pressed(now, b) {
            1int
        } else {
            0
        }) {
            assert(reports[j] == r);
        }
    }
}

proof fn lemma_leds_after_buttons(leds: Leds, changes: Seq<(Button, bool)>, led: Led)
    requires
        leds.wf(),
        forall|i: int, j: int|
            0 <= i < j < changes.len() ==> button_index((#[trigger] changes[i]).0) < button_index(
                (#[trigger] changes[j]).0,
            ),
    ensures
        leds_after_buttons(leds, changes).wf(),
        forall|i: int|
            0 <= i < changes.len() && button_led((#[trigger] changes[i]).0) == led
                ==> leds_after_buttons(leds, changes).level[led_position(led)] == if changes[i].1 {
                63int
            } else {
                0
            },
        (forall|i: int| 0 <= i < changes.len() ==> button_led((#[trigger] changes[i]).0) != led)
            ==> leds_after_buttons(leds, changes).level[led_position(led)]
            == leds.level[led_position(led)],
    decreases changes.len(),
{
    if changes.len() > 0 {
        let rest = changes.drop_last();
        assert forall|i: int, j: int| 0 <= i < j < rest.len() implies button_index(
            (#[trigger] rest[i]).0,
        ) < button_index((#[trigger] rest[j]).0) by {
            assert(rest[i] == changes[i] && rest[j] == changes[j]);
        }
        lemma_leds_after_buttons(leds, rest, led);
        let (b, down) = changes.last();
        let level: u8 = if down {
            63
        } else {
            0
        };
        let before = leds_after_buttons(leds, rest);
        law_set_changes_one_led(before, button_led(b), level, led, 0);
        let last = changes.len() - 1;
        assert(changes[last] == (b, down));
        assert forall|i: int|
            0 <= i < changes.len() && button_led((#[trigger] changes[i]).0) == led implies
            leds_after_buttons(leds, changes).level[led_position(led)] == if changes[i].1 {
            63int
        } else {
            0
        } by {
            if i < last {
                assert(rest[i] == changes[i]);
                assert(button_index(changes[i].0) < button_index(changes[last].0));
                if button_led(changes[i].0) == button_led(b) {
                    lemma_button_leds_distinct(changes[i].0, b);
                }
            }
        }
        if forall|i: int| 0 <= i < changes.len() ==> button_led((#[trigger] changes[i]).0) != led {
            assert forall|i: int| 0 <= i < rest.len() implies button_led((#[trigger] rest[i]).0)
                != led by {
                assert(rest[i] == changes[i]);
            }
        }
    }
}

proof fn lemma_button_leds_distinct(a: Button, b: Button)
    requires
        button_led(a) == button_led(b),
    ensures
        a == b,
{
}

/// After a button message a button that went down is lit, one that went up is
/// dark, and every other LED is as it was.
pub proof fn law_changed_buttons_are_lit(
    s: PanelState,
    leds: Leds,
    now: ButtonStates,
    b: Button,
    led: Led,
)
    requires
        leds.wf(),
    ensures
        ({
            let after = s.leds_after(leds, Some(Ep1Content::Buttons(now)));
            &&& after.wf()
            &&& is_pressed(now, b) && !is_pressed(s.buttons, b)
                ==> after.level[led_position(button_led(b))] == 63
            &&& !is_pressed(now, b) && is_pressed(s.buttons, b)
                ==> after.level[led_position(button_led(b))] == 0
            &&& (forall|c: Button|
                #[trigger] button_led(c) == led ==> is_pressed(now, c) == is_pressed(s.buttons, c))
                ==> after.level[led_position(led)] == leds.level[led_position(led)]
        }),
{
    let changes = changed_buttons(now, s.buttons);
    assert forall|i: int, j: int| 0 <= i < j < changes.len() implies button_index(
        (#[trigger] changes[i]).0,
    ) < button_index((#[trigger] changes[j]).0) by {
        law_diff_names_each_button_once(now, s.buttons, i, j);
    }
    lemma_leds_after_buttons(leds, changes, button_led(b));
    lemma_leds_after_buttons(leds, changes, led);
    law_diff_is_the_change(now, s.buttons, b, is_pressed(now, b));
    if is_pressed(now, b) != is_pressed(s.buttons, b) {
        let i = choose|i: int| 0 <= i < changes.len() && changes[i] == (b, is_pressed(now, b));
        assert(button_led(changes[i].0) == button_led(b));
    }
    if forall|c: Button|
        #[trigger] button_led(c) == led ==> is_pressed(now, c) == is_pressed(s.buttons, c) {
        assert forall|i: int| 0 <= i < changes.len() implies button_led((#[trigger] changes[i]).0)
            != led by {
            let (c, down) = changes[i];
            assert(changes.contains((c, down)));
            law_diff_is_the_change(now, s.buttons, c, down);
        }
    }
}

/// Messages that are neither knobs nor buttons report nothing, change nothing
/// and light nothing; knobs light nothing either.
pub proof fn law_other_messages_report_nothing(s: PanelState, leds: Leds, msg: Option<Ep1Content>)
    ensures
        !(msg matches Some(Ep1Content::Buttons(_))) ==> s.leds_after(leds, msg) == leds,
        !(msg matches Some(Ep1Content::Buttons(_))) && !(msg matches Some(Ep1Content::Knobs(_)))
            ==> s.reports(msg).len() == 0 && s.after(msg) == s,
{
}

/// LED names of the bridge: pads by number, buttons by name, and the
/// backlight. A pad number that no pad has means nothing.
pub proof fn law_bridge_led_names(n: nat, b: Button)
    ensures
        led_of_bridge_name("pad/"@ + decimal(n)) == if 1 <= n <= 16 {
            Some(pad_led(n as int))
        } else {
            None
        },
        led_of_bridge_name(button_name(b)) == Some(button_led(b)),
        led_of_bridge_name("backlight"@) == Some(Led::Backlight),
{
    reveal_strlit("pad/");
    reveal_strlit("backlight");
    let name = "pad/"@ + decimal(n);
    assert(name.take(4) =~= "pad/"@);
    assert(name.skip(4) =~= decimal(n));
    lemma_decimal_digits(n);
    assert(is_digit(decimal(n)[0]));
    if n <= 16 {
        law_decimal_reads_back(n, 16);
    }
    law_button_is_named(b);
    law_button_names_are_plain(b);
    if starts_with(button_name(b), "pad/"@) {
        assert(button_name(b).take(4)[3] == button_name(b)[3]);
    }
    assert("backlight"@.take(4)[0] == 'b');
}

/// The target is the first argument that is no option, whatever options stand
/// before it and whatever stands behind it.
pub proof fn law_first_plain_argument_is_the_target(args: Seq<String>, i: int)
    requires
        0 <= i < args.len(),
        !starts_with(args[i]@, "--"@),
        forall|j: int| 0 <= j < i ==> starts_with((#[trigger] args[j])@, "--"@),
    ensures
        first_plain(args) == Some(args[i]@),
    decreases i,
{
    if i > 0 {
        assert(starts_with(args[0]@, "--"@));
        let rest = args.skip(1);
        assert forall|j: int| 0 <= j < i - 1 implies starts_with((#[trigger] rest[j])@, "--"@) by {
            assert(rest[j] == args[j + 1]);
        }
        assert(rest[i - 1] == args[i]);
        law_first_plain_argument_is_the_target(rest, i - 1);
    }
}

/// A device that answers is known at once, at whatever read it does. Any other
/// message, and a read without one, only counts.
pub proof fn law_handshake_ends_with_the_answer(done: u8, msg: Seq<u8>)
    ensures
        match ep1_content(msg) {
            Some(Ep1Content::DeviceInfo(info)) => handshake_after(done, Some(msg))
                == Handshake::Done(info),
            _ => handshake_after(done, Some(msg)) == handshake_after(done, None),
        },
        handshake_after(done, None) == if done < 20 {
            Handshake::Again
        } else {
            Handshake::TimedOut
        },
{
}

/// LED messages are those below `/maschine/led/`: there the name decides, and
/// elsewhere no LED is set.
pub proof fn law_bridge_led_addresses(name: Seq<char>, addr: Seq<char>)
    ensures
        led_of_bridge_address("/maschine/led/"@ + name) == led_of_bridge_name(name),
        !starts_with(addr, "/maschine/led/"@) ==> led_of_bridge_address(addr) is None,
{
    law_prefix_is_stripped("/maschine/led/"@, name, addr);
}

/// Reports are printed exactly if some argument asks for it, wherever it
/// stands, and without a plain argument the target is the default one.
pub proof fn law_arguments_in_any_order(args: Seq<String>, i: int)
    requires
        0 <= i < args.len(),
    ensures
        args[i]@ == "--dump"@ ==> asks_to_dump(args),
        (forall|j: int| 0 <= j < args.len() ==> (#[trigger] args[j])@ != "--dump"@)
            ==> !asks_to_dump(args),
        (forall|j: int| 0 <= j < args.len() ==> starts_with((#[trigger] args[j])@, "--"@))
            ==> target_argument(args) == "192.168.1.137"@,
        target_argument(Seq::empty()) == "192.168.1.137"@,
        !starts_with(args[i]@, "--"@) && (forall|j: int|
            0 <= j < i ==> starts_with((#[trigger] args[j])@, "--"@)) ==> target_argument(args)
            == args[i]@,
{
    if forall|j: int| 0 <= j < args.len() ==> starts_with((#[trigger] args[j])@, "--"@) {
        lemma_only_options(args);
    }
    if !starts_with(args[i]@, "--"@) && (forall|j: int|
        0 <= j < i ==> starts_with((#[trigger] args[j])@, "--"@)) {
        law_first_plain_argument_is_the_target(args, i);
    }
}

proof fn lemma_only_options(args: Seq<String>)
    requires
        forall|j: int| 0 <= j < args.len() ==> starts_with((#[trigger] args[j])@, "--"@),
    ensures
        first_plain(args) is None,
    decreases args.len(),
{
    if args.len() > 0 {
        assert(starts_with(args[0]@, "--"@));
        let rest = args.skip(1);
        assert forall|j: int| 0 <= j < rest.len() implies starts_with(
            (#[trigger] rest[j])@,
            "--"@,
        ) by {
            assert(rest[j] == args[j + 1]);
        }
        lemma_only_options(rest);
    }
}

/// The handshake gives up at its twentieth read, and not before.
pub proof fn law_handshake_waits_twenty_reads(done: u8)
    ensures
        done < 20 ==> handshake_waits(done) == Handshake::Again,
        done >= 20 ==> handshake_waits(done) == Handshake::TimedOut,
{
}

/// The bridge sends to port 9000, listens on the one after it, and lights the
/// displays with 92.
pub proof fn law_bridge_ports_and_backlight()
    ensures
        OSC_OUT_PORT == 9000,
        OSC_IN_PORT == OSC_OUT_PORT + 1,
        BACKLIGHT == 92,
{
}

} // verus!
