//! What holds of the host session as a whole: what it publishes, what it
//! remembers, and what its LEDs show.

use vstd::prelude::*;

use crate::input::{
    changed_buttons, is_pressed, law_diff_is_the_change, printed_pad, Button, ButtonStates,
    Ep1Content,
};
use crate::leds::{
    device_after, device_in_step, law_frames_bring_device_up_to_date, law_set_changes_one_led,
    led_position, pad_led, Led,
};
use crate::usb::{moved_knobs, Outbox, SessionState, UsbEffect, MESSAGE_MAX};
use crate::DeviceInfo;

verus! {

/// How far two numbers are apart.
pub open spec fn apart(a: int, b: int) -> int {
    if a < b {
        b - a
    } else {
        a - b
    }
}

/// What is remembered of a pad stays close to what it reports, whether the
/// pressure rises or falls: closer than 128, and nothing once it is let go.
/// Readings below 6 are a pad at rest.
pub proof fn law_pad_memory_tracks_pressure(s: SessionState, raw: u8, pressure: u16)
    requires
        s.wf(),
        raw < 16,
        pressure < 4096,
    ensures
        ({
            let kept = s.after_pad((raw, pressure)).pads[raw as int];
            &&& pressure < 6 ==> kept == 0
            &&& pressure >= 6 ==> apart(kept as int, pressure as int) < 128
        }),
{
}

/// One pad word publishes the pad's pressure exactly when that is at least 128
/// from what was published last, or when the pad was let go, and what it
/// publishes is what is remembered.
pub proof fn law_pad_word_publishes_changes(s: SessionState, raw: u8, pressure: u16)
    requires
        s.wf(),
        raw < 16,
        pressure < 4096,
    ensures
        ({
            let last = s.pads[raw as int] as int;
            let now = if pressure < 6 {
                0
            } else {
                pressure as int
            };
            let published = s.published_pads(seq![(raw, pressure)]);
            let kept = s.after_pad((raw, pressure)).pads[raw as int];
            if apart(last, now) >= 128 || (now == 0 && last != 0) {
                published.len() == 1 && published[0].0 == raw && published[0].1 == now && kept
                    == now
            } else {
                published.len() == 0 && kept == last
            }
        }),
{
    let words = seq![(raw, pressure)];
    assert(words.drop_last() =~= Seq::empty());
    reveal_with_fuel(SessionState::published_pads, 2);
    reveal_with_fuel(SessionState::after_pads, 2);
}

/// A pad word concerns its own pad: no other pad's memory or LED changes, nor
/// do knobs and buttons.
pub proof fn law_pad_word_concerns_one_pad(
    s: SessionState,
    raw: u8,
    pressure: u16,
    other: int,
    led: Led,
)
    requires
        s.wf(),
        raw < 16,
        pressure < 4096,
        0 <= other < 16,
        other != raw,
    ensures
        ({
            let after = s.after_pad((raw, pressure));
            &&& after.wf()
            &&& after.pads[other] == s.pads[other]
            &&& after.knobs == s.knobs && after.buttons == s.buttons
            &&& led != pad_led(printed_pad(raw as int)) ==> after.leds.level[led_position(led)]
                == s.leds.level[led_position(led)]
        }),
{
    let p = if pressure < 6 {
        0u16
    } else {
        pressure
    };
    law_set_changes_one_led(s.leds, pad_led(printed_pad(raw as int)), (p / 64) as u8, led, 0);
}

/// A pad's LED shows its pressure, 64 steps of it, also when the change is too
/// small to be published: dark at rest and full at full pressure.
pub proof fn law_pad_led_shows_pressure(s: SessionState, raw: u8, pressure: u16)
    requires
        s.wf(),
        raw < 16,
        pressure < 4096,
    ensures
        s.after_pad((raw, pressure)).leds.level[led_position(pad_led(printed_pad(raw as int)))]
            == pressure as int / 64,
{
    let led = pad_led(printed_pad(raw as int));
    let p = if pressure < 6 {
        0u16
    } else {
        pressure
    };
    law_set_changes_one_led(s.leds, led, (p / 64) as u8, led, 0);
}

/// The pads as published: each published pressure in place of the one before.
pub open spec fn pads_replayed(pads: Seq<u16>, published: Seq<(u8, u16)>) -> Seq<u16>
    decreases published.len(),
{
    if published.len() == 0 {
        pads
    } else {
        pads_replayed(pads, published.drop_last()).update(
            published.last().0 as int,
            published.last().1,
        )
    }
}

/// Whoever follows the published pressures knows the pads as the session does,
/// after any report, however many words it has.
pub proof fn law_published_pads_can_be_followed(s: SessionState, words: Seq<(u8, u16)>)
    requires
        s.wf(),
        forall|i: int| 0 <= i < words.len() ==> (#[trigger] words[i]).0 < 16 && words[i].1 < 4096,
    ensures
        pads_replayed(s.pads, s.published_pads(words)) == s.after_pads(words).pads,
        s.after_pads(words).wf(),
    decreases words.len(),
{
    if words.len() > 0 {
        let rest = words.drop_last();
        assert forall|i: int| 0 <= i < rest.len() implies (#[trigger] rest[i]).0 < 16 && rest[i].1
            < 4096 by {
            assert(rest[i] == words[i]);
        }
        law_published_pads_can_be_followed(s, rest);
        let (raw, pressure) = words.last();
        assert(words[words.len() - 1] == words.last());
        let before = s.after_pads(rest);
        law_pad_word_concerns_one_pad(
            before,
            raw,
            pressure,
            if raw == 0 {
                1
            } else {
                0
            },
            Led::Backlight,
        );
        let list = s.published_pads(words);
        if list.len() > s.published_pads(rest).len() {
            assert(list.drop_last() =~= s.published_pads(rest));
        }
    }
}

/// After a report every pad in it is remembered within 128 of its last word.
pub proof fn law_report_leaves_pads_tracked(s: SessionState, words: Seq<(u8, u16)>, raw: u8, i: int)
    requires
        s.wf(),
        forall|j: int| 0 <= j < words.len() ==> (#[trigger] words[j]).0 < 16 && words[j].1 < 4096,
        0 <= i < words.len(),
        words[i].0 == raw,
        forall|j: int| i < j < words.len() ==> (#[trigger] words[j]).0 != raw,
    ensures
        ({
            let kept = s.after_pads(words).pads[raw as int];
            &&& words[i].1 < 6 ==> kept == 0
            &&& words[i].1 >= 6 ==> apart(kept as int, words[i].1 as int) < 128
        }),
    decreases words.len(),
{
    let rest = words.drop_last();
    let last = words.last();
    assert(words[words.len() - 1] == last);
    assert forall|j: int| 0 <= j < rest.len() implies (#[trigger] rest[j]).0 < 16 && rest[j].1
        < 4096 by {
        assert(rest[j] == words[j]);
    }
    law_published_pads_can_be_followed(s, rest);
    let before = s.after_pads(rest);
    if i == words.len() - 1 {
        law_pad_memory_tracks_pressure(before, raw, last.1);
    } else {
        assert forall|j: int| i < j < rest.len() implies (#[trigger] rest[j]).0 != raw by {
            assert(rest[j] == words[j]);
        }
        assert(rest[i] == words[i]);
        law_report_leaves_pads_tracked(s, rest, raw, i);
        law_pad_word_concerns_one_pad(before, last.0, last.1, raw as int, Led::Backlight);
    }
}

/// Whether a knob has been read before, and is more than 4 from where it was.
pub open spec fn has_moved(last: Option<u16>, now: u16) -> bool {
    match last {
        Some(p) => apart(p as int, now as int) > 4,
        None => false,
    }
}

proof fn lemma_moved_knobs(last: Seq<Option<u16>>, now: Seq<u16>, n: int)
    requires
        0 <= n <= 11,
        last.len() == 11,
        now.len() == 11,
    ensures
        forall|j: int|
            0 <= j < moved_knobs(last, now, n).len() ==> ({
                let e = #[trigger] moved_knobs(last, now, n)[j];
                e matches UsbEffect::Knob(i, v) && 0 <= i < n && v == now[i] && has_moved(last[i], v)
            }),
        forall|i: int|
            0 <= i < n && has_moved(#[trigger] last[i], now[i]) ==> moved_knobs(last, now, n).contains(UsbEffect::Knob(i, now[i])),
    decreases n,
{
    if n > 0 {
        lemma_moved_knobs(last, now, n - 1);
        let before = moved_knobs(last, now, n - 1);
        let after = moved_knobs(last, now, n);
        assert forall|j: int| 0 <= j < after.len() implies ({
            let e = #[trigger] after[j];
            e matches UsbEffect::Knob(i, v) && 0 <= i < n && v == now[i] && has_moved(last[i], v)
        }) by {
            if j < before.len() {
                assert(after[j] == before[j]);
            }
        }
        assert forall|i: int|
            0 <= i < n && has_moved(#[trigger] last[i], now[i]) implies after.contains(UsbEffect::Knob(i, now[i])) by {
            if i < n - 1 {
                let e = UsbEffect::Knob(i, now[i]);
                assert(before.contains(e));
                let j = choose|j: int| 0 <= j < before.len() && before[j] == e;
                assert(after[j] == e);
            } else {
                assert(after[before.len() as int] == UsbEffect::Knob(i, now[i]));
            }
        }
    }
}

/// A knob report publishes exactly the knobs that are more than 4 from where
/// they were published last, up or down, each with its new position. It
/// remembers these, and the first reading of a knob, and nothing else.
pub proof fn law_knob_report_publishes_moves(s: SessionState, now: Seq<u16>, i: int, v: u16)
    requires
        s.wf(),
        now.len() == 11,
        0 <= i < 11,
    ensures
        ({
            let msg = Some(Ep1Content::Knobs(now));
            let effects = s.ep1_effects(msg);
            let kept = s.after_ep1(msg).knobs[i];
            let moved = has_moved(s.knobs[i], now[i]);
            &&& effects.contains(UsbEffect::Knob(i, v)) <==> moved && v == now[i]
            &&& forall|j: int| 0 <= j < effects.len() ==> (#[trigger] effects[j]) is Knob
            &&& kept == if moved || s.knobs[i] is None {
                Some(now[i])
            } else {
                s.knobs[i]
            }
            &&& s.after_ep1(msg).leds == s.leds && s.after_ep1(msg).buttons == s.buttons
                && s.after_ep1(msg).pads == s.pads
        }),
{
    lemma_moved_knobs(s.knobs, now, 11);
    let effects = s.ep1_effects(Some(Ep1Content::Knobs(now)));
    if effects.contains(UsbEffect::Knob(i, v)) {
        let j = choose|j: int| 0 <= j < effects.len() && effects[j] == UsbEffect::Knob(i, v);
        assert(effects[j] is Knob);
    }
}

/// A button report publishes exactly the buttons that went down or up, and is
/// remembered as it is.
pub proof fn law_button_report_publishes_changes(
    s: SessionState,
    now: ButtonStates,
    b: Button,
    down: bool,
)
    ensures
        ({
            let msg = Some(Ep1Content::Buttons(now));
            let effects = s.ep1_effects(msg);
            &&& effects.contains(UsbEffect::Button(b, down)) <==> is_pressed(now, b) != is_pressed(
                s.buttons,
                b,
            ) && down == is_pressed(now, b)
            &&& forall|j: int| 0 <= j < effects.len() ==> (#[trigger] effects[j]) is Button
            &&& s.after_ep1(msg).buttons == now
            &&& s.after_ep1(msg).leds == s.leds && s.after_ep1(msg).knobs == s.knobs
                && s.after_ep1(msg).pads == s.pads
        }),
{
    law_diff_is_the_change(now, s.buttons, b, down);
    let changes = changed_buttons(now, s.buttons);
    let effects = s.ep1_effects(Some(Ep1Content::Buttons(now)));
    assert(effects.len() == changes.len());
    if effects.contains(UsbEffect::Button(b, down)) {
        let j = choose|j: int| 0 <= j < effects.len() && effects[j] == UsbEffect::Button(b, down);
        assert(changes[j] == (b, down));
    }
    if changes.contains((b, down)) {
        let j = choose|j: int| 0 <= j < changes.len() && changes[j] == (b, down);
        assert(effects[j] == UsbEffect::Button(b, down));
    }
}

/// Any device that says hello is told to report, gets its backlight lit and
/// its pads listened to, and its session is up with the version it named.
/// Nothing else that it reported before is forgotten.
pub proof fn law_hello_starts_the_session(s: SessionState, info: DeviceInfo, led: Led)
    requires
        s.wf(),
    ensures
        ({
            let msg = Some(Ep1Content::DeviceInfo(info));
            let effects = s.ep1_effects(msg);
            let after = s.after_ep1(msg);
            &&& effects.len() == 4
            &&& effects[0] == UsbEffect::Send(seq![0x0bu8, 1, 10, 5])
            &&& effects[1] is FlushLeds
            &&& effects[2] is ListenPads
            &&& effects[3] == UsbEffect::SessionUp { fw_version: info.fw_version }
            &&& after.wf()
            &&& after.leds.level[59] == 0x2e
            &&& led != Led::Backlight ==> after.leds.level[led_position(led)]
                == s.leds.level[led_position(led)]
            &&& after.knobs == s.knobs && after.buttons == s.buttons && after.pads == s.pads
        }),
{
    law_set_changes_one_led(s.leds, Led::Backlight, 0x2e, led, 0);
}

/// MIDI that comes in is announced with its length, and no other message does
/// anything.
pub proof fn law_other_messages_change_nothing(
    s: SessionState,
    port: u8,
    data: Seq<u8>,
    cmd: u8,
    payload: Seq<u8>,
)
    ensures
        s.after_ep1(Some(Ep1Content::Midi { port, data })) == s,
        s.ep1_effects(Some(Ep1Content::Midi { port, data })) == seq![
            UsbEffect::MidiIn(data.len() as int),
        ],
        s.after_ep1(Some(Ep1Content::Unknown { cmd, payload })) == s,
        s.ep1_effects(Some(Ep1Content::Unknown { cmd, payload })).len() == 0,
        s.after_ep1(None) == s,
        s.ep1_effects(None).len() == 0,
{
}

/// A message is dropped only where eight wait already, and dropping it changes
/// nothing.
pub proof fn law_only_a_full_queue_drops(q: Outbox, msg: Seq<u8>)
    requires
        q.wf(),
        msg.len() <= MESSAGE_MAX,
    ensures
        q.full() <==> q.waiting.len() == 8,
        q.full() ==> q.after_send(msg) == q,
        q.after_send(msg).wf(),
{
}

/// The endpoint has one message at a time, and is never idle while one waits:
/// a busy one is given nothing, a free one the oldest.
pub proof fn law_endpoint_is_kept_busy(q: Outbox, msg: Seq<u8>)
    ensures
        q.busy ==> q.next() is None && q.pumped() == q,
        !q.busy && q.waiting.len() > 0 ==> q.next() == Some(q.waiting[0]) && q.pumped().busy
            && q.pumped().waiting == q.waiting.skip(1),
        q.waiting.len() == 0 ==> q.next() is None && q.pumped() == q,
        !q.pumped().busy ==> q.pumped().waiting.len() == 0,
        !q.idle().busy && q.idle().waiting == q.waiting,
        !q.full() ==> q.after_send(msg).busy,
{
}

/// A flush with up to five commands waiting brings the device up to date; with
/// six or more it sends nothing and forgets nothing, so that the next one does.
pub proof fn law_flush_brings_device_up_to_date_or_waits(
    s: SessionState,
    q: Outbox,
    shown: Seq<u8>,
)
    requires
        s.wf(),
        device_in_step(shown, s.leds),
    ensures
        q.waiting.len() < 6 ==> device_after(shown, s.flush_frames(q)) == s.leds.level
            && device_in_step(s.leds.level, s.after_flush(q).leds),
        q.waiting.len() >= 6 ==> s.flush_frames(q).len() == 0 && s.after_flush(q) == s,
        s.after_flush(q).leds.level == s.leds.level,
        s.after_flush(q).knobs == s.knobs && s.after_flush(q).buttons == s.buttons
            && s.after_flush(q).pads == s.pads,
{
    law_frames_bring_device_up_to_date(shown, s.leds);
}

/// A session starts with nothing reported and every LED off.
pub proof fn law_session_starts_afresh(i: int, led: Led, b: Button)
    ensures
        ({
            let s = SessionState::initial();
            &&& s.wf()
            &&& 0 <= i < 11 ==> s.knobs[i] is None
            &&& 0 <= i < 16 ==> s.pads[i] == 0
            &&& s.leds.level[led_position(led)] == 0
            &&& !is_pressed(s.buttons, b)
        }),
{
    let k = crate::input::button_bit(b);
    assert(0u64 & (1u64 << k) == 0) by (bit_vector);
}

} // verus!
