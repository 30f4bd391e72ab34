//! What holds of the input reports as a whole: which angle, button, pad and
//! message each of them stands for.

use vstd::prelude::*;

use crate::controls::{group_bank, letter, softkey_place};
use crate::input::{
    button_bit, button_index, button_name, button_states, changed_among, changed_buttons,
    ep1_content, erp_angle_a, erp_angle_b, erp_position, erp_positions, erp_weight_b, knob_name,
    law_all_buttons, law_erp_range, pad_words, printed_pad, Button, ButtonStates, Ep1Content, Knob,
    ERP_OFFSETS,
};
use crate::leds::{button_led, led_position};
use crate::text::{decimal, digit};
use crate::{device_info, DeviceInfo};

verus! {

/// What a reading of a taper can be: it is cut off at both ends.
pub open spec fn reading(v: int) -> int {
    if v < 0 {
        0
    } else if v > 255 {
        255
    } else {
        v
    }
}

/// The first taper at angle `t` of 550: it rises for half a turn and falls for
/// the other half, between -7 and 268.
pub open spec fn first_taper(t: int) -> int {
    if t <= 275 {
        reading(t - 7)
    } else {
        reading(543 - t)
    }
}

/// The second taper at angle `t` of 550: the same wave a quarter turn on.
pub open spec fn second_taper(t: int) -> int {
    if t <= 137 {
        reading(t + 131)
    } else if t <= 412 {
        reading(405 - t)
    } else {
        reading(t - 419)
    }
}

proof fn lemma_blend(x: int, y: int, w: int)
    by (nonlinear_arith)
    ensures
        x * (100 - w) + x * w == 100 * x,
        x * (100 - 0) + y * 0 == 100 * x,
        x * (100 - 100) + y * 100 == 100 * y,
{
}

/// The position of a knob is its angle: whatever the angle, the two taper
/// readings there decode to it, scaled to 1000 steps a turn.
pub proof fn law_position_is_the_angle(t: int)
    requires
        0 <= t < 550,
    ensures
        erp_position(first_taper(t), second_taper(t)) == t * 1000 / 550,
{
    let a = first_taper(t);
    let b = second_taper(t);
    let w = erp_weight_b(a);
    let x = erp_angle_a(a, b);
    let y = erp_angle_b(a, b);
    lemma_blend(x, y, w);
    assert(x * (100 - w) + y * w == 100 * t) by {
        if w == 0 {
            assert(x == t);
        } else if w == 100 {
            assert(y == t);
        } else {
            assert(x == t && y == t);
        }
    }
}

/// A turned knob never jumps: one step of the angle moves the position by two
/// at most, also across the end of the circle.
pub proof fn law_position_moves_with_the_angle(t: int)
    requires
        0 <= t < 550,
    ensures
        ({
            let next = (t + 1) % 550;
            let step = (erp_position(first_taper(next), second_taper(next)) - erp_position(
                first_taper(t),
                second_taper(t),
            )) % 1000;
            1 <= step <= 2
        }),
{
    law_position_is_the_angle(t);
    law_position_is_the_angle((t + 1) % 550);
}

/// With the first taper at its middle the second one tells the halves of the
/// circle apart, and the two crossings are half a turn apart.
pub proof fn law_second_taper_tells_halves_apart(b: u8, c: u8)
    requires
        b > 130,
        c <= 130,
    ensures
        erp_position(130, b as int) < 500,
        erp_position(130, c as int) >= 500,
        498 <= erp_position(130, c as int) - erp_position(130, b as int) <= 502,
{
    lemma_blend(137, erp_angle_b(130, b as int), 0);
    lemma_blend(413, erp_angle_b(130, c as int), 0);
}

/// On the straight part of the first taper it alone gives the position, and
/// near its peaks the second one alone does. In between the second one counts
/// the more, percent by percent, the further the first is from its middle.
pub proof fn law_tapers_share_the_position(a: u8, b: u8)
    ensures
        ({
            let away = if a < 130 {
                130 - a
            } else {
                a - 130
            };
            let by_first = if b > 130 {
                a + 7
            } else {
                543 - a
            };
            let by_second = if a >= 130 {
                405 - b
            } else if b < 131 {
                b + 419
            } else {
                b - 131
            };
            let p = erp_position(a as int, b as int);
            &&& away <= 18 ==> p == by_first * 1000 / 550
            &&& away >= 118 ==> p == by_second * 1000 / 550
            &&& 18 < away < 118 ==> p == (by_first * (118 - away) + by_second * (away - 18)) * 10
                / 550
        }),
{
    let a = a as int;
    let b = b as int;
    lemma_blend(
        erp_angle_a(a, b),
        erp_angle_b(a, b),
        erp_weight_b(a),
    );
}

/// Where the knobs are in a report: three rows of four, two bytes each, the
/// last knob of a row first. Each knob's position depends on its own two bytes
/// alone.
pub proof fn law_knobs_have_their_bytes(payload: Seq<u8>, i: int)
    requires
        payload.len() >= 22,
        0 <= i < 11,
    ensures
        ({
            let at = 21 - 2 * (i / 4) - 6 * (i % 4);
            erp_positions(payload)[i] == erp_position(payload[at] as int, payload[at - 1] as int)
        }),
{
    let at = 21 - 2 * (i / 4) - 6 * (i % 4);
    assert(ERP_OFFSETS@[i].0 == at && ERP_OFFSETS@[i].1 == at - 1);
    law_erp_range(payload[at], payload[at - 1]);
}

/// Knobs are named by their number, the last three by what they do, and no two
/// share a name.
pub proof fn law_knob_names(i: int, j: int)
    requires
        0 <= i < 11,
        0 <= j < 11,
    ensures
        i < 8 ==> knob_name(Knob::ALL@[i]) == "knob/"@ + decimal((i + 1) as nat),
        i == 8 ==> knob_name(Knob::ALL@[i]) == "volume"@,
        i == 9 ==> knob_name(Knob::ALL@[i]) == "tempo"@,
        i == 10 ==> knob_name(Knob::ALL@[i]) == "swing"@,
        knob_name(Knob::ALL@[i]) == knob_name(Knob::ALL@[j]) ==> i == j,
{
    reveal_strlit("knob/");
    reveal_strlit("knob/1");
    reveal_strlit("knob/2");
    reveal_strlit("knob/3");
    reveal_strlit("knob/4");
    reveal_strlit("knob/5");
    reveal_strlit("knob/6");
    reveal_strlit("knob/7");
    reveal_strlit("knob/8");
    reveal_strlit("volume");
    reveal_strlit("tempo");
    reveal_strlit("swing");
    let (a, b) = (knob_name(Knob::ALL@[i]), knob_name(Knob::ALL@[j]));
    if i < 8 {
        assert(decimal((i + 1) as nat) =~= seq![digit((i + 1) as nat)]);
        assert(a =~= "knob/"@ + decimal((i + 1) as nat));
    }
    if a == b {
        assert(a.len() == b.len() && a[0] == b[0] && a[a.len() - 1] == b[b.len() - 1]);
    }
}

/// Every button has a READ_IO bit of its own, the reserved one is nobody's,
/// the bits follow `Button::ALL`, and only the softkeys run the other way.
pub proof fn law_buttons_have_their_bits(i: int)
    requires
        0 <= i < 41,
    ensures
        button_bit(Button::ALL@[i]) == if i < 8 {
            i
        } else if 31 <= i < 39 {
            70 - i
        } else {
            i + 1
        },
{
}

/// The names of the buttons by READ_IO bit, as on the unit.
pub open spec fn names_by_bit() -> Seq<Seq<char>> {
    seq![
        "mute"@,
        "solo"@,
        "select"@,
        "duplicate"@,
        "navigate"@,
        "pad_mode"@,
        "pattern"@,
        "scene"@,
        ""@,
        "rec"@,
        "erase"@,
        "shift"@,
        "grid"@,
        "step_right"@,
        "step_left"@,
        "restart"@,
        "group_e"@,
        "group_f"@,
        "group_g"@,
        "group_h"@,
        "group_d"@,
        "group_c"@,
        "group_b"@,
        "group_a"@,
        "control"@,
        "browse"@,
        "left"@,
        "snap"@,
        "autowrite"@,
        "right"@,
        "sampling"@,
        "step"@,
        "softkey8"@,
        "softkey7"@,
        "softkey6"@,
        "softkey5"@,
        "softkey4"@,
        "softkey3"@,
        "softkey2"@,
        "softkey1"@,
        "note_repeat"@,
        "play"@,
    ]
}

/// The LED positions of the buttons by READ_IO bit, as on the unit.
pub open spec fn leds_by_bit() -> Seq<int> {
    seq![
        16, 17, 18, 19, 20, 21, 22, 23, -1, 28, 25, 24, 26, 27, 32, 33, 39, 38, 35, 34, 36, 37, 40,
        41, 49, 47, 45, 43, 42, 44, 46, 48, 50, 51, 52, 53, 54, 55, 56, 57, 58, 29,
    ]
}

/// A button's bit, name and LED belong together as they do on the unit.
pub proof fn law_buttons_match_the_unit(b: Button)
    ensures
        button_bit(b) < 42,
        button_bit(b) != 8,
        button_name(b) == names_by_bit()[button_bit(b) as int],
        led_position(button_led(b)) == leds_by_bit()[button_bit(b) as int],
{
}

/// A group button bears its bank's letter, and a softkey its number.
pub proof fn law_groups_and_softkeys_by_name(b: Button)
    ensures
        group_bank(b) matches Some(g) ==> g < 8 && button_name(b) == "group_"@ + seq![
            letter(g as int),
        ],
        softkey_place(b) matches Some(i) ==> i < 8 && button_name(b) == "softkey"@ + decimal(
            (i + 1) as nat,
        ),
{
    reveal_strlit("group_");
    reveal_strlit("group_a");
    reveal_strlit("group_b");
    reveal_strlit("group_c");
    reveal_strlit("group_d");
    reveal_strlit("group_e");
    reveal_strlit("group_f");
    reveal_strlit("group_g");
    reveal_strlit("group_h");
    reveal_strlit("softkey");
    reveal_strlit("softkey1");
    reveal_strlit("softkey2");
    reveal_strlit("softkey3");
    reveal_strlit("softkey4");
    reveal_strlit("softkey5");
    reveal_strlit("softkey6");
    reveal_strlit("softkey7");
    reveal_strlit("softkey8");
    if let Some(g) = group_bank(b) {
        assert(button_name(b) =~= "group_"@ + seq![letter(g as int)]);
    }
    if let Some(i) = softkey_place(b) {
        assert(decimal((i + 1) as nat) =~= seq![digit((i + 1) as nat)]);
        assert(button_name(b) =~= "softkey"@ + decimal((i + 1) as nat));
    }
}

/// A pad report: little-endian words, pad id in the high four bits.
pub open spec fn pad_report(words: Seq<(u8, u16)>) -> Seq<u8>
    decreases words.len(),
{
    if words.len() == 0 {
        Seq::empty()
    } else {
        let v = 4096 * words.last().0 + words.last().1;
        pad_report(words.drop_last()) + seq![(v % 256) as u8, (v / 256) as u8]
    }
}

/// A pad report reads back as the pads and pressures it was made of, in order,
/// whatever pads they are and however often each comes; a byte more at its end
/// adds nothing.
pub proof fn law_pad_report_reads_back(words: Seq<(u8, u16)>, odd: u8)
    requires
        forall|i: int|
            0 <= i < words.len() ==> (#[trigger] words[i]).0 < 16 && words[i].1 < 4096,
    ensures
        pad_report(words).len() == 2 * words.len(),
        pad_words(pad_report(words)) == words,
        pad_words(pad_report(words).push(odd)) == words,
    decreases words.len(),
{
    let all = pad_report(words);
    if words.len() > 0 {
        let rest = words.drop_last();
        assert forall|i: int| 0 <= i < rest.len() implies (#[trigger] rest[i]).0 < 16 && rest[i].1
            < 4096 by {
            assert(rest[i] == words[i]);
        }
        law_pad_report_reads_back(rest, odd);
        let head = pad_report(rest);
        assert forall|i: int| 0 <= i < words.len() implies pad_words(all)[i] == words[i] by {
            if i < rest.len() {
                assert(all[2 * i] == head[2 * i] && all[2 * i + 1] == head[2 * i + 1]);
                assert(pad_words(head)[i] == rest[i]);
            } else {
                assert(words[i] == words.last());
            }
        }
    }
    assert(pad_words(all) =~= words);
    let longer = all.push(odd);
    assert forall|i: int| 0 <= i < words.len() implies pad_words(longer)[i] == words[i] by {
        assert(longer[2 * i] == all[2 * i] && longer[2 * i + 1] == all[2 * i + 1]);
        assert(pad_words(all)[i] == words[i]);
    }
    assert(pad_words(longer) =~= words);
}

/// Printed pad numbers start at the bottom left, grow to the right by one and
/// upwards by four.
pub proof fn law_printed_pads_run_from_bottom_left(raw: int)
    requires
        0 <= raw < 16,
    ensures
        1 <= printed_pad(raw) <= 16,
        raw % 4 != 3 ==> printed_pad(raw + 1) == printed_pad(raw) + 1,
        raw < 12 ==> printed_pad(raw) == printed_pad(raw + 4) + 4,
        raw == 12 ==> printed_pad(raw) == 1,
{
}

/// Every EP 0x81 message is told by its first byte, and says what its payload
/// says: nothing behind a MIDI message's data counts, and a message of no
/// known kind keeps its payload as it is.
pub proof fn law_ep1_messages_read_back(
    payload: Seq<u8>,
    port: u8,
    data: Seq<u8>,
    rest: Seq<u8>,
    cmd: u8,
)
    requires
        data.len() < 256,
    ensures
        ep1_content(seq![0x04u8] + payload) == Some(
            Ep1Content::Buttons(button_states(payload)),
        ),
        ep1_content(seq![0x02u8] + payload) == if payload.len() >= 22 {
            Some(Ep1Content::Knobs(erp_positions(payload)))
        } else {
            None
        },
        ep1_content(seq![0x06u8, port, data.len() as u8] + data + rest) == Some(
            Ep1Content::Midi { port, data },
        ),
        payload.len() < data.len() ==> ep1_content(
            seq![0x06u8, port, data.len() as u8] + payload,
        ) is None,
        cmd != 0x01 && cmd != 0x02 && cmd != 0x04 && cmd != 0x06 ==> ep1_content(
            seq![cmd] + payload,
        ) == Some(Ep1Content::Unknown { cmd, payload }),
        ep1_content(Seq::empty()) is None,
{
    let buttons = seq![0x04u8] + payload;
    assert(buttons.skip(1) =~= payload);
    let knobs = seq![0x02u8] + payload;
    assert(knobs.skip(1) =~= payload);
    let other = seq![cmd] + payload;
    assert(other.skip(1) =~= payload);
    let midi = seq![0x06u8, port, data.len() as u8] + data + rest;
    assert(midi.skip(1) =~= seq![port, data.len() as u8] + data + rest);
    assert(midi.skip(1).subrange(2, 2 + data.len() as int) =~= data);
    let short = seq![0x06u8, port, data.len() as u8] + payload;
    assert(short.skip(1) =~= seq![port, data.len() as u8] + payload);
}

/// A device info reply reads back as the device that sent it, and a reply that
/// is cut short says nothing.
pub proof fn law_device_info_reads_back(info: DeviceInfo, gap: Seq<u8>, rest: Seq<u8>)
    requires
        gap.len() == 4,
    ensures
        ({
            let start = seq![
                0x01u8,
                (info.fw_version % 256) as u8,
                (info.fw_version / 256) as u8,
                info.hw_subtype,
                info.num_erp,
                info.num_analog_in,
                info.num_digital_in,
                info.num_digital_out,
            ] + gap + seq![info.num_midi_out];
            &&& ep1_content(start + seq![info.num_midi_in] + rest) == Some(
                Ep1Content::DeviceInfo(info),
            )
            &&& ep1_content(start) is None
        }),
{
    let start = seq![
        0x01u8,
        (info.fw_version % 256) as u8,
        (info.fw_version / 256) as u8,
        info.hw_subtype,
        info.num_erp,
        info.num_analog_in,
        info.num_digital_in,
        info.num_digital_out,
    ] + gap + seq![info.num_midi_out];
    let whole = start + seq![info.num_midi_in] + rest;
    let p = whole.skip(1);
    assert(p[0] == whole[1] && p[1] == whole[2] && p[2] == whole[3] && p[3] == whole[4]);
    assert(p[4] == whole[5] && p[5] == whole[6] && p[6] == whole[7]);
    assert(p[11] == whole[12] && p[12] == whole[13]);
    assert(device_info(p) == Some(info));
    assert(start.skip(1).len() == 12);
}

proof fn lemma_changes_in_order(now: ButtonStates, prev: ButtonStates, n: int)
    requires
        0 <= n <= 41,
    ensures
        forall|i: int|
            0 <= i < changed_among(now, prev, n).len() ==> button_index(
                (#[trigger] changed_among(now, prev, n)[i]).0,
            ) < n,
        forall|i: int, j: int|
            0 <= i < j < changed_among(now, prev, n).len() ==> button_index(
                (#[trigger] changed_among(now, prev, n)[i]).0,
            ) < button_index((#[trigger] changed_among(now, prev, n)[j]).0),
    decreases n,
{
    if n > 0 {
        lemma_changes_in_order(now, prev, n - 1);
        law_all_buttons(Button::ALL@[n - 1]);
        let before = changed_among(now, prev, n - 1);
        let after = changed_among(now, prev, n);
        assert forall|i: int| 0 <= i < after.len() implies button_index((#[trigger] after[i]).0)
            < n by {
            if i < before.len() {
                assert(after[i] == before[i]);
            }
        }
        assert forall|i: int, j: int| 0 <= i < j < after.len() implies button_index(
            (#[trigger] after[i]).0,
        ) < button_index((#[trigger] after[j]).0) by {
            assert(after[i] == before[i]);
            if j < before.len() {
                assert(after[j] == before[j]);
            }
        }
    }
}

/// A difference names each button once, and the buttons in `Button::ALL` order.
pub proof fn law_diff_names_each_button_once(now: ButtonStates, prev: ButtonStates, i: int, j: int)
    requires
        0 <= i < j < changed_buttons(now, prev).len(),
    ensures
        button_index(changed_buttons(now, prev)[i].0) < button_index(
            changed_buttons(now, prev)[j].0,
        ),
{
    lemma_changes_in_order(now, prev, 41);
}

/// A button's name reads as no path, so that no control key and no pad name is
/// taken for one, nor the backlight.
pub proof fn law_button_names_are_plain(b: Button)
    ensures
        button_name(b).len() >= 3,
        button_name(b)[1] != '/',
        button_name(b).len() > 3 ==> button_name(b)[3] != '/',
        button_name(b).len() > 6 ==> button_name(b)[6] != '/',
        button_name(b) != "backlight"@,
{
    reveal_strlit("backlight");
    reveal_strlit("mute");
    reveal_strlit("solo");
    reveal_strlit("select");
    reveal_strlit("duplicate");
    reveal_strlit("navigate");
    reveal_strlit("pad_mode");
    reveal_strlit("pattern");
    reveal_strlit("scene");
    reveal_strlit("rec");
    reveal_strlit("erase");
    reveal_strlit("shift");
    reveal_strlit("grid");
    reveal_strlit("step_right");
    reveal_strlit("step_left");
    reveal_strlit("restart");
    reveal_strlit("group_a");
    reveal_strlit("group_b");
    reveal_strlit("group_c");
    reveal_strlit("group_d");
    reveal_strlit("group_e");
    reveal_strlit("group_f");
    reveal_strlit("group_g");
    reveal_strlit("group_h");
    reveal_strlit("control");
    reveal_strlit("browse");
    reveal_strlit("left");
    reveal_strlit("snap");
    reveal_strlit("autowrite");
    reveal_strlit("right");
    reveal_strlit("sampling");
    reveal_strlit("step");
    reveal_strlit("softkey1");
    reveal_strlit("softkey2");
    reveal_strlit("softkey3");
    reveal_strlit("softkey4");
    reveal_strlit("softkey5");
    reveal_strlit("softkey6");
    reveal_strlit("softkey7");
    reveal_strlit("softkey8");
    reveal_strlit("note_repeat");
    reveal_strlit("play");
    let name = button_name(b);
    if name == "backlight"@ {
        assert(name.len() == 9 && name[0] == 'b');
    }
}

} // verus!
