//! Names of the controls: banks, groups, softkeys, and the keys that profiles
//! and LED addresses are written in.

use vstd::prelude::*;
use vstd::string::StringExecFns;

use crate::input::{button_by_name, button_name, law_button_is_named, named_button, Button};
use crate::leds::{button_led, Led};
use crate::text::{
    after_prefix, chars_of, decimal, law_decimal_reads_back, parse_uint, parsed_uint, push_decimal,
    strip_prefix,
};

verus! {

/// Number of banks.
pub const BANKS: usize = 8;

/// The letter of a bank.
pub open spec fn letter(bank: int) -> char {
    (97 + bank) as char
}

/// The letter of a bank: `a` to `h`. Only the low byte of the number counts.
pub fn bank_letter(b: usize) -> (r: char)
    requires
        b % 256 <= 158,
    ensures
        r == letter(b as int % 256),
{
    (97u8 + (b % 256) as u8) as char
}

/// The bank that a group button selects.
pub open spec fn group_bank(b: Button) -> Option<usize> {
    match b {
        Button::GroupA => Some(0),
        Button::GroupB => Some(1),
        Button::GroupC => Some(2),
        Button::GroupD => Some(3),
        Button::GroupE => Some(4),
        Button::GroupF => Some(5),
        Button::GroupG => Some(6),
        Button::GroupH => Some(7),
        _ => None,
    }
}

/// The bank that a group button selects; none for other buttons.
pub fn group_index(b: Button) -> (r: Option<usize>)
    ensures
        r == group_bank(b),
{
    match b {
        Button::GroupA => Some(0),
        Button::GroupB => Some(1),
        Button::GroupC => Some(2),
        Button::GroupD => Some(3),
        Button::GroupE => Some(4),
        Button::GroupF => Some(5),
        Button::GroupG => Some(6),
        Button::GroupH => Some(7),
        _ => None,
    }
}

/// The place of a softkey in its row.
pub open spec fn softkey_place(b: Button) -> Option<usize> {
    match b {
        Button::Softkey1 => Some(0),
        Button::Softkey2 => Some(1),
        Button::Softkey3 => Some(2),
        Button::Softkey4 => Some(3),
        Button::Softkey5 => Some(4),
        Button::Softkey6 => Some(5),
        Button::Softkey7 => Some(6),
        Button::Softkey8 => Some(7),
        _ => None,
    }
}

/// The place of a softkey in its row; none for other buttons.
pub fn softkey_index(b: Button) -> (r: Option<usize>)
    ensures
        r == softkey_place(b),
{
    match b {
        Button::Softkey1 => Some(0),
        Button::Softkey2 => Some(1),
        Button::Softkey3 => Some(2),
        Button::Softkey4 => Some(3),
        Button::Softkey5 => Some(4),
        Button::Softkey6 => Some(5),
        Button::Softkey7 => Some(6),
        Button::Softkey8 => Some(7),
        _ => None,
    }
}

/// LEDs of the group buttons, by bank.
pub const GROUP_LEDS: [Led; 8] = [
    Led::GroupA,
    Led::GroupB,
    Led::GroupC,
    Led::GroupD,
    Led::GroupE,
    Led::GroupF,
    Led::GroupG,
    Led::GroupH,
];

/// LEDs of the softkeys, by place.
pub const SOFTKEY_LEDS: [Led; 8] = [
    Led::Softkey1,
    Led::Softkey2,
    Led::Softkey3,
    Led::Softkey4,
    Led::Softkey5,
    Led::Softkey6,
    Led::Softkey7,
    Led::Softkey8,
];

/// The tables of group and softkey LEDs hold the LED behind each button.
pub proof fn law_tables_match_buttons(b: Button)
    ensures
        group_bank(b) matches Some(g) ==> g < 8 && GROUP_LEDS@[g as int] == button_led(b),
        softkey_place(b) matches Some(i) ==> i < 8 && SOFTKEY_LEDS@[i as int] == button_led(b),
{
}

/// The key of a banked control: bank letter, kind, number from 1.
pub open spec fn control_key(bank: int, kind: Seq<char>, number: nat) -> Seq<char> {
    seq![letter(bank), '/'] + kind + seq!['/'] + decimal(number)
}

/// The key of a banked control.
pub fn banked_key(bank: usize, kind: &str, number: u64) -> (r: String)
    requires
        bank < BANKS,
    ensures
        r@ == control_key(bank as int, kind@, number as nat),
{
    let mut out = String::new();
    out.push(bank_letter(bank));
    out.push('/');
    out.append(kind);
    out.push('/');
    push_decimal(&mut out, number);
    assert(out@ =~= control_key(bank as int, kind@, number as nat));
    out
}

/// An LED that a value can land on. The banked ones carry bank and index.
#[derive(Debug, Clone, Copy, PartialEq, Eq, Structural)]
pub enum LedSlot {
    Pad(usize, usize),
    Softkey(usize, usize),
    Button(Led),
}

/// Whether a slot is one of the eight banks' pads or softkeys, or a button.
pub open spec fn slot_ok(slot: LedSlot) -> bool {
    match slot {
        LedSlot::Pad(bank, i) => bank < 8 && i < 16,
        LedSlot::Softkey(bank, i) => bank < 8 && i < 8,
        LedSlot::Button(_) => true,
    }
}

/// The index of a control numbered from 1 to `count`.
pub open spec fn numbered(text: Seq<char>, count: nat) -> Option<usize> {
    match parsed_uint(text, count) {
        Some(n) => if n >= 1 {
            Some((n - 1) as usize)
        } else {
            None
        },
        None => None,
    }
}

/// Read the number of a control, from 1 to `count`, as its index.
pub fn read_number(text: &str, count: u32) -> (r: Option<usize>)
    ensures
        r == numbered(text@, count as nat),
        r matches Some(i) ==> i < count,
{
    match parse_uint(text, count) {
        Some(n) => if n >= 1 {
            Some((n - 1) as usize)
        } else {
            None
        },
        None => None,
    }
}

/// The LED that a control owns: `"<a-h>/pad/<1-16>"`, `"<a-h>/softkey/<1-8>"`
/// or `"button/<name>"`. Group LEDs belong to the device, and softkeys are
/// addressed by bank.
pub open spec fn led_of_key(key: Seq<char>) -> Option<LedSlot> {
    match after_prefix(key, "button/"@) {
        Some(name) => match named_button(name) {
            Some(b) => if group_bank(b) is Some || softkey_place(b) is Some {
                None
            } else {
                Some(LedSlot::Button(button_led(b)))
            },
            None => None,
        },
        None => if key.len() >= 2 && 'a' <= key[0] <= 'h' && key[1] == '/' {
            let bank = (key[0] as int - 97) as usize;
            match (after_prefix(key.skip(2), "pad/"@), after_prefix(key.skip(2), "softkey/"@)) {
                (Some(n), _) => match numbered(n, 16) {
                    Some(i) => Some(LedSlot::Pad(bank, i)),
                    None => None,
                },
                (None, Some(n)) => match numbered(n, 8) {
                    Some(i) => Some(LedSlot::Softkey(bank, i)),
                    None => None,
                },
                (None, None) => None,
            }
        } else {
            None
        },
    }
}

/// The LED that the control with this key owns, if any.
pub fn led_slot(key: &str) -> (r: Option<LedSlot>)
    ensures
        r == led_of_key(key@),
        r matches Some(slot) ==> slot_ok(slot),
{
    if let Some(name) = strip_prefix(key, "button/") {
        return match button_by_name(name) {
            Some(b) => {
                if group_index(b).is_some() || softkey_index(b).is_some() {
                    None
                } else {
                    match Led::for_button(b) {
                        Some(led) => Some(LedSlot::Button(led)),
                        None => None,
                    }
                }
            },
            None => None,
        };
    }
    let all = chars_of(key);
    if all.len() < 2 || all[0] < 'a' || all[0] > 'h' || all[1] != '/' {
        return None;
    }
    let bank: usize = (all[0] as u32 - 97) as usize;
    let rest = key.substring_char(2, all.len());
    assert(rest@ == key@.skip(2));
    if let Some(n) = strip_prefix(rest, "pad/") {
        return match read_number(n, 16) {
            Some(i) => Some(LedSlot::Pad(bank, i)),
            None => None,
        };
    }
    if let Some(n) = strip_prefix(rest, "softkey/") {
        return match read_number(n, 8) {
            Some(i) => Some(LedSlot::Softkey(bank, i)),
            None => None,
        };
    }
    None
}

/// The generated key of a pad or a softkey names that control's LED, and the
/// generated key of a button its LED unless it is a group or a softkey.
pub proof fn law_keys_name_their_leds(bank: int, index: nat, b: Button)
    requires
        0 <= bank < 8,
    ensures
        index < 16 ==> led_of_key(control_key(bank, "pad"@, index + 1)) == Some(
            LedSlot::Pad(bank as usize, index as usize),
        ),
        index < 8 ==> led_of_key(control_key(bank, "softkey"@, index + 1)) == Some(
            LedSlot::Softkey(bank as usize, index as usize),
        ),
        led_of_key("button/"@ + button_name(b)) == if group_bank(b) is Some || softkey_place(
            b,
        ) is Some {
            None
        } else {
            Some(LedSlot::Button(button_led(b)))
        },
{
    reveal_strlit("button/");
    reveal_strlit("pad/");
    reveal_strlit("softkey/");
    reveal_strlit("pad");
    reveal_strlit("softkey");
    if index < 16 {
        let key = control_key(bank, "pad"@, index + 1);
        assert(key[1] != "button/"@[1] && key.take(7)[1] == key[1]);
        assert(key.skip(2).take(4) =~= "pad/"@);
        assert(key.skip(2).skip(4) =~= decimal(index + 1));
        law_decimal_reads_back(index + 1, 16);
    }
    if index < 8 {
        let key = control_key(bank, "softkey"@, index + 1);
        assert(key[1] != "button/"@[1] && key.take(7)[1] == key[1]);
        assert(key.skip(2).take(4)[0] != "pad/"@[0]);
        assert(key.skip(2).take(8) =~= "softkey/"@);
        assert(key.skip(2).skip(8) =~= decimal(index + 1));
        law_decimal_reads_back(index + 1, 8);
    }
    let key = "button/"@ + button_name(b);
    assert(key.take(7) =~= "button/"@);
    assert(key.skip(7) =~= button_name(b));
    law_button_is_named(b);
}

} // verus!
