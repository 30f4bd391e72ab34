use maschine_mk1::controls::{
    bank_letter, banked_key, group_index, led_slot, softkey_index, LedSlot, GROUP_LEDS,
    SOFTKEY_LEDS,
};
use maschine_mk1::engine::{sync_due, Action, Engine, Event};
use maschine_mk1::input::Button;
use maschine_mk1::leds::Led;
use maschine_mk1::osc::{osc_msg_i, osc_msg_s};
use maschine_mk1::profile::{Entry, Profile};

fn emit(addr: &str, num: u16, den: u16) -> Action {
    Action::Emit { addr: addr.to_string(), num, den }
}

fn groups(lit: usize) -> Vec<Action> {
    (0..8).map(|g| Action::Led(GROUP_LEDS[g], if g == lit { 63 } else { 0 })).collect()
}

fn press(e: &mut Engine, b: Button) -> Vec<Action> {
    e.on_event(Event::Button(b, true))
}

fn release(e: &mut Engine, b: Button) -> Vec<Action> {
    e.on_event(Event::Button(b, false))
}

fn led_in(e: &mut Engine, addr: &str, b: u8) -> Vec<Action> {
    e.on_event(Event::In(addr.to_string(), b))
}

#[test]
fn control_keys() {
    assert_eq!(bank_letter(0), 'a');
    assert_eq!(bank_letter(7), 'h');
    assert_eq!(bank_letter(256), 'a');
    assert_eq!(banked_key(2, "knob", 8), "c/knob/8");
    assert_eq!(banked_key(7, "pad", 16), "h/pad/16");
    assert_eq!(group_index(Button::GroupE), Some(4));
    assert_eq!(group_index(Button::Play), None);
    assert_eq!(softkey_index(Button::Softkey8), Some(7));
    assert_eq!(softkey_index(Button::GroupA), None);
    for (i, b) in [Button::GroupA, Button::GroupB, Button::GroupH].iter().enumerate() {
        let g = group_index(*b).unwrap();
        assert_eq!(Led::for_button(*b), Some(GROUP_LEDS[g]));
        assert!(i <= g);
    }
}

#[test]
fn keys_name_leds() {
    assert_eq!(led_slot("a/pad/3"), Some(LedSlot::Pad(0, 2)));
    assert_eq!(led_slot("h/pad/16"), Some(LedSlot::Pad(7, 15)));
    assert_eq!(led_slot("b/softkey/1"), Some(LedSlot::Softkey(1, 0)));
    assert_eq!(led_slot("button/rec"), Some(LedSlot::Button(Led::Rec)));
    assert_eq!(led_slot("a/pad/0"), None);
    assert_eq!(led_slot("a/pad/17"), None);
    assert_eq!(led_slot("a/softkey/9"), None);
    assert_eq!(led_slot("i/pad/1"), None);
    assert_eq!(led_slot("aa/pad/1"), None);
    assert_eq!(led_slot("a/knob/1"), None);
    assert_eq!(led_slot("a/pad/1/2"), None);
    assert_eq!(led_slot("a/pad"), None);
    assert_eq!(led_slot("button/group_a"), None); // device-owned
    assert_eq!(led_slot("button/softkey1"), None); // addressed banked
    assert_eq!(led_slot("button/nothing"), None);
    assert_eq!(led_slot(""), None);
    for bank in 0..8 {
        for n in 1..=16u64 {
            let slot = led_slot(&banked_key(bank, "pad", n));
            assert_eq!(slot, Some(LedSlot::Pad(bank, n as usize - 1)));
        }
    }
}

#[test]
fn unmapped_controls_use_generated_addresses() {
    let mut e = Engine::new();
    assert_eq!(e.on_event(Event::Pad(12, 4095)), vec![emit("/maschine/a/pad/1", 4095, 4095)]);
    assert_eq!(e.on_event(Event::Pad(0, 7)), vec![emit("/maschine/a/pad/13", 7, 4095)]);
    assert_eq!(e.on_event(Event::Knob(8, 999)), vec![emit("/maschine/volume", 999, 999)]);
    assert_eq!(e.on_event(Event::Knob(9, 1)), vec![emit("/maschine/tempo", 1, 999)]);
    assert_eq!(e.on_event(Event::Knob(10, 0)), vec![emit("/maschine/swing", 0, 999)]);
    assert_eq!(press(&mut e, Button::Play), vec![emit("/maschine/button/play", 1, 1)]);
    assert_eq!(release(&mut e, Button::Play), vec![emit("/maschine/button/play", 0, 1)]);
    assert_eq!(press(&mut e, Button::Softkey3), vec![emit("/maschine/a/softkey/3", 1, 1)]);
}

fn turn(bank: usize, knob: usize, delta: i32, to: &str) -> Vec<Action> {
    vec![Action::Turn {
        bank,
        knob,
        delta,
        scale: None,
        wrap: false,
        to: Some(to.to_string()),
    }]
}

#[test]
fn knobs_turn_the_shortest_way() {
    let mut e = Engine::new();
    let a = "/maschine/a/knob/1";
    assert_eq!(e.on_event(Event::Knob(0, 990)), turn(0, 0, 0, a)); // first reading
    assert_eq!(e.on_event(Event::Knob(0, 10)), turn(0, 0, 20, a));
    assert_eq!(e.on_event(Event::Knob(0, 990)), turn(0, 0, -20, a));
    assert_eq!(e.on_event(Event::Knob(0, 490)), turn(0, 0, -500, a));
    assert_eq!(e.on_event(Event::Knob(0, 990)), turn(0, 0, 500, a));
    assert_eq!(e.on_event(Event::Knob(7, 5)), turn(0, 7, 0, "/maschine/a/knob/8"));
}

#[test]
fn profile_remaps_and_silences() {
    let mut e = Engine::new();
    let mut p = Profile::new();
    p.map.insert(
        "a/knob/2".to_string(),
        Entry {
            osc: Some("/trim".to_string()),
            mode: Some("wrap".to_string()),
            scale: Some(0.15f64.to_bits()),
            ..Entry::new()
        },
    );
    p.map.insert("button/play".to_string(), Entry::new());
    p.map.insert("b/knob/2".to_string(), Entry { mode: Some("clamp".to_string()), ..Entry::new() });
    e.reload(1, p);
    assert_eq!(
        e.on_event(Event::Knob(1, 3)),
        vec![Action::Turn {
            bank: 0,
            knob: 1,
            delta: 0,
            scale: Some(0.15f64.to_bits()),
            wrap: true,
            to: Some("/trim".to_string()),
        }]
    );
    assert_eq!(press(&mut e, Button::Play), vec![]);
    press(&mut e, Button::Shift);
    press(&mut e, Button::GroupB);
    // the entry of another bank: no address, but the position still advances
    assert_eq!(
        e.on_event(Event::Knob(1, 5)),
        vec![Action::Turn { bank: 1, knob: 1, delta: 2, scale: None, wrap: false, to: None }]
    );
}

#[test]
fn bare_group_presses_are_inert() {
    let mut e = Engine::new();
    assert_eq!(press(&mut e, Button::GroupC), vec![]);
    assert_eq!(release(&mut e, Button::GroupC), vec![]);
    assert_eq!(e.on_event(Event::Pad(12, 1)), vec![emit("/maschine/a/pad/1", 1, 4095)]);
}

#[test]
fn shift_and_group_select_a_bank() {
    let mut e = Engine::new();
    let mut expected = groups(0);
    expected.push(emit("/maschine/button/shift", 1, 1));
    assert_eq!(press(&mut e, Button::Shift), expected);
    assert_eq!(press(&mut e, Button::GroupA), vec![]); // active already

    let mut expected = vec![Action::Send(osc_msg_s("/maschine/bank", "c"))];
    expected.extend(groups(2));
    expected.extend((0..16).map(|i| Action::Led(Led::pad(i), 0)));
    expected.extend((0..8).map(|i| Action::Led(SOFTKEY_LEDS[i], 0)));
    assert_eq!(press(&mut e, Button::GroupC), expected);
    assert_eq!(release(&mut e, Button::GroupC), vec![]);
    assert_eq!(press(&mut e, Button::Softkey8), vec![emit("/maschine/c/softkey/8", 1, 1)]);
}

#[test]
fn control_and_group_select_a_profile() {
    let mut e = Engine::new();
    press(&mut e, Button::Control);
    assert_eq!(press(&mut e, Button::GroupH), vec![Action::StoreSlot(7), Action::Reload]);
    // while Control is held the groups show the profile
    let mut expected = vec![Action::Retarget(None)];
    expected.extend(groups(7));
    assert_eq!(e.reload(7, Profile::new()), expected);
    // Shift wins
    let mut expected = groups(0);
    expected.push(emit("/maschine/button/shift", 1, 1));
    assert_eq!(press(&mut e, Button::Shift), expected);
    assert_eq!(
        press(&mut e, Button::GroupB)[0],
        Action::Send(osc_msg_s("/maschine/bank", "b"))
    );
}

#[test]
fn reload_registers_for_feedback() {
    let mut e = Engine::new();
    assert_eq!(e.sync_now(), vec![]);
    let mut p = Profile::new();
    p.target = Some("10.0.0.5:9000".to_string());
    p.sync = Some("/rustjay/sync".to_string());
    let mut expected = vec![Action::Retarget(Some("10.0.0.5:9000".to_string()))];
    expected.extend(groups(0));
    expected.push(Action::Send(osc_msg_i("/rustjay/sync", 9001)));
    assert_eq!(e.reload(3, p), expected);
    assert_eq!(e.sync_now(), vec![Action::Send(osc_msg_i("/rustjay/sync", 9001))]);
    assert_eq!(e.on_event(Event::Reload), vec![Action::Reload]);
    // again every five seconds
    assert_eq!(e.tick(4999), vec![]);
    assert_eq!(e.tick(5000), vec![Action::Send(osc_msg_i("/rustjay/sync", 9001))]);
    assert!(!sync_due(4999) && sync_due(5000));
    assert_eq!(Engine::new().tick(6000), vec![]);
}

#[test]
fn led_writes_are_banked() {
    let mut e = Engine::new();
    assert_eq!(led_in(&mut e, "/maschine/led/a/pad/3", 40), vec![Action::Led(Led::Pad3, 40)]);
    assert_eq!(led_in(&mut e, "/maschine/led/b/pad/3", 50), vec![]);
    assert_eq!(led_in(&mut e, "/maschine/led/b/softkey/2", 60), vec![]);
    // legacy names mean the active bank
    assert_eq!(led_in(&mut e, "/maschine/led/pad/4", 10), vec![Action::Led(Led::Pad4, 10)]);
    assert_eq!(
        led_in(&mut e, "/maschine/led/softkey2", 11),
        vec![Action::Led(Led::Softkey2, 11)]
    );
    assert_eq!(led_in(&mut e, "/maschine/led/rec", 12), vec![Action::Led(Led::Rec, 12)]);
    assert_eq!(
        led_in(&mut e, "/maschine/led/backlight", 13),
        vec![Action::Led(Led::Backlight, 13)]
    );
    assert_eq!(led_in(&mut e, "/maschine/led/group_a", 14), vec![]);
    assert_eq!(led_in(&mut e, "/maschine/led/pad/17", 14), vec![]);
    assert_eq!(led_in(&mut e, "/maschine/led/nothing", 14), vec![]);
    assert_eq!(led_in(&mut e, "/other", 14), vec![]);

    // switching shows what was written to the bank before
    press(&mut e, Button::Shift);
    let actions = press(&mut e, Button::GroupB);
    assert!(actions.contains(&Action::Led(Led::Pad3, 50)));
    assert!(actions.contains(&Action::Led(Led::Pad4, 0)));
    assert!(actions.contains(&Action::Led(Led::Softkey2, 60)));
    let actions = press(&mut e, Button::GroupA);
    assert!(actions.contains(&Action::Led(Led::Pad3, 40)));
    assert!(actions.contains(&Action::Led(Led::Pad4, 10)));
    assert!(actions.contains(&Action::Led(Led::Softkey2, 11)));
}

#[test]
fn feedback_drives_leds() {
    let mut e = Engine::new();
    let mut p = Profile::new();
    let source = |s: &str| Entry { led_source: Some(s.to_string()), ..Entry::new() };
    p.map.insert("a/pad/1".to_string(), source("/loaded/1"));
    p.map.insert("b/pad/2".to_string(), source("/loaded/2"));
    p.map.insert("button/rec".to_string(), source("/rec"));
    p.map.insert("volume".to_string(), source("/vol")); // has no LED
    p.map.insert("button/group_a".to_string(), source("/grp")); // device-owned
    p.map.insert("a/pad/9".to_string(), source("/rec"));
    e.reload(0, p);
    assert_eq!(led_in(&mut e, "/loaded/1", 63), vec![Action::Led(Led::Pad1, 63)]);
    assert_eq!(led_in(&mut e, "/loaded/2", 63), vec![]); // remembered for bank b
    assert_eq!(led_in(&mut e, "/rec", 5), vec![Action::Led(Led::Pad9, 5)]); // the later entry
    assert_eq!(led_in(&mut e, "/vol", 5), vec![]);
    assert_eq!(led_in(&mut e, "/grp", 5), vec![]);
    e.reload(0, Profile::new());
    assert_eq!(led_in(&mut e, "/loaded/1", 63), vec![]);
}
