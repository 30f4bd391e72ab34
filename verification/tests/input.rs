use maschine_mk1::input::{
    button_by_name, decode_erp, pad_number, parse_erp, parse_pads, Button, ButtonStates, Ep1Message,
    Knob,
};

#[test]
fn erp_matches_kernel_reference() {
    // Hand-computed against the C algorithm: a at mid value, b above mid.
    assert_eq!(decode_erp(130, 200), 249);
    for a in 0..=255u8 {
        for b in [0u8, 60, 130, 200, 255] {
            assert!(decode_erp(a, b) < 1000);
        }
    }
}

#[test]
fn pads_parse() {
    // pad 3 at pressure 0x123, pad 15 at 0xfff
    let buf = [0x23, 0x31, 0xff, 0xff];
    let v: Vec<_> = parse_pads(&buf);
    assert_eq!(v, [(3, 0x123), (15, 0xfff)]);
}

#[test]
fn buttons_diff() {
    let prev = ButtonStates(0);
    let mut payload = [0u8; 6];
    payload[0] = 0x01; // bit 0 = mute
    payload[5] = 0x02; // bit 41 = play
    let now = ButtonStates::parse(&payload);
    assert!(now.pressed(Button::Mute) && now.pressed(Button::Play));
    let d: Vec<_> = now.diff(prev);
    assert_eq!(d, [(Button::Mute, true), (Button::Play, true)]);
}

#[test]
fn knob_order_matches_offsets() {
    // knob1 reads bytes (21,20); put a distinctive pair there.
    let mut payload = [0u8; 22];
    payload[21] = 130;
    payload[20] = 200;
    let knobs = parse_erp(&payload).unwrap();
    assert_eq!(knobs[0], decode_erp(130, 200));
}

#[test]
fn every_taper_pair_is_in_range() {
    for a in 0..=255u8 {
        for b in 0..=255u8 {
            assert!(decode_erp(a, b) < 1000);
        }
    }
}

#[test]
fn names_are_distinct_and_known() {
    for (i, b) in Button::ALL.iter().enumerate() {
        assert_eq!(button_by_name(b.name()), Some(*b));
        for c in &Button::ALL[i + 1..] {
            assert_ne!(b.name(), c.name());
            assert_ne!(b.bit(), c.bit());
        }
    }
    assert_eq!(button_by_name("reserved"), None);
    assert_eq!(Knob::ALL[0].name(), "knob/1");
    assert_eq!(Knob::ALL[10].name(), "swing");
}

#[test]
fn softkey_bits_run_right_to_left() {
    assert_eq!(Button::Softkey8.bit(), 32);
    assert_eq!(Button::Softkey1.bit(), 39);
    assert_eq!(Button::NoteRepeat.bit(), 40);
    assert_eq!(Button::Play.bit(), 41);
    assert_eq!(Button::GroupE.bit(), 16);
    assert_eq!(Button::GroupA.bit(), 23);
}

#[test]
fn buttons_follow_their_bits() {
    for b in Button::ALL {
        let mut payload = [0u8; 6];
        payload[b.bit() as usize / 8] = 1 << (b.bit() % 8);
        let now = ButtonStates::parse(&payload);
        for c in Button::ALL {
            assert_eq!(now.pressed(c), b == c);
        }
        assert_eq!(ButtonStates::default().diff(now), [(b, false)]);
        assert_eq!(now.diff(now), []);
    }
    // a short payload leaves the rest released, a long one changes nothing
    assert_eq!(ButtonStates::parse(&[1]).0, 1);
    assert_eq!(ButtonStates::parse(&[]).0, 0);
}

#[test]
fn printed_pad_numbers() {
    assert_eq!(pad_number(0), 13);
    assert_eq!(pad_number(3), 16);
    assert_eq!(pad_number(12), 1);
    assert_eq!(pad_number(15), 4);
    let mut seen = [false; 17];
    for raw in 0..16 {
        let n = pad_number(raw) as usize;
        assert!(!seen[n]);
        seen[n] = true;
    }
}

#[test]
fn ep1_messages() {
    assert_eq!(Ep1Message::parse(&[]), None);
    assert_eq!(Ep1Message::parse(&[0x01, 0]), None);
    assert!(matches!(
        Ep1Message::parse(&[0x01, 1, 0, 0, 11, 0, 42, 62, 0, 0, 0, 0, 1, 1]),
        Some(Ep1Message::DeviceInfo(i)) if i.num_erp == 11
    ));
    assert_eq!(Ep1Message::parse(&[0x02; 22]), None); // 21 bytes of payload
    assert!(matches!(Ep1Message::parse(&[0x02; 23]), Some(Ep1Message::Knobs(_))));
    assert_eq!(
        Ep1Message::parse(&[0x04, 0x01]),
        Some(Ep1Message::Buttons(ButtonStates(1)))
    );
    assert_eq!(
        Ep1Message::parse(&[0x06, 1, 2, 0x80, 60, 99]),
        Some(Ep1Message::Midi { port: 1, data: &[0x80, 60] })
    );
    assert_eq!(Ep1Message::parse(&[0x06, 1, 2, 0x80]), None);
    assert_eq!(Ep1Message::parse(&[0x06, 1]), None);
    assert_eq!(
        Ep1Message::parse(&[0x0b, 7]),
        Some(Ep1Message::Unknown { cmd: 0x0b, payload: &[7] })
    );
}
