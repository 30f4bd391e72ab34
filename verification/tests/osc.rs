use maschine_mk1::osc::{
    on_datagram, osc_decode, osc_head, osc_msg, osc_msg_i, osc_msg_s, osc_parse, pad4, Inbound,
};

#[test]
fn float_message_layout() {
    let m = osc_msg("/a", 0.5f32.to_bits());
    assert_eq!(m, b"/a\0\0,f\0\0\x3f\x00\x00\x00".to_vec());
    // an address of a whole number of words still gets a zero
    assert_eq!(osc_head("/abc", ",f"), b"/abc\0\0\0\0,f\0\0".to_vec());
}

#[test]
fn int_message_layout() {
    assert_eq!(
        osc_msg_i("/rustjay/sync", 9001),
        b"/rustjay/sync\0\0\0,i\0\0\x00\x00\x23\x29".to_vec()
    );
    assert_eq!(osc_msg_i("/a", -2)[8..], [0xff, 0xff, 0xff, 0xfe]);
}

#[test]
fn string_message_layout() {
    assert_eq!(
        osc_msg_s("/maschine/bank", "c"),
        b"/maschine/bank\0\0,s\0\0c\0\0\0".to_vec()
    );
}

#[test]
fn messages_are_word_sized() {
    let mut b = vec![1, 2, 3];
    pad4(&mut b);
    assert_eq!(b, vec![1, 2, 3, 0]);
    pad4(&mut b);
    assert_eq!(b.len(), 8);
    for addr in ["/", "/a", "/ab", "/abc", "/abcd"] {
        assert_eq!(osc_msg(addr, 7).len() % 4, 0);
        assert_eq!(osc_msg_i(addr, 7).len() % 4, 0);
        assert_eq!(osc_msg_s(addr, addr).len() % 4, 0);
    }
}

#[test]
fn float_messages_read_back() {
    for addr in ["/maschine/led/backlight", "/x", "/größe"] {
        let bits = 0.25f32.to_bits();
        let m = osc_msg(addr, bits);
        assert_eq!(osc_parse(&m), Some((addr, bits)));
        assert_eq!(osc_decode(&m), Some((addr, bits)));
    }
}

#[test]
fn unreadable_datagrams() {
    assert_eq!(osc_parse(b""), None);
    assert_eq!(osc_parse(b"/abc"), None); // no closing zero
    assert_eq!(osc_parse(b"/a\0\0,f\0"), None); // too short behind the address
    assert_eq!(osc_parse(b"\xff\0\0\0,f\0\0\0\0\0\0"), None); // not UTF-8
    assert_eq!(osc_decode(b"abc"), None);
    assert_eq!(osc_decode(b"\xffabcd"), None);
    // the lenient reading takes what the strict one refuses
    assert_eq!(osc_decode(b"/abc"), Some(("/abc", 0x2f616263)));
    assert_eq!(osc_decode(b"/a\0\0"), Some(("/a", 0x2f610000)));
}

#[test]
fn ping_is_answered_with_its_value() {
    let bits = 1234.5f32.to_bits();
    assert_eq!(
        on_datagram(&osc_msg("/maschine/ping", bits)),
        Inbound::Pong(osc_msg("/maschine/pong", bits))
    );
    let other = osc_msg("/maschine/led/rec", bits);
    assert_eq!(on_datagram(&other), Inbound::Deliver("/maschine/led/rec", bits));
    assert_eq!(on_datagram(b"junk"), Inbound::Ignore);
}
