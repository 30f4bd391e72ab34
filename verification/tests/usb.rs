use maschine_mk1::input::Button;
use maschine_mk1::leds::Led;
use maschine_mk1::usb::{Sent, Session, TxQueue, UsbAction};

#[test]
fn queue_is_first_in_first_out() {
    let mut q = TxQueue::new();
    assert_eq!(q.ep1_send(&[1, 1]), Sent::Submit(vec![1, 1]));
    assert_eq!(q.ep1_send(&[2]), Sent::Queued);
    assert_eq!(q.ep1_send(&[3, 3, 3]), Sent::Queued);
    assert_eq!(q.backlog(), 2);
    assert_eq!(q.ep1_pump(), None); // busy
    assert_eq!(q.ep1_out_done(), Some(vec![2]));
    assert_eq!(q.ep1_out_done(), Some(vec![3, 3, 3]));
    assert_eq!(q.ep1_out_done(), None);
    assert_eq!(q.ep1_send(&[4]), Sent::Submit(vec![4]));
}

#[test]
fn full_queue_drops() {
    let mut q = TxQueue::new();
    assert_eq!(q.ep1_send(&[0]), Sent::Submit(vec![0]));
    for i in 1..=8u8 {
        assert_eq!(q.ep1_send(&[i]), Sent::Queued);
    }
    assert_eq!(q.ep1_send(&[9]), Sent::Dropped);
    for i in 1..=8u8 {
        assert_eq!(q.ep1_out_done(), Some(vec![i]));
    }
    assert_eq!(q.ep1_out_done(), None);
}

#[test]
fn counters_wrap() {
    let mut q = TxQueue::new();
    for i in 0..600u32 {
        let b = (i % 256) as u8;
        assert_eq!(q.ep1_send(&[b]), Sent::Submit(vec![b]));
        assert_eq!(q.ep1_out_done(), None);
    }
    assert_eq!(q.backlog(), 0);
}

#[test]
fn failed_submit_frees_the_endpoint() {
    let mut q = TxQueue::new();
    assert_eq!(q.ep1_send(&[1]), Sent::Submit(vec![1]));
    assert_eq!(q.ep1_send(&[2]), Sent::Queued);
    q.submit_failed();
    assert_eq!(q.ep1_pump(), Some(vec![2]));
}

fn hello() -> Vec<u8> {
    let mut m = vec![0x01];
    m.extend_from_slice(&[0x2a, 0x00, 0, 11, 0, 42, 62, 0, 0, 0, 1, 1, 0]);
    m
}

#[test]
fn hello_starts_the_session() {
    let mut s = Session::new();
    let q = TxQueue::new();
    assert_eq!(
        s.handle_ep1(&hello()),
        vec![
            UsbAction::Send(vec![0x0b, 1, 10, 5]),
            UsbAction::FlushLeds,
            UsbAction::ListenPads,
            UsbAction::SessionUp { fw_version: 0x2a },
        ]
    );
    let frames = s.led_flush(&q);
    assert_eq!(frames.len(), 2);
    assert_eq!(frames[1][2 + (Led::Backlight.position() - 32)], 0x2e);
    assert_eq!(s.led_flush(&q).len(), 0);
}

#[test]
fn backed_up_queue_holds_leds_back() {
    let mut s = Session::new();
    let mut q = TxQueue::new();
    for i in 0..7u8 {
        q.ep1_send(&[i]);
    }
    assert_eq!(q.backlog(), 6);
    assert_eq!(s.led_flush(&q).len(), 0);
    q.ep1_out_done();
    let frames = s.led_flush(&q);
    assert_eq!(frames.len(), 2);
    for f in &frames {
        assert_eq!(q.ep1_send(f), Sent::Queued);
    }
}

#[test]
fn buttons_are_published_and_held() {
    let mut s = Session::new();
    // READ_IO: shift is bit 11, control bit 24
    assert_eq!(
        s.handle_ep1(&[0x04, 0, 0x08, 0, 0x01, 0, 0]),
        vec![
            UsbAction::Button(Button::Shift, true),
            UsbAction::Button(Button::Control, true),
        ]
    );
    assert!(s.buttons_held(Button::Shift, Button::Control));
    assert_eq!(
        s.handle_ep1(&[0x04, 0, 0x08, 0, 0, 0, 0]),
        vec![UsbAction::Button(Button::Control, false)]
    );
    assert!(!s.buttons_held(Button::Shift, Button::Control));
}

#[test]
fn knob_jitter_is_not_published() {
    let mut s = Session::new();
    let mut m = vec![0x02];
    m.extend_from_slice(&[0u8; 22]);
    assert_eq!(s.handle_ep1(&m), vec![]); // first reading: nothing has moved
    assert_eq!(s.handle_ep1(&m), vec![]);
    m[1 + 21] = 200; // knob 1
    m[1 + 20] = 100;
    let moved = s.handle_ep1(&m);
    assert_eq!(moved.len(), 1);
    assert!(matches!(moved[0], UsbAction::Knob(0, _)));
    assert_eq!(s.handle_ep1(&m), vec![]);
}

#[test]
fn midi_and_unknown_reports() {
    let mut s = Session::new();
    assert_eq!(s.handle_ep1(&[0x06, 0, 3, 0x90, 60, 100]), vec![UsbAction::MidiIn(3)]);
    assert_eq!(s.handle_ep1(&[0x42, 1, 2]), vec![]);
    assert_eq!(s.handle_ep1(&[]), vec![]);
}

#[test]
fn pads_publish_and_light() {
    let mut s = Session::new();
    let q = TxQueue::new();
    s.led_flush(&q);
    // raw pad 12 is printed 1; pressure 0x800
    assert_eq!(s.handle_pads(&[0x00, 0xc8]), vec![(12, 0x800)]);
    let frames = s.led_flush(&q);
    assert_eq!(frames.len(), 1);
    assert_eq!(frames[0][2 + Led::Pad1.position()], 0x20);
    // a small step lights the pad but is not published
    assert_eq!(s.handle_pads(&[0x40, 0xc8]), vec![]);
    assert_eq!(s.led_flush(&q)[0][2 + Led::Pad1.position()], 0x21);
    // below the deadzone is a release
    assert_eq!(s.handle_pads(&[0x05, 0xc0]), vec![(12, 0)]);
    assert_eq!(s.led_flush(&q)[0][2 + Led::Pad1.position()], 0);
    // an odd byte at the end is no word
    assert_eq!(s.handle_pads(&[0x05]), vec![]);
}

#[test]
fn session_leds_can_be_set() {
    let mut s = Session::new();
    let q = TxQueue::new();
    s.led_flush(&q);
    s.set_led(Led::Rec, 100);
    assert_eq!(s.led_flush(&q)[0][2 + Led::Rec.position()], 63);
}
