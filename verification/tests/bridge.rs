use maschine_mk1::bridge::{
    arguments, handshake_read, led_by_address, led_by_name, Handshake, Pads, Panel, Report,
    BACKLIGHT, HANDSHAKE_READS,
};
use maschine_mk1::display::{Display, HEIGHT, WIDTH};
use maschine_mk1::input::Ep1Message;
use maschine_mk1::leds::{Led, LedState};
use maschine_mk1::patterns::{draw_gradient, test_pattern};

fn report(name: &str, num: u16, den: u16) -> Report {
    Report { name: name.to_string(), num, den }
}

fn dark() -> LedState {
    let mut leds = LedState::new();
    leds.frames();
    leds
}

#[test]
fn leds_by_name() {
    assert_eq!(led_by_name("pad/1"), Some(Led::Pad1));
    assert_eq!(led_by_name("pad/16"), Some(Led::Pad16));
    assert_eq!(led_by_name("pad/0"), None);
    assert_eq!(led_by_name("pad/17"), None);
    assert_eq!(led_by_name("pad/x"), None);
    assert_eq!(led_by_name("backlight"), Some(Led::Backlight));
    assert_eq!(led_by_name("play"), Some(Led::Play));
    assert_eq!(led_by_name("group_c"), Some(Led::GroupC));
    assert_eq!(led_by_name("nothing"), None);
    assert_eq!(led_by_address("/maschine/led/rec"), Some(Led::Rec));
    assert_eq!(led_by_address("/maschine/rec"), None);
    let mut leds = dark();
    leds.set(Led::Backlight, BACKLIGHT);
    assert_eq!(leds.frames()[0][2 + (Led::Backlight.position() - 32)], 63);
}

#[test]
fn pads_are_reported_in_steps() {
    let mut pads = Pads::new();
    let mut leds = dark();
    // raw 12 is printed 1 and reported as 13
    assert_eq!(pads.on_report(&[31, 0xc0], &mut leds), vec![]);
    assert_eq!(pads.on_report(&[32, 0xc0], &mut leds), vec![report("pad/13", 32, 4095)]);
    assert_eq!(pads.on_report(&[63, 0xc0], &mut leds), vec![]);
    assert_eq!(pads.on_report(&[0x00, 0xc8], &mut leds), vec![report("pad/13", 0x800, 4095)]);
    assert_eq!(leds.frames()[0][2 + Led::Pad1.position()], 0x20);
    // letting go is always reported
    assert_eq!(pads.on_report(&[32, 0xc0], &mut leds), vec![report("pad/13", 32, 4095)]);
    assert_eq!(pads.on_report(&[5, 0xc0], &mut leds), vec![report("pad/13", 0, 4095)]);
    assert_eq!(leds.frames()[0][2 + Led::Pad1.position()], 0);
    assert_eq!(pads.on_report(&[0, 0xc0], &mut leds), vec![]);
    assert_eq!(
        pads.on_report(&[0xff, 0x0f, 0xff, 0x1f], &mut leds),
        vec![report("pad/1", 4095, 4095), report("pad/2", 4095, 4095)]
    );
    assert_eq!(report("pad/1", 0, 1).address(), "/maschine/pad/1");
}

#[test]
fn first_knob_report_is_sent_whole() {
    let mut panel = Panel::new();
    let mut leds = dark();
    let mut now = [100u16; 11];
    let all = panel.on_message(&Some(Ep1Message::Knobs(now)), &mut leds);
    assert_eq!(all.len(), 11);
    assert_eq!(all[0], report("knob/1", 100, 999));
    assert_eq!(all[8], report("volume", 100, 999));
    assert_eq!(panel.on_message(&Some(Ep1Message::Knobs(now)), &mut leds), vec![]);
    now[10] = 101;
    assert_eq!(
        panel.on_message(&Some(Ep1Message::Knobs(now)), &mut leds),
        vec![report("swing", 101, 999)]
    );
}

#[test]
fn held_buttons_are_lit() {
    let mut panel = Panel::new();
    let mut leds = dark();
    let down = Ep1Message::parse(&[0x04, 0x01, 0, 0, 0, 0, 0]);
    assert_eq!(panel.on_message(&down, &mut leds), vec![report("button/mute", 1, 1)]);
    assert_eq!(leds.frames()[0][2 + Led::Mute.position()], 63);
    let up = Ep1Message::parse(&[0x04, 0, 0, 0, 0, 0, 0]);
    assert_eq!(panel.on_message(&up, &mut leds), vec![report("button/mute", 0, 1)]);
    assert_eq!(leds.frames()[0][2 + Led::Mute.position()], 0);
    assert_eq!(panel.on_message(&None, &mut leds), vec![]);
}

#[test]
fn handshake_waits_for_the_device() {
    let info = [0x01, 0x2a, 0x01, 0, 11, 0, 42, 62, 0, 0, 0, 1, 2, 0];
    match handshake_read(3, Some(&info)) {
        Handshake::Done(i) => assert_eq!(i.fw_version, 0x012a),
        other => panic!("{other:?}"),
    }
    assert_eq!(handshake_read(1, None), Handshake::Again);
    assert_eq!(handshake_read(1, Some(&[0x04, 0])), Handshake::Again);
    assert_eq!(handshake_read(HANDSHAKE_READS, None), Handshake::TimedOut);
    assert_eq!(handshake_read(HANDSHAKE_READS, Some(&[])), Handshake::TimedOut);
}

#[test]
fn command_line() {
    let args = |a: &[&str]| a.iter().map(|s| s.to_string()).collect::<Vec<String>>();
    let a = arguments(&args(&[]));
    assert_eq!(a.target, "192.168.1.137");
    assert!(!a.dump);
    let a = arguments(&args(&["--dump", "--x", "10.0.0.9", "10.0.0.10"]));
    assert_eq!(a.target, "10.0.0.9");
    assert!(a.dump);
}

/// Gray level of a pixel, read out of the packed buffer.
fn gray(d: &Display, x: usize, y: usize) -> u8 {
    let i = y * 170 + x / 3 * 2;
    let (a, b) = (d.raw()[i], d.raw()[i + 1]);
    31 - match x % 3 {
        0 => a >> 3,
        1 => (a & 7) << 2 | b >> 6,
        _ => b & 0x1f,
    }
}

#[test]
fn patterns_are_drawn() {
    let (mut left, mut right) = (Display::new(), Display::new());
    test_pattern(&mut left, &mut right);
    for y in 0..HEIGHT {
        for x in 0..WIDTH {
            assert_eq!(gray(&left, x, y) as usize, x * 32 / 255);
            assert_eq!(gray(&right, x, y), if (x / 8 + y / 8) % 2 == 0 { 31 } else { 4 });
        }
    }
    draw_gradient(&mut left, false);
    draw_gradient(&mut right, true);
    for x in 0..WIDTH {
        assert_eq!(gray(&left, x, 63) as usize, x * 31 / 254);
        assert_eq!(gray(&right, x, 0) as usize, 31 - x * 31 / 254);
    }
}
