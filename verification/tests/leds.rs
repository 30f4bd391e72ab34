use maschine_mk1::input::Button;
use maschine_mk1::leds::{Led, LedState, MAX_BRIGHTNESS, PAD_LEDS};

#[test]
fn frames_only_dirty_banks() {
    let mut leds = LedState::new();
    assert_eq!(leds.frames().len(), 2); // initial sync
    assert_eq!(leds.frames().len(), 0);

    leds.set(Led::Play, 63);
    let frames: Vec<_> = leds.frames();
    assert_eq!(frames.len(), 1);
    assert_eq!(frames[0][0], 0x0c);
    assert_eq!(frames[0][1], 0x00);
    assert_eq!(frames[0][2 + Led::Play.position()], 63);

    leds.set(Led::Backlight, 40);
    let frames: Vec<_> = leds.frames();
    assert_eq!(frames.len(), 1);
    assert_eq!(frames[0][1], 0x1e);
    assert_eq!(frames[0][2 + (Led::Backlight.position() - 32)], 40);
}

#[test]
fn pad_led_row_reversal() {
    assert_eq!(Led::pad(0), Led::Pad1);
    assert_eq!(Led::pad(0).position(), 3);
    assert_eq!(Led::pad(4).position(), 7);
    assert_eq!(Led::pad(15).position(), 12);
}

/// What a device shows after frames.
fn device(shown: &mut [u8; 64], frames: &[[u8; 34]]) {
    for f in frames {
        assert_eq!(f[0], 0x0c);
        let at = if f[1] == 0 { 0 } else { 32 };
        shown[at..at + 32].copy_from_slice(&f[2..]);
    }
}

#[test]
fn device_follows_the_frames() {
    let mut shown = [9u8; 64];
    let mut leds = LedState::default();
    device(&mut shown, &leds.frames());
    assert_eq!(shown, [0; 64]);
    leds.set(Led::Mute, 5);
    leds.set(Led::Step, 6);
    leds.set(Led::Step, 7);
    device(&mut shown, &leds.frames());
    assert_eq!(shown[Led::Mute.position()], 5);
    assert_eq!(shown[Led::Step.position()], 7);
    leds.set_all(MAX_BRIGHTNESS);
    device(&mut shown, &leds.frames());
    assert_eq!(shown[..60], [63; 60]);
}

#[test]
fn brightness_is_capped_and_repeats_are_free() {
    let mut leds = LedState::new();
    leds.frames();
    leds.set(Led::Play, 200);
    assert_eq!(leds.frames()[0][2 + Led::Play.position()], MAX_BRIGHTNESS);
    leds.set(Led::Play, 63);
    assert_eq!(leds.frames().len(), 0);
    leds.set(Led::Play, 0);
    assert_eq!(leds.frames().len(), 1);
}

#[test]
fn positions_are_distinct() {
    let mut all: Vec<usize> = PAD_LEDS.iter().map(|l| l.position()).collect();
    all.extend(Button::ALL.iter().map(|b| Led::for_button(*b).unwrap().position()));
    all.push(Led::Backlight.position());
    assert_eq!(all.len(), 58);
    all.sort();
    all.dedup();
    assert_eq!(all.len(), 58);
    assert_eq!(Led::for_button(Button::GroupA).unwrap().position(), 41);
    assert_eq!(Led::for_button(Button::Softkey1).unwrap().position(), 57);
    assert_eq!(Led::Backlight.position(), 59);
}
