use std::cell::RefCell;

use maschine_mk1::display::{
    init_display, Display, BUF_SIZE, CHUNK, INIT_COMMANDS, LAST_CHUNK,
};

#[test]
fn pixel_packing() {
    let mut disp = Display::new();
    // full brightness -> stored 0
    disp.set_pixel(0, 0, 31);
    disp.set_pixel(1, 0, 31);
    disp.set_pixel(2, 0, 31);
    assert_eq!(&disp.raw()[..2], &[0x00, 0x20]); // only the unused bit set

    // known mid value in each slot
    let mut disp = Display::new();
    disp.set_pixel(3, 0, 21); // stored 10 = 0b01010, slot 0 -> bits 7..3
    assert_eq!(disp.raw()[2], (10 << 3) | 0x07);
    disp.set_pixel(4, 0, 21); // slot 1: high 3 bits then low 2
    assert_eq!(disp.raw()[2] & 0x07, 10 >> 2);
    assert_eq!(disp.raw()[3] & 0xC0, (10u8 << 6) & 0xC0);
    disp.set_pixel(5, 0, 21); // slot 2 -> bits 4..0
    assert_eq!(disp.raw()[3] & 0x1F, 10);
}

#[test]
fn frame_chunking() {
    let disp = Display::new();
    let mut sizes = Vec::new();
    let mut total = 0usize;
    disp.send_frame(1, |m: &[u8]| {
        sizes.push((m[0], m.len()));
        if m.len() > 6 {
            total += m.len() - if sizes.len() == 3 { 4 } else { 3 };
        }
        Ok::<(), ()>(())
    })
    .unwrap();
    assert_eq!(sizes.len(), 2 + 22);
    assert_eq!(sizes[2], (2, 4 + CHUNK)); // d = display<<1
    assert_eq!(sizes[3], (3, 3 + CHUNK)); // continuation d|1
    assert_eq!(sizes.last(), Some(&(3, 3 + LAST_CHUNK)));
    assert_eq!(total, BUF_SIZE);
}

#[test]
fn init_sequence_shape() {
    let mut count = 0;
    let mut slept = 0;
    init_display(
        1,
        |m: &[u8]| {
            assert_eq!(m[0], 2);
            assert_eq!(m[2] as usize, m.len() - 3);
            count += 1;
            Ok::<(), ()>(())
        },
        |ms| slept += ms,
    )
    .unwrap();
    assert_eq!(count, INIT_COMMANDS.len());
    assert_eq!(slept, 120);
}

#[test]
fn failed_writes_stop_the_sender() {
    let disp = Display::new();
    let mut n = 0;
    let r = disp.send_frame(0, |_: &[u8]| {
        n += 1;
        if n == 5 {
            Err("stalled")
        } else {
            Ok(())
        }
    });
    assert_eq!(r, Err("stalled"));
    assert_eq!(n, 5);
    let mut n = 0;
    let r = init_display(
        0,
        |_: &[u8]| {
            n += 1;
            Err::<(), u8>(7)
        },
        |_| panic!("no delay after a failure"),
    );
    assert_eq!(r, Err(7));
    assert_eq!(n, 1);
}

#[test]
fn pauses_follow_their_commands() {
    let log: RefCell<Vec<Vec<u8>>> = RefCell::new(Vec::new());
    init_display(
        0,
        |m: &[u8]| {
            log.borrow_mut().push(m[3..].to_vec());
            Ok::<(), ()>(())
        },
        |ms| log.borrow_mut().push(format!("{ms} ms").into_bytes()),
    )
    .unwrap();
    let log = log.into_inner();
    let pause = b"20 ms".to_vec();
    let paused: Vec<Vec<u8>> = (1..log.len())
        .filter(|&i| log[i] == pause)
        .map(|i| log[i - 1].clone())
        .collect();
    assert_eq!(
        paused,
        vec![
            vec![0xca, 0x04, 0x0f, 0x00],
            vec![0x81, 0x1e, 0x02],
            vec![0x20, 0x08],
            vec![0x20, 0x0b],
            vec![0x25],
            vec![0xaf],
        ]
    );
    assert_eq!(log.len(), 22 + 6);
}

#[test]
fn frame_carries_the_buffer() {
    let mut disp = Display::new();
    for i in 0..BUF_SIZE {
        disp.raw_mut()[i] = (i % 251) as u8;
    }
    let mut carried = Vec::new();
    let mut n = 0;
    disp.send_frame(0, |m: &[u8]| {
        let len = m[1] as usize * 256 + m[2] as usize;
        assert_eq!(len, m.len() - 3);
        if n == 0 {
            assert_eq!(m, [0, 0, 3, 0x75, 0x00, 0x3f]);
        } else if n == 1 {
            assert_eq!(m, [0, 0, 3, 0x15, 0x00, 0x54]);
        } else if n == 2 {
            assert_eq!(m[..4], [0, 0x01, 0xf7, 0x5c]);
            carried.extend_from_slice(&m[4..]);
        } else {
            assert_eq!(m[0], 1);
            carried.extend_from_slice(&m[3..]);
        }
        n += 1;
        Ok::<(), ()>(())
    })
    .unwrap();
    assert_eq!(carried, disp.raw().to_vec());
}

#[test]
fn pixels_off_the_screen_are_ignored() {
    let mut disp = Display::new();
    let before = *disp.raw();
    disp.set_pixel(255, 0, 31);
    disp.set_pixel(0, 64, 31);
    assert_eq!(*disp.raw(), before);
    disp.set_pixel(254, 63, 255); // brighter than bright
    assert_eq!(disp.raw()[BUF_SIZE - 1] & 0x1f, 0);
}

#[test]
fn fill_sets_every_pixel() {
    let mut disp = Display::default();
    disp.fill(21); // stored 10 = 0b01010
    for pair in disp.raw().chunks(2) {
        assert_eq!(pair, [0b01010_010, 0b10_0_01010]);
    }
}
