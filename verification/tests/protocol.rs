use maschine_mk1::{auto_msg, get_device_info, midi_write, DeviceInfo, EP1_BUFSIZE};

#[test]
fn midi_write_layout() {
    let mut buf = [0u8; EP1_BUFSIZE];
    let n = midi_write(&[0x90, 60, 100], &mut buf);
    assert_eq!(&buf[..n], &[0x07, 0x00, 3, 0x90, 60, 100]);
}

#[test]
fn auto_msg_layout() {
    assert_eq!(auto_msg(1, 10, 5), [0x0b, 1, 10, 5]);
}

#[test]
fn device_info_is_asked_for_and_read() {
    assert_eq!(get_device_info(), [0x01]);
    let p = [0x34, 0x12, 1, 11, 2, 42, 62, 0, 0, 0, 0, 3, 4, 9];
    let info = DeviceInfo::parse(&p).unwrap();
    assert_eq!(info.fw_version, 0x1234);
    assert_eq!(info.hw_subtype, 1);
    assert_eq!(info.num_erp, 11);
    assert_eq!(info.num_analog_in, 2);
    assert_eq!(info.num_digital_in, 42);
    assert_eq!(info.num_digital_out, 62);
    assert_eq!(info.num_midi_out, 3);
    assert_eq!(info.num_midi_in, 4);
    assert_eq!(DeviceInfo::parse(&p[..12]), None);
}

#[test]
fn long_midi_data_is_cut() {
    let mut buf = [0xeeu8; EP1_BUFSIZE];
    let data = [7u8; 100];
    assert_eq!(midi_write(&data, &mut buf), 64);
    assert_eq!(buf[..3], [0x07, 0, 61]);
    assert_eq!(buf[3..], [7u8; 61]);
    let mut buf = [0xeeu8; EP1_BUFSIZE];
    assert_eq!(midi_write(&[], &mut buf), 3);
    assert_eq!(buf[..4], [0x07, 0, 0, 0xee]);
}
