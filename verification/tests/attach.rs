use maschine_mk1::attach::{
    attach_next, attach_start, describe_alt1, is_truncated, next_descriptor, set_interface_setup,
    survey_config, AttachStep, DeviceLink,
};

/// Config, one interface, endpoints 0x01 and 0x81 with packets of 512 bytes.
fn truncated_config() -> Vec<u8> {
    let mut c = vec![9, 2, 32, 0, 1, 1, 0, 0x80, 250];
    c.extend_from_slice(&[9, 4, 0, 0, 2, 0xff, 0, 0, 0]);
    c.extend_from_slice(&[7, 5, 0x01, 2, 0x00, 0x02, 0]);
    c.extend_from_slice(&[7, 5, 0x81, 2, 0x00, 0x02, 0]);
    c
}

#[test]
fn truncated_config_is_recognized_and_clamped() {
    let mut c = truncated_config();
    let s = survey_config(&mut c);
    assert_eq!(s.interface, Some(9));
    assert_eq!(s.endpoints, vec![18, 25]);
    assert!(is_truncated(&s));
    assert_eq!(c[18 + 4..18 + 6], [64, 0]);
    assert_eq!(c[25 + 4..25 + 6], [64, 0]);
    // a second walk finds nothing left to clamp
    let again = c.clone();
    survey_config(&mut c);
    assert_eq!(c, again);
}

#[test]
fn truncated_config_is_rewritten() {
    let mut c = truncated_config();
    let s = survey_config(&mut c);
    describe_alt1(&mut c, s.interface.unwrap(), s.endpoints[0], s.endpoints[1]);
    assert_eq!(c[9 + 3], 1);
    assert_eq!(c[18 + 2], 0x08);
    assert_eq!(c[25 + 2], 0x84);
}

#[test]
fn full_config_is_not_truncated() {
    let mut c = truncated_config();
    c.extend_from_slice(&[9, 4, 0, 1, 2, 0xff, 0, 0, 0]);
    c.extend_from_slice(&[7, 5, 0x84, 2, 0x40, 0x00, 0]);
    c.extend_from_slice(&[7, 5, 0x08, 2, 0x40, 0x00, 0]);
    c.extend_from_slice(&[7, 5, 0x09, 2, 0x41, 0x00, 0]);
    let s = survey_config(&mut c);
    assert_eq!(s.interface, Some(9)); // the first one
    assert_eq!(s.endpoints, vec![18, 25, 41, 48]); // the first four
    assert!(!is_truncated(&s));
    assert_eq!(c[41 + 4..41 + 6], [64, 0]);
    assert_eq!(c[55 + 4..55 + 6], [64, 0]);
}

#[test]
fn walk_stops_at_a_broken_descriptor() {
    assert_eq!(next_descriptor(&[9, 4], 0), None);
    assert_eq!(next_descriptor(&[1, 4, 0], 0), None);
    assert_eq!(next_descriptor(&[2, 4, 3], 0), Some((4, 2)));
    assert_eq!(next_descriptor(&[2, 4, 3], 2), None);
    let s = survey_config(&mut []);
    assert_eq!(s.interface, None);
    assert!(s.endpoints.is_empty());
    let mut short = vec![2, 5, 0, 5, 7];
    let s = survey_config(&mut short);
    assert_eq!(s.endpoints, vec![0]);
    assert_eq!(short, vec![2, 5, 0, 5, 7]);
}

#[test]
fn attach_follows_the_recipe() {
    assert_eq!(attach_start(true), AttachStep::ClaimAlt0);
    assert_eq!(attach_start(false), AttachStep::ClaimAlt1);
    assert_eq!(attach_next(AttachStep::ClaimAlt0, true), AttachStep::ClaimSynthesizedAlt1);
    assert_eq!(attach_next(AttachStep::ClaimAlt0, false), AttachStep::GiveUp);
    // without the synthesized alt setting the rest still works
    assert_eq!(attach_next(AttachStep::ClaimSynthesizedAlt1, false), AttachStep::SetInterface);
    assert_eq!(attach_next(AttachStep::ClaimSynthesizedAlt1, true), AttachStep::SetInterface);
    assert_eq!(attach_next(AttachStep::ClaimAlt1, true), AttachStep::SetInterface);
    assert_eq!(attach_next(AttachStep::ClaimAlt1, false), AttachStep::GiveUp);
    assert_eq!(set_interface_setup(), [1, 0x0b, 1, 0, 0, 0, 0, 0]);
}

#[test]
fn one_device_at_a_time() {
    let mut link = DeviceLink::new();
    assert_eq!(link.take_address(), None);
    link.on_new_device(3);
    assert_eq!(link.take_address(), Some(3));
    assert!(!link.on_opened(0x17cc, 0x0809));
    link.on_new_device(4);
    assert_eq!(link.take_address(), Some(4));
    assert!(link.on_opened(0x17cc, 0x0808));
    link.on_session_up();
    assert!(link.session_up);
    link.on_new_device(5);
    assert_eq!(link.take_address(), None); // one is open
    assert!(link.on_device_gone());
    assert!(!link.session_up);
    assert!(!link.on_device_gone());
    assert_eq!(link.take_address(), None); // forgotten
}
