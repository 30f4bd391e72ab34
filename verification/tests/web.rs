use maschine_mk1::profile::{load_json, save_json, Profile, Rejection, MAX_JSON};
use maschine_mk1::web::{
    body_complete, names_script, no_slot_message, page_script, profile_text, reload_after_save,
    slot_param, upload,
};

#[test]
fn slots_are_requested() {
    for n in 0..8u8 {
        assert_eq!(slot_param(&format!("/profile?n={n}")), Some(n));
        assert_eq!(slot_param(&format!("/activate?x=1&n={n}&n=9")), Some(n));
    }
    assert_eq!(slot_param("/profile?n=8"), None);
    assert_eq!(slot_param("/profile?n=256"), None);
    assert_eq!(slot_param("/profile?n="), None);
    assert_eq!(slot_param("/profile?m=1"), None);
    assert_eq!(slot_param("/profile"), None);
    assert_eq!(slot_param("/profile?n=x&n=3"), None); // the first one decides
    assert_eq!(no_slot_message(), "n=0..7 required");
}

#[test]
fn page_is_told_names_and_slot() {
    assert_eq!(names_script("[]", 0), "let names=[],active=0;");
    let names = vec!["live".to_string(), "a \"b\"".to_string(), String::new()];
    assert_eq!(
        page_script(&names, 2),
        "let names=[\"live\",\"a \\\"b\\\"\",\"\"],active=2;"
    );
}

#[test]
fn uploads() {
    assert_eq!(upload(b"{}"), Ok("{}"));
    assert_eq!(upload(b"\xff"), Err(Rejection::NotText));
    let big = vec![b'x'; MAX_JSON + 1];
    assert_eq!(upload(&big), Err(Rejection::TooLarge));
    assert!(upload(&big[1..]).is_ok());
    assert!(body_complete(10, 0, 20));
    assert!(body_complete(20, 5, 20));
    assert!(!body_complete(10, 5, 20));
    assert!(reload_after_save(3, 3));
    assert!(!reload_after_save(3, 4));
}

#[test]
fn empty_slot_is_served_as_empty_profile() {
    assert_eq!(profile_text(None), "{\n  \"name\": \"\",\n  \"map\": {}\n}");
    assert_eq!(profile_text(Some("{}".to_string())), "{}");
}

#[test]
fn uploaded_profiles_are_served_back() {
    let body = "{\n \"name\": \"é\",\"map\":{} }".as_bytes();
    let json = upload(body).unwrap();
    let saved = save_json(0, json, Some(Profile::new())).ok().unwrap();
    assert_eq!(saved.bytes, body);
    assert_eq!(profile_text(load_json(Some(&saved.bytes))).as_bytes(), body);
}
