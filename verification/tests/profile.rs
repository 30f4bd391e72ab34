use maschine_mk1::config::{Config, NAMESPACE};
use maschine_mk1::profile::{
    active, fits, key, load_json, save_json, set_active, too_large_message, Entry, EntryMap,
    Profile, Rejection, MAX_JSON,
};

#[test]
fn entries_are_found_and_replaced() {
    let mut map = EntryMap::new();
    assert!(map.get("a/pad/1").is_none());
    map.insert("a/pad/1".to_string(), Entry { osc: Some("/x".to_string()), ..Entry::default() });
    map.insert("volume".to_string(), Entry::default());
    map.insert("a/pad/1".to_string(), Entry { osc: Some("/y".to_string()), ..Entry::default() });
    assert_eq!(map.len(), 2);
    assert_eq!(map.get("a/pad/1").unwrap().osc.as_deref(), Some("/y"));
    assert!(map.get("volume").unwrap().osc.is_none());
    assert_eq!(map.at(0).0, "a/pad/1");
    assert_eq!(map.at(1).0, "volume");
}

#[test]
fn empty_profile() {
    let p = Profile::default();
    assert_eq!(p.name, "");
    assert!(p.target.is_none() && p.sync.is_none());
    assert_eq!(p.map.len(), 0);
}

#[test]
fn slots_are_clamped() {
    assert_eq!(active(None), 0);
    assert_eq!(active(Some(5)), 5);
    assert_eq!(active(Some(8)), 7);
    assert_eq!(set_active(7), 7);
    assert_eq!(set_active(255), 7);
}

#[test]
fn slot_keys() {
    assert_eq!(key(0), "p0");
    assert_eq!(key(7), "p7");
    assert_ne!(key(1), key(11));
}

#[test]
fn stored_json_must_be_text() {
    assert_eq!(load_json(None), None);
    assert_eq!(load_json(Some(b"{}")), Some("{}".to_string()));
    assert_eq!(load_json(Some(b"{\xff}")), None);
}

#[test]
fn large_profiles_are_rejected() {
    assert_eq!(fits(&"x".repeat(MAX_JSON)), Ok(()));
    assert_eq!(fits(&"x".repeat(MAX_JSON + 1)), Err(Rejection::TooLarge));
    assert_eq!(fits(&"é".repeat(MAX_JSON / 2 + 1)), Err(Rejection::TooLarge));
    assert_eq!(too_large_message(), format!("profile too large (max {MAX_JSON} bytes)"));
}

fn text(s: &str) -> Option<String> {
    Some(s.to_string())
}

#[test]
fn saved_config_is_loaded() {
    assert_eq!(NAMESPACE, "mk1");
    let c = Config::load(text("net"), text("secret"), text("10.0.0.2"), Some(9100)).unwrap();
    assert_eq!(c.ssid, "net");
    assert_eq!(c.pass, "secret");
    assert_eq!(c.target(), "10.0.0.2:9100");
}

#[test]
fn config_defaults() {
    let c = Config::load(text("net"), None, None, None).unwrap();
    assert_eq!(c.pass, "");
    assert_eq!(c.target_ip, "");
    assert_eq!(c.target_port, 9000);
    assert_eq!(c.target(), ":9000");
    assert_eq!(Config::load(None, text("p"), text("i"), Some(1)), None);
    assert_eq!(Config::load(text(""), text("p"), text("i"), Some(1)), None);
}

#[test]
fn saved_profiles_are_loaded() {
    let json = "{\"name\":\"größe\"}";
    let mut p = Profile::new();
    p.name = "größe".to_string();
    let saved = save_json(3, json, Some(p)).ok().unwrap();
    assert_eq!(saved.key, "p3");
    assert_eq!(saved.bytes, json.as_bytes());
    assert_eq!(saved.profile.name, "größe");
    assert_eq!(load_json(Some(&saved.bytes)), Some(json.to_string()));
    assert_eq!(save_json(3, "[]", None).err(), Some(Rejection::NotProfile));
    let big = "x".repeat(MAX_JSON + 1);
    assert_eq!(save_json(3, &big, None).err(), Some(Rejection::TooLarge));
    assert_eq!(save_json(3, &big, Some(Profile::new())).err(), Some(Rejection::TooLarge));
}
