use maschine_mk1::boot::{after_join, boot, boot_poll, Boot, Hold, Running, BOOT_POLLS};
use maschine_mk1::config::Config;
use maschine_mk1::portal::{
    access_point_name, config_from_fields, dns_reply, form_value, front_page, no_ssid_message,
    percent_bytes, percent_decode, raw_field, read_form, FormError,
};

#[test]
fn access_point_is_named_after_its_address() {
    assert_eq!(access_point_name([1, 2, 3, 4, 0x0a, 0xf9]), "maschine-0af9");
    assert_eq!(front_page("192.168.71.1"), "http://192.168.71.1/");
}

#[test]
fn percent_decoding() {
    assert_eq!(percent_decode("a+b%20c"), "a b c");
    assert_eq!(percent_decode("%41%6a%6A"), "Ajj");
    assert_eq!(percent_decode("gr%C3%B6%C3%9Fe"), "größe");
    assert_eq!(percent_decode("größe"), "größe");
    assert_eq!(percent_decode("100%"), "100%");
    assert_eq!(percent_decode("%4"), "%4");
    assert_eq!(percent_decode("%zz%é"), "%zz%é");
    assert_eq!(percent_decode("%+d"), "\r");
    assert_eq!(percent_decode("%ff"), "\u{fffd}");
    assert_eq!(percent_bytes("%ff%00x"), vec![0xff, 0x00, b'x']);
    assert_eq!(percent_decode(""), "");
}

#[test]
fn decoding_undoes_escaping() {
    let all: Vec<u8> = (0..=255).collect();
    let lower: String = all.iter().map(|b| format!("%{b:02x}")).collect();
    let upper: String = all.iter().map(|b| format!("%{b:02X}")).collect();
    assert_eq!(percent_bytes(&lower), all);
    assert_eq!(percent_bytes(&upper), all);
}

#[test]
fn plain_text_decodes_to_itself() {
    assert_eq!(percent_bytes("abc=&é"), "abc=&é".as_bytes().to_vec());
}

#[test]
fn form_fields() {
    let form = "junk&ssid=my+net&pass=a%26b&ssid=other&=x&ip=";
    assert_eq!(form_value(form, "ssid"), Some("my net".to_string()));
    assert_eq!(form_value(form, "pass"), Some("a&b".to_string()));
    assert_eq!(form_value(form, "ip"), Some("".to_string()));
    assert_eq!(form_value(form, ""), Some("x".to_string()));
    assert_eq!(form_value(form, "junk"), None);
    assert_eq!(form_value(form, "port"), None);
    assert_eq!(raw_field("a=b=c", "a"), Some("b=c"));
}

#[test]
fn setup_form_is_read() {
    let c = read_form(b"ssid=my+net&pass=p%40ss&ip=192.168.1.7&port=9100").unwrap();
    assert_eq!(c.ssid, "my net");
    assert_eq!(c.pass, "p@ss");
    assert_eq!(c.target_ip, "192.168.1.7");
    assert_eq!(c.target_port, 9100);
    for port in ["", "x", "65536", "-1"] {
        let body = format!("ssid=n&port={port}");
        assert_eq!(read_form(body.as_bytes()).unwrap().target_port, 9000);
    }
    assert_eq!(read_form(b"ssid=n").unwrap().target_port, 9000);
}

#[test]
fn setup_form_errors() {
    assert_eq!(read_form(b"pass=x"), Err(FormError::NoSsid));
    assert_eq!(read_form(b"ssid=&pass=x"), Err(FormError::NoSsid));
    assert_eq!(read_form(b"ssid=\xff"), Err(FormError::NotText));
    assert_eq!(no_ssid_message(), "ssid is required");
    assert_eq!(config_from_fields(None, None, None, None), None);
}

#[test]
fn dns_queries_are_answered() {
    let mut q = vec![0xab, 0xcd, 0x01, 0x00, 0, 1, 0, 9, 0, 8, 0, 7];
    q.extend_from_slice(b"\x01a\x00\x00\x01\x00\x01");
    let r = dns_reply(&q, [192, 168, 71, 1]).unwrap();
    assert_eq!(r[..12], [0xab, 0xcd, 0x81, 0x80, 0, 1, 0, 1, 0, 0, 0, 0]);
    assert_eq!(r[12..q.len()], q[12..]);
    assert_eq!(
        r[q.len()..],
        [0xc0, 0x0c, 0, 1, 0, 1, 0, 0, 0, 60, 0, 4, 192, 168, 71, 1]
    );
    // a reply is no query
    assert_eq!(dns_reply(&r, [192, 168, 71, 1]), None);
    assert_eq!(dns_reply(&q[..11], [0; 4]), None);
    assert!(dns_reply(&q[..12], [0; 4]).is_some());
}

#[test]
fn boot_decisions() {
    assert_eq!(boot_poll(1, true), Hold::Forced);
    assert_eq!(boot_poll(1, false), Hold::Again);
    assert_eq!(boot_poll(BOOT_POLLS, false), Hold::Released);
    let cfg = || Config::load(Some("n".to_string()), None, None, None);
    assert_eq!(boot(true, cfg()), Boot::Portal);
    assert_eq!(boot(false, None), Boot::Portal);
    assert_eq!(boot(false, cfg()), Boot::Join(cfg().unwrap()));
    assert_eq!(after_join(true), Running::Engine);
    assert_eq!(after_join(false), Running::Portal);
}
