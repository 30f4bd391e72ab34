use maschine_mk1::text::{
    chars_of, find_char, parse_uint, push_decimal, same_text, split_once, split_text, strip_prefix,
};

#[test]
fn decimal_text_reads_back() {
    for n in [0u32, 7, 10, 99, 255, 4095, 65535] {
        let mut s = String::from("n");
        push_decimal(&mut s, n as u64);
        assert_eq!(s, format!("n{n}"));
        assert_eq!(parse_uint(&s[1..], 65535), Some(n));
    }
    let mut s = String::new();
    push_decimal(&mut s, u64::MAX);
    assert_eq!(s, "18446744073709551615");
}

#[test]
fn numbers_are_read_like_parse() {
    assert_eq!(parse_uint("16", 16), Some(16));
    assert_eq!(parse_uint("17", 16), None);
    assert_eq!(parse_uint("+3", 16), Some(3));
    assert_eq!(parse_uint("007", 16), Some(7));
    assert_eq!(parse_uint("", 16), None);
    assert_eq!(parse_uint("+", 16), None);
    assert_eq!(parse_uint("++3", 16), None);
    assert_eq!(parse_uint("-1", 16), None);
    assert_eq!(parse_uint("3 ", 16), None);
    assert_eq!(parse_uint("99999999999999999999", u32::MAX), None);
    for s in ["0", "+9", "65535", "65536", "1x", "é"] {
        assert_eq!(parse_uint(s, 65535), s.parse::<u16>().ok().map(u32::from));
    }
}

#[test]
fn texts_are_compared_and_cut() {
    assert!(same_text("é", "é"));
    assert!(!same_text("e", "é"));
    assert!(!same_text("ab", "abc"));
    assert_eq!(strip_prefix("pad/3", "pad/"), Some("3"));
    assert_eq!(strip_prefix("pad", "pad/"), None);
    assert_eq!(strip_prefix("päd/ü", "päd/"), Some("ü"));
    assert_eq!(split_text("a&b&&c", '&'), vec!["a", "b", "", "c"]);
    assert_eq!(split_text("", '&'), vec![""]);
    assert_eq!(split_text("&", '&'), vec!["", ""]);
    assert_eq!(split_once("a=b=c", '='), Some(("a", "b=c")));
    assert_eq!(split_once("ü=", '='), Some(("ü", "")));
    assert_eq!(split_once("abc", '='), None);
    assert_eq!(find_char(&chars_of("ab/c/"), 3, '/'), 4);
    assert_eq!(find_char(&chars_of("ab"), 0, '/'), 2);
}
