//! Onboarding: the name of the access point, the DNS catch-all, and the setup
//! form of the captive portal.

use vstd::prelude::*;
use vstd::string::StringExecFns;
use vstd::utf8::{decode_utf8, encode_utf8, valid_utf8};

use crate::config::{text_or_empty, Config, ConfigView, DEFAULT_PORT};
use crate::profile::opt_text;
use crate::text::{
    cut, decimal, is_digit, law_cut_is_at_the_first, law_decimal_reads_back, lemma_decimal_digits,
    parse_uint, parsed_uint, same_text, split, split_once, split_text, texts, utf8_text,
};

verus! {

/// What `String::from_utf8_lossy` makes of bytes.
pub uninterp spec fn lossy_text(bytes: Seq<u8>) -> Seq<char>;

/// `String::from_utf8_lossy` reads valid UTF-8 as the text it encodes. What it
/// puts in place of bytes that are not UTF-8 has only a name here: it depends
/// on the bytes alone.
#[verifier::external_body]
fn utf8_lossy(bytes: &[u8]) -> (r: String)
    ensures
        r@ == lossy_text(bytes@),
        valid_utf8(bytes@) ==> r@ == decode_utf8(bytes@),
{
    String::from_utf8_lossy(bytes).into_owned()
}

/// The hexadecimal digit of a number below sixteen.
pub open spec fn hex_digit(d: int) -> char {
    if d < 10 {
        (48 + d) as char
    } else {
        (87 + d) as char
    }
}

/// A byte as two hexadecimal digits.
pub open spec fn hex_byte(b: u8) -> Seq<char> {
    seq![hex_digit(b as int / 16), hex_digit(b as int % 16)]
}

fn push_hex_digit(out: &mut String, d: u8)
    requires
        d < 16,
    ensures
        final(out)@ == old(out)@.push(hex_digit(d as int)),
{
    out.push(
        if d < 10 {
            (48 + d) as char
        } else {
            (87 + d) as char
        },
    );
}

fn push_hex_byte(out: &mut String, b: u8)
    ensures
        final(out)@ == old(out)@ + hex_byte(b),
{
    push_hex_digit(out, b / 16);
    push_hex_digit(out, b % 16);
    assert(out@ =~= old(out)@ + hex_byte(b));
}

/// Network name of the setup access point.
pub open spec fn network_name(mac: Seq<u8>) -> Seq<char> {
    "maschine-"@ + hex_byte(mac[4]) + hex_byte(mac[5])
}

/// Network name of the setup access point: it ends in the last two bytes of
/// its hardware address.
pub fn access_point_name(mac: [u8; 6]) -> (r: String)
    ensures
        r@ == network_name(mac@),
        r@ == "maschine-"@ + hex_byte(mac@[4]) + hex_byte(mac@[5]),
{
    let mut out = "maschine-".to_owned();
    push_hex_byte(&mut out, mac[4]);
    push_hex_byte(&mut out, mac[5]);
    out
}

/// Bytes of a DNS header.
pub const DNS_HEADER: usize = 12;

/// Whether a datagram is a DNS query: a whole header without the response
/// flag.
pub open spec fn is_dns_query(d: Seq<u8>) -> bool {
    d.len() >= DNS_HEADER && d[2] < 0x80
}

/// The header of a reply with one answer to this query; the question stays
/// behind it.
pub open spec fn dns_answered(query: Seq<u8>) -> Seq<u8> {
    query.update(2, 0x81).update(3, 0x80).update(6, 0).update(7, 1).update(8, 0).update(
        9,
        0,
    ).update(10, 0).update(11, 0)
}

/// The answer: the name in the question, type A, class IN, 60 seconds, `ip`.
pub open spec fn dns_record(ip: Seq<u8>) -> Seq<u8> {
    seq![0xc0u8, 0x0c, 0, 1, 0, 1, 0, 0, 0, 60, 0, 4] + ip
}

/// Answer every DNS query with our own address; anything else has no reply.
pub fn dns_reply(query: &[u8], ip: [u8; 4]) -> (r: Option<Vec<u8>>)
    ensures
        match r {
            Some(reply) => is_dns_query(query@) && reply@ == dns_answered(query@) + dns_record(ip@),
            None => !is_dns_query(query@),
        },
{
    if query.len() < DNS_HEADER || query[2] >= 0x80 {
        return None;
    }
    let mut reply: Vec<u8> = Vec::new();
    reply.extend_from_slice(query);
    assert(reply@ =~= query@);
    reply.set(2, 0x81);
    reply.set(3, 0x80);
    reply.set(6, 0);
    reply.set(7, 1);
    reply.set(8, 0);
    reply.set(9, 0);
    reply.set(10, 0);
    reply.set(11, 0);
    let record: [u8; 12] = [0xc0, 0x0c, 0, 1, 0, 1, 0, 0, 0, 60, 0, 4];
    reply.extend_from_slice(record.as_slice());
    reply.extend_from_slice(ip.as_slice());
    assert(reply@ =~= dns_answered(query@) + dns_record(ip@));
    Some(reply)
}

/// A reply carries the query's id and question, and is itself no query: two
/// catch-alls never answer each other.
pub proof fn law_dns_reply_matches_query(query: Seq<u8>, ip: Seq<u8>)
    requires
        is_dns_query(query),
    ensures
        ({
            let reply = dns_answered(query) + dns_record(ip);
            &&& !is_dns_query(reply)
            &&& reply.take(2) == query.take(2)
            &&& reply.subrange(4, 6) == query.subrange(4, 6)
            &&& reply.subrange(12, query.len() as int) == query.skip(12)
            &&& reply.skip(reply.len() - ip.len()) == ip
        }),
{
    let reply = dns_answered(query) + dns_record(ip);
    assert(reply.take(2) =~= query.take(2));
    assert(reply.subrange(4, 6) =~= query.subrange(4, 6));
    assert(reply.subrange(12, query.len() as int) =~= query.skip(12));
    assert(reply.skip(reply.len() - ip.len()) =~= ip);
}

/// The value of a hexadecimal digit, upper or lower case.
pub open spec fn hex_value(b: u8) -> Option<u8> {
    if 48 <= b <= 57 {
        Some((b - 48) as u8)
    } else if 65 <= b <= 70 {
        Some((b - 55) as u8)
    } else if 97 <= b <= 102 {
        Some((b - 87) as u8)
    } else {
        None
    }
}

/// The byte that two characters behind a percent sign stand for: two
/// hexadecimal digits, or one behind a plus sign.
pub open spec fn escaped_byte(high: u8, low: u8) -> Option<u8> {
    match (hex_value(high), hex_value(low)) {
        (Some(h), Some(l)) => Some((16 * h + l) as u8),
        (None, Some(l)) => if high == 43 {
            Some(l)
        } else {
            None
        },
        _ => None,
    }
}

/// The bytes that form-encoded bytes stand for: `+` is a space, `%` and two
/// digits a byte, everything else itself.
pub open spec fn percent_decoded(b: Seq<u8>) -> Seq<u8>
    decreases b.len(),
{
    if b.len() == 0 {
        Seq::empty()
    } else if b[0] == 43 {
        seq![32u8] + percent_decoded(b.skip(1))
    } else if b[0] == 37 && b.len() > 2 && escaped_byte(b[1], b[2]) is Some {
        seq![escaped_byte(b[1], b[2])->0] + percent_decoded(b.skip(3))
    } else {
        seq![b[0]] + percent_decoded(b.skip(1))
    }
}

fn read_hex(b: u8) -> (r: Option<u8>)
    ensures
        r == hex_value(b),
{
    if b >= 48 && b <= 57 {
        Some(b - 48)
    } else if b >= 65 && b <= 70 {
        Some(b - 55)
    } else if b >= 97 && b <= 102 {
        Some(b - 87)
    } else {
        None
    }
}

fn read_escape(high: u8, low: u8) -> (r: Option<u8>)
    ensures
        r == escaped_byte(high, low),
{
    match (read_hex(high), read_hex(low)) {
        (Some(h), Some(l)) => Some(16 * h + l),
        (None, Some(l)) => if high == 43 {
            Some(l)
        } else {
            None
        },
        _ => None,
    }
}

/// The bytes that form-encoded text stands for.
pub fn percent_bytes(s: &str) -> (r: Vec<u8>)
    ensures
        r@ == percent_decoded(encode_utf8(s@)),
{
    let b = s.as_bytes();
    let mut out: Vec<u8> = Vec::new();
    let mut i: usize = 0;
    assert(b@.skip(0) =~= b@);
    while i < b.len()
        invariant
            i <= b@.len(),
            out@ + percent_decoded(b@.skip(i as int)) == percent_decoded(b@),
        decreases b.len() - i,
    {
        let ghost rest = b@.skip(i as int);
        let ghost before = out@;
        assert(rest[0] == b@[i as int]);
        assert(rest.skip(1) =~= b@.skip(i + 1));
        let c = b[i];
        if c == 43 {
            out.push(32);
            assert(out@ + percent_decoded(b@.skip(i + 1)) =~= before + percent_decoded(rest));
            i += 1;
        } else if c == 37 && b.len() - i > 2 {
            assert(rest[1] == b@[i + 1] && rest[2] == b@[i + 2]);
            assert(rest.skip(3) =~= b@.skip(i + 3));
            match read_escape(b[i + 1], b[i + 2]) {
                Some(byte) => {
                    out.push(byte);
                    assert(out@ + percent_decoded(b@.skip(i + 3)) =~= before + percent_decoded(
                        rest,
                    ));
                    i += 3;
                },
                None => {
                    out.push(37);
                    assert(out@ + percent_decoded(b@.skip(i + 1)) =~= before + percent_decoded(
                        rest,
                    ));
                    i += 1;
                },
            }
        } else {
            out.push(c);
            assert(out@ + percent_decoded(b@.skip(i + 1)) =~= before + percent_decoded(rest));
            i += 1;
        }
    }
    assert(b@.skip(i as int) =~= Seq::empty());
    assert(out@ + Seq::<u8>::empty() =~= out@);
    out
}

/// The text that form-encoded text stands for.
pub open spec fn form_text(s: Seq<char>) -> Seq<char> {
    lossy_text(percent_decoded(encode_utf8(s)))
}

/// The text that form-encoded text stands for.
pub fn percent_decode(s: &str) -> (r: String)
    ensures
        r@ == form_text(s@),
        valid_utf8(percent_decoded(encode_utf8(s@))) ==> r@ == decode_utf8(
            percent_decoded(encode_utf8(s@)),
        ),
{
    let bytes = percent_bytes(s);
    utf8_lossy(bytes.as_slice())
}

/// A byte as browsers send it in a form: escaped.
pub open spec fn escaped(b: u8) -> Seq<u8> {
    seq![37u8, hex_digit(b as int / 16) as u8, hex_digit(b as int % 16) as u8]
}

/// Bytes as browsers may send them in a form: every byte escaped.
pub open spec fn all_escaped(b: Seq<u8>) -> Seq<u8>
    decreases b.len(),
{
    if b.len() == 0 {
        Seq::empty()
    } else {
        escaped(b[0]) + all_escaped(b.skip(1))
    }
}

/// Decoding gives back what was escaped, whatever the bytes.
pub proof fn law_decoding_undoes_escaping(b: Seq<u8>)
    ensures
        percent_decoded(all_escaped(b)) == b,
    decreases b.len(),
{
    if b.len() > 0 {
        law_decoding_undoes_escaping(b.skip(1));
        let e = all_escaped(b);
        assert(e.skip(3) =~= all_escaped(b.skip(1)));
        assert(e[0] == 37);
        assert(e[1] == escaped(b[0])[1] && e[2] == escaped(b[0])[2]);
        assert(escaped_byte(e[1], e[2]) == Some(b[0]));
        assert(seq![b[0]] + b.skip(1) =~= b);
    } else {
        assert(b =~= Seq::empty());
    }
}

/// Bytes without `+` and `%` decode to themselves.
pub proof fn law_plain_bytes_decode_to_themselves(b: Seq<u8>)
    requires
        forall|i: int| 0 <= i < b.len() ==> b[i] != 43 && b[i] != 37,
    ensures
        percent_decoded(b) == b,
    decreases b.len(),
{
    if b.len() > 0 {
        law_plain_bytes_decode_to_themselves(b.skip(1));
        assert(seq![b[0]] + b.skip(1) =~= b);
    } else {
        assert(b =~= Seq::empty());
    }
}

/// The first of `name=value` parts with this name: its value, still encoded.
pub open spec fn first_field(parts: Seq<Seq<char>>, key: Seq<char>) -> Option<Seq<char>>
    decreases parts.len(),
{
    if parts.len() == 0 {
        None
    } else {
        match cut(parts[0], '=') {
            Some((k, v)) => if k == key {
                Some(v)
            } else {
                first_field(parts.skip(1), key)
            },
            None => first_field(parts.skip(1), key),
        }
    }
}

/// One field of a form, decoded.
pub open spec fn form_field(form: Seq<char>, key: Seq<char>) -> Option<Seq<char>> {
    match first_field(split(form, '&'), key) {
        Some(v) => Some(form_text(v)),
        None => None,
    }
}

/// One field of a form, still encoded: that of the first part with its name.
pub fn raw_field<'a>(form: &'a str, key: &str) -> (r: Option<&'a str>)
    ensures
        match r {
            Some(v) => first_field(split(form@, '&'), key@) == Some(v@),
            None => first_field(split(form@, '&'), key@) is None,
        },
{
    let parts = split_text(form, '&');
    let ghost all = split(form@, '&');
    let mut i: usize = 0;
    assert(all.skip(0) =~= all);
    while i < parts.len()
        invariant
            i <= parts@.len(),
            all == split(form@, '&'),
            all == texts(parts@),
            first_field(all.skip(i as int), key@) == first_field(all, key@),
        decreases parts.len() - i,
    {
        let part = parts[i];
        assert(all.skip(i as int)[0] == part@);
        assert(all.skip(i as int).skip(1) =~= all.skip(i + 1));
        if let Some((k, v)) = split_once(part, '=') {
            if same_text(k, key) {
                return Some(v);
            }
        }
        i += 1;
    }
    None
}

/// Pull one field out of a form.
pub fn form_value(form: &str, key: &str) -> (r: Option<String>)
    ensures
        opt_text(r) == form_field(form@, key@),
{
    match raw_field(form, key) {
        Some(v) => Some(percent_decode(v)),
        None => None,
    }
}

/// The port that a form names: 9000 if it names none.
pub open spec fn form_port(port: Option<Seq<char>>) -> u16 {
    match port {
        Some(p) => match parsed_uint(p, 65535) {
            Some(n) => n as u16,
            None => DEFAULT_PORT,
        },
        None => DEFAULT_PORT,
    }
}

/// The configuration in the fields of a form: none without a network name.
pub open spec fn form_config(
    ssid: Option<Seq<char>>,
    pass: Option<Seq<char>>,
    ip: Option<Seq<char>>,
    port: Option<Seq<char>>,
) -> Option<ConfigView> {
    if text_or_empty(ssid).len() == 0 {
        None
    } else {
        Some(
            ConfigView {
                ssid: text_or_empty(ssid),
                pass: text_or_empty(pass),
                target_ip: text_or_empty(ip),
                target_port: form_port(port),
            },
        )
    }
}

/// The configuration in the decoded fields of a form.
pub fn config_from_fields(
    ssid: Option<String>,
    pass: Option<String>,
    ip: Option<String>,
    port: Option<String>,
) -> (r: Option<Config>)
    ensures
        match r {
            Some(c) => form_config(opt_text(ssid), opt_text(pass), opt_text(ip), opt_text(port))
                == Some(c@),
            None => form_config(
                opt_text(ssid),
                opt_text(pass),
                opt_text(ip),
                opt_text(port),
            ) is None,
        },
{
    let number: u16 = match &port {
        Some(p) => match parse_uint(p.as_str(), 65535) {
            Some(n) => n as u16,
            None => DEFAULT_PORT,
        },
        None => DEFAULT_PORT,
    };
    Config::load(ssid, pass, ip, Some(number))
}

/// Why a form is not saved.
#[derive(Debug, Clone, Copy, PartialEq, Eq, Structural)]
pub enum FormError {
    /// It is not UTF-8.
    NotText,
    /// It has no network name.
    NoSsid,
}

/// What the sender of a form without a network name is told.
pub fn no_ssid_message() -> (r: &'static str)
    ensures
        r@ == "ssid is required"@,
{
    "ssid is required"
}

/// The configuration in the body of a posted setup form.
pub fn read_form(body: &[u8]) -> (r: Result<Config, FormError>)
    ensures
        !valid_utf8(body@) ==> r == Err::<Config, FormError>(FormError::NotText),
        valid_utf8(body@) ==> ({
            let form = decode_utf8(body@);
            let found = form_config(
                form_field(form, "ssid"@),
                form_field(form, "pass"@),
                form_field(form, "ip"@),
                form_field(form, "port"@),
            );
            match r {
                Ok(c) => found == Some(c@),
                Err(e) => found is None && e == FormError::NoSsid,
            }
        }),
{
    match utf8_text(body) {
        None => Err(FormError::NotText),
        Some(form) => {
            let ssid = form_value(form, "ssid");
            let pass = form_value(form, "pass");
            let ip = form_value(form, "ip");
            let port = form_value(form, "port");
            match config_from_fields(ssid, pass, ip, port) {
                Some(c) => Ok(c),
                None => Err(FormError::NoSsid),
            }
        },
    }
}

/// Where captive-portal probes are sent: our own front page.
pub fn front_page(ip: &str) -> (r: String)
    ensures
        r@ == "http://"@ + ip@ + "/"@,
{
    let mut out = "http://".to_owned();
    out.append(ip);
    out.append("/");
    out
}

/// Bytes without `%` decode one by one: `+` to a space, every other to itself.
pub proof fn law_plus_is_a_space(b: Seq<u8>, i: int)
    requires
        forall|j: int| 0 <= j < b.len() ==> b[j] != 37,
    ensures
        percent_decoded(b).len() == b.len(),
        0 <= i < b.len() ==> percent_decoded(b)[i] == if b[i] == 43 {
            32u8
        } else {
            b[i]
        },
    decreases b.len(),
{
    if b.len() > 0 {
        assert forall|j: int| 0 <= j < b.skip(1).len() implies b.skip(1)[j] != 37 by {
            assert(b[j + 1] != 37);
        }
        assert(b[0] != 37);
        law_plus_is_a_space(b.skip(1), i - 1);
    }
}

/// Decoding goes byte by byte from the left: an escape stands for one byte,
/// upper case or lower, wherever it stands.
pub proof fn law_escapes_decode_in_place(value: u8, upper: bool, rest: Seq<u8>)
    ensures
        ({
            let digit = |d: int|
                if d < 10 {
                    (48 + d) as u8
                } else if upper {
                    (55 + d) as u8
                } else {
                    (87 + d) as u8
                };
            percent_decoded(
                seq![37u8, digit(value as int / 16), digit(value as int % 16)] + rest,
            ) == seq![value] + percent_decoded(rest)
        }),
{
    let digit = |d: int|
        if d < 10 {
            (48 + d) as u8
        } else if upper {
            (55 + d) as u8
        } else {
            (87 + d) as u8
        };
    let b = seq![37u8, digit(value as int / 16), digit(value as int % 16)] + rest;
    assert(b.skip(3) =~= rest);
    assert(escaped_byte(b[1], b[2]) == Some(value));
}

/// A percent sign that begins no escape stays as it is.
pub proof fn law_stray_percent_stays(rest: Seq<u8>)
    requires
        rest.len() < 2 || !(48 <= rest[1] <= 57 || 65 <= rest[1] <= 70 || 97 <= rest[1] <= 102)
            || !(48 <= rest[0] <= 57 || 65 <= rest[0] <= 70 || 97 <= rest[0] <= 102 || rest[0]
            == 43),
    ensures
        percent_decoded(seq![37u8] + rest) == seq![37u8] + percent_decoded(rest),
{
    let b = seq![37u8] + rest;
    assert(b.skip(1) =~= rest);
}

/// A field is the first part of the form with its name, whatever stands before
/// and behind it.
pub proof fn law_first_field_of_its_name(
    parts: Seq<Seq<char>>,
    key: Seq<char>,
    value: Seq<char>,
    i: int,
)
    requires
        0 <= i < parts.len(),
        parts[i] == key + seq!['='] + value,
        forall|j: int| 0 <= j < key.len() ==> key[j] != '=',
        forall|j: int|
            0 <= j < i ==> !(cut(#[trigger] parts[j], '=') matches Some(c) && c.0 == key),
    ensures
        first_field(parts, key) == Some(value),
    decreases i,
{
    law_cut_is_at_the_first(key, value, '=');
    if i > 0 {
        let rest = parts.skip(1);
        assert(!(cut(parts[0], '=') matches Some(c) && c.0 == key));
        assert forall|j: int| 0 <= j < i - 1 implies !(cut(#[trigger] rest[j], '=') matches Some(c)
            && c.0 == key) by {
            assert(rest[j] == parts[j + 1]);
        }
        assert(rest[i - 1] == parts[i]);
        law_first_field_of_its_name(rest, key, value, i - 1);
    }
}

/// A form is the configuration in its fields: the port as written, 9000 where
/// none or no number up to 65535 is written, and no configuration without a
/// network name.
pub proof fn law_form_is_the_config(
    ssid: Seq<char>,
    pass: Seq<char>,
    ip: Seq<char>,
    port: u16,
    other: Option<Seq<char>>,
    larger: nat,
)
    requires
        ssid.len() > 0,
        larger > 65535,
    ensures
        form_config(Some(ssid), Some(pass), Some(ip), Some(decimal(port as nat))) == Some(
            ConfigView { ssid, pass, target_ip: ip, target_port: port },
        ),
        form_config(Some(ssid), None, None, None) == Some(
            ConfigView {
                ssid,
                pass: Seq::empty(),
                target_ip: Seq::empty(),
                target_port: 9000,
            },
        ),
        form_port(Some(decimal(larger))) == 9000,
        form_port(Some(Seq::empty())) == 9000,
        form_config(None, other, other, other) is None,
        form_config(Some(Seq::empty()), other, other, other) is None,
{
    law_decimal_reads_back(port as nat, 65535);
    lemma_decimal_digits(larger);
    assert(is_digit(decimal(larger)[0]));
}

/// The network name ends in the last two bytes of the hardware address, two
/// lower-case hexadecimal digits each, and can be told apart by them.
pub proof fn law_network_name_shows_the_address(mac: Seq<u8>, other: Seq<u8>)
    requires
        mac.len() == 6,
        other.len() == 6,
    ensures
        network_name(mac).len() == 13,
        network_name(mac).take(9) == "maschine-"@,
        network_name(mac) == network_name(other) <==> mac[4] == other[4] && mac[5] == other[5],
        forall|i: int|
            9 <= i < 13 ==> ('0' <= #[trigger] network_name(mac)[i] <= '9' || 'a'
                <= network_name(mac)[i] <= 'f'),
        escaped_byte(network_name(mac)[9] as u8, network_name(mac)[10] as u8) == Some(mac[4]),
        escaped_byte(network_name(mac)[11] as u8, network_name(mac)[12] as u8) == Some(mac[5]),
{
    reveal_strlit("maschine-");
    assert(network_name(mac).take(9) =~= "maschine-"@);
    let (a, b) = (network_name(mac), network_name(other));
    if a == b {
        assert(a[9] == b[9] && a[10] == b[10] && a[11] == b[11] && a[12] == b[12]);
    }
}

/// A DNS reply says that it is one, without error, with one answer and nothing
/// more: an address record that lives for a minute, for the name asked.
pub proof fn law_dns_reply_is_one_answer(query: Seq<u8>, ip: Seq<u8>)
    requires
        query.len() >= 12,
        ip.len() == 4,
    ensures
        ({
            let reply = dns_answered(query) + dns_record(ip);
            &&& reply.len() == query.len() + 16
            &&& reply[2] == 0x81 && reply[3] == 0x80
            &&& reply[6] == 0 && reply[7] == 1
            &&& reply[8] == 0 && reply[9] == 0 && reply[10] == 0 && reply[11] == 0
            &&& reply.subrange(query.len() as int, query.len() as int + 12) == seq![
                0xc0u8, 0x0c, 0, 1, 0, 1, 0, 0, 0, 60, 0, 4,
            ]
        }),
        is_dns_query(query) <==> query[2] < 128,
        forall|short: Seq<u8>| #[trigger] short.len() < 12 ==> !is_dns_query(short),
{
    let reply = dns_answered(query) + dns_record(ip);
    assert(reply.subrange(query.len() as int, query.len() as int + 12) =~= seq![
        0xc0u8, 0x0c, 0, 1, 0, 1, 0, 0, 0, 60, 0, 4,
    ]);
}

/// A plus sign behind a percent sign leaves one digit for the value.
pub proof fn law_signed_escape_is_one_digit(d: u8, upper: bool, rest: Seq<u8>)
    requires
        d < 16,
    ensures
        percent_decoded(
            seq![
                37u8,
                43,
                (if d < 10 {
                    48 + d
                } else if upper {
                    55 + d
                } else {
                    87 + d
                }) as u8,
            ] + rest,
        ) == seq![d] + percent_decoded(rest),
{
    let digit = (if d < 10 {
        48 + d
    } else if upper {
        55 + d
    } else {
        87 + d
    }) as u8;
    let b = seq![37u8, 43, digit] + rest;
    assert(b.skip(3) =~= rest);
    assert(escaped_byte(b[1], b[2]) == Some(d));
}

} // verus!
