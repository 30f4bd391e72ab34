//! OSC messages on the wire: an address, a type tag, one argument.
//!
//! Floats travel as their 32-bit patterns here (`f32::to_bits`).

use crate::text::{same_text, utf8_text};
use vstd::prelude::*;
use vstd::utf8::{
    char_u32_cast, decode_utf8, encode_scalar, encode_utf8, encode_utf8_decode_utf8, encode_utf8_valid_utf8,
    is_ascii_chars_encode_utf8, valid_utf8,
};

verus! {

/// Bytes closed by at least one zero, up to the next multiple of four.
pub open spec fn padded(b: Seq<u8>) -> Seq<u8> {
    b + Seq::new((4 - b.len() % 4) as nat, |i: int| 0u8)
}

/// Close a string: a zero, and more up to a multiple of four bytes.
pub fn pad4(b: &mut Vec<u8>)
    ensures
        final(b)@ == padded(old(b)@),
{
    let n: usize = 4 - b.len() % 4;
    let mut i: usize = 0;
    while i < n
        invariant
            i <= n,
            n == 4 - old(b)@.len() % 4,
            b@ == old(b)@ + Seq::new(i as nat, |j: int| 0u8),
        decreases n - i,
    {
        b.push(0);
        i += 1;
        assert(b@ =~= old(b)@ + Seq::new(i as nat, |j: int| 0u8));
    }
}

/// Address and type tag, each closed and padded.
pub open spec fn osc_head_bytes(addr: Seq<char>, tag: Seq<char>) -> Seq<u8> {
    padded(padded(encode_utf8(addr)) + encode_utf8(tag))
}

/// Address and type tag of a message.
pub fn osc_head(addr: &str, tag: &str) -> (r: Vec<u8>)
    ensures
        r@ == osc_head_bytes(addr@, tag@),
{
    let mut b: Vec<u8> = Vec::new();
    b.extend_from_slice(addr.as_bytes());
    assert(b@ =~= encode_utf8(addr@));
    pad4(&mut b);
    let ghost head = b@;
    b.extend_from_slice(tag.as_bytes());
    assert(b@ =~= head + encode_utf8(tag@));
    pad4(&mut b);
    b
}

/// A 32-bit word, most significant byte first.
pub open spec fn be32(v: u32) -> Seq<u8> {
    seq![
        (v / 0x100_0000) as u8,
        (v / 0x1_0000 % 256) as u8,
        (v / 0x100 % 256) as u8,
        (v % 256) as u8,
    ]
}

/// The word that four bytes stand for, most significant first.
pub open spec fn be32_value(b: Seq<u8>) -> u32 {
    (0x100_0000 * b[0] + 0x1_0000 * b[1] + 0x100 * b[2] + b[3]) as u32
}

/// Writing a word and reading it back gives the same word.
pub proof fn lemma_be32_reads_back(v: u32)
    ensures
        be32_value(be32(v)) == v,
        be32(v).len() == 4,
{
}

fn push_be32(b: &mut Vec<u8>, v: u32)
    ensures
        final(b)@ == old(b)@ + be32(v),
{
    b.push((v / 0x100_0000) as u8);
    b.push((v / 0x1_0000 % 256) as u8);
    b.push((v / 0x100 % 256) as u8);
    b.push((v % 256) as u8);
    assert(b@ =~= old(b)@ + be32(v));
}

/// A message with one float, given as its bit pattern.
pub open spec fn osc_float(addr: Seq<char>, bits: u32) -> Seq<u8> {
    osc_head_bytes(addr, ",f"@) + be32(bits)
}

/// A message with one float, given as its bit pattern.
pub fn osc_msg(addr: &str, bits: u32) -> (r: Vec<u8>)
    ensures
        r@ == osc_float(addr@, bits),
{
    let mut b = osc_head(addr, ",f");
    push_be32(&mut b, bits);
    b
}

/// The two's complement pattern of a 32-bit integer.
pub open spec fn int_bits(v: i32) -> u32 {
    if v >= 0 {
        v as u32
    } else {
        (v + 0x1_0000_0000) as u32
    }
}

/// A message with one integer.
pub open spec fn osc_int(addr: Seq<char>, v: i32) -> Seq<u8> {
    osc_head_bytes(addr, ",i"@) + be32(int_bits(v))
}

/// A message with one integer.
pub fn osc_msg_i(addr: &str, v: i32) -> (r: Vec<u8>)
    ensures
        r@ == osc_int(addr@, v),
{
    let mut b = osc_head(addr, ",i");
    let bits: u32 = if v >= 0 {
        v as u32
    } else {
        (v as i64 + 0x1_0000_0000) as u32
    };
    push_be32(&mut b, bits);
    b
}

/// A message with one string.
pub open spec fn osc_string(addr: Seq<char>, s: Seq<char>) -> Seq<u8> {
    padded(osc_head_bytes(addr, ",s"@) + encode_utf8(s))
}

/// A message with one string.
pub fn osc_msg_s(addr: &str, s: &str) -> (r: Vec<u8>)
    ensures
        r@ == osc_string(addr@, s@),
{
    let mut b = osc_head(addr, ",s");
    let ghost head = b@;
    b.extend_from_slice(s.as_bytes());
    assert(b@ =~= head + encode_utf8(s@));
    pad4(&mut b);
    b
}

/// Index of the first zero byte, or the length if there is none.
pub open spec fn zero_index(d: Seq<u8>) -> int
    decreases d.len(),
{
    if d.len() == 0 || d[0] == 0 {
        0
    } else {
        1 + zero_index(d.skip(1))
    }
}

proof fn lemma_zero_index_unique(d: Seq<u8>, k: int)
    requires
        0 <= k <= d.len(),
        forall|j: int| 0 <= j < k ==> d[j] != 0,
        k < d.len() ==> d[k] == 0,
    ensures
        zero_index(d) == k,
    decreases d.len(),
{
    if k > 0 {
        assert(d[0] != 0);
        assert forall|j: int| 0 <= j < k - 1 implies d.skip(1)[j] != 0 by {
            assert(d[j + 1] != 0);
        }
        lemma_zero_index_unique(d.skip(1), k - 1);
    }
}

fn find_zero(d: &[u8]) -> (r: usize)
    ensures
        r <= d@.len(),
        r == zero_index(d@),
        r < d@.len() ==> d@[r as int] == 0,
{
    let mut i: usize = 0;
    while i < d.len()
        invariant
            i <= d@.len(),
            forall|j: int| 0 <= j < i ==> d@[j] != 0,
        decreases d.len() - i,
    {
        if d[i] == 0 {
            proof {
                lemma_zero_index_unique(d@, i as int);
            }
            return i;
        }
        i += 1;
    }
    proof {
        lemma_zero_index_unique(d@, i as int);
    }
    i
}

/// The argument of a single-float message: its last four bytes.
pub open spec fn last_word(d: Seq<u8>) -> u32 {
    be32_value(d.skip(d.len() - 4))
}

fn read_last_word(d: &[u8]) -> (r: u32)
    requires
        d@.len() >= 4,
    ensures
        r == last_word(d@),
{
    let n = d.len();
    0x100_0000 * (d[n - 4] as u32) + 0x1_0000 * (d[n - 3] as u32) + 0x100 * (d[n - 2] as u32) + (d[n
        - 1] as u32)
}

/// Address and float bits of a message: the address ends at the first zero
/// byte, and at least eight bytes follow it up to the end.
pub open spec fn osc_content(d: Seq<u8>) -> Option<(Seq<char>, u32)> {
    let end = zero_index(d);
    if end < d.len() && valid_utf8(d.take(end)) && d.len() >= end + 8 {
        Some((decode_utf8(d.take(end)), last_word(d)))
    } else {
        None
    }
}

/// Address and float bits of a message.
pub fn osc_parse(d: &[u8]) -> (r: Option<(&str, u32)>)
    ensures
        match r {
            Some((addr, bits)) => osc_content(d@) == Some((addr@, bits)),
            None => osc_content(d@) is None,
        },
{
    let end = find_zero(d);
    if end == d.len() {
        return None;
    }
    let head = &d[0..end];
    assert(head@ == d@.take(end as int));
    match utf8_text(head) {
        Some(addr) => {
            if d.len() - end < 8 {
                None
            } else {
                Some((addr, read_last_word(d)))
            }
        },
        None => None,
    }
}

/// Address and float bits of a message, read leniently: an address without a
/// closing zero runs to the end, and the last four bytes are the float
/// wherever the address ends.
pub open spec fn osc_lenient_content(d: Seq<u8>) -> Option<(Seq<char>, u32)> {
    let end = zero_index(d);
    if valid_utf8(d.take(end)) && d.len() >= 4 {
        Some((decode_utf8(d.take(end)), last_word(d)))
    } else {
        None
    }
}

/// Address and float bits of a message, read leniently. Single-float messages
/// only: all that the bridge ever receives. Fewer than four bytes are no
/// message.
pub fn osc_decode(data: &[u8]) -> (r: Option<(&str, u32)>)
    ensures
        match r {
            Some((addr, bits)) => osc_lenient_content(data@) == Some((addr@, bits)),
            None => osc_lenient_content(data@) is None,
        },
{
    let end = find_zero(data);
    let head = &data[0..end];
    assert(head@ == data@.take(end as int));
    match utf8_text(head) {
        Some(addr) => {
            if data.len() < 4 {
                None
            } else {
                Some((addr, read_last_word(data)))
            }
        },
        None => None,
    }
}

/// What the receiver on the LED port does with a datagram.
#[derive(Debug, PartialEq, Eq)]
pub enum Inbound<'a> {
    /// Not a message it can read: dropped.
    Ignore,
    /// A round-trip probe: this reply goes straight back to the sender.
    Pong(Vec<u8>),
    /// An address and the bits of its float, for the engine.
    Deliver(&'a str, u32),
}

/// What the receiver on the LED port does, by its contents.
pub enum InboundView {
    Ignore,
    Pong(Seq<u8>),
    Deliver(Seq<char>, u32),
}

impl<'a> View for Inbound<'a> {
    type V = InboundView;

    open spec fn view(&self) -> InboundView {
        match *self {
            Inbound::Ignore => InboundView::Ignore,
            Inbound::Pong(reply) => InboundView::Pong(reply@),
            Inbound::Deliver(addr, bits) => InboundView::Deliver(addr@, bits),
        }
    }
}

/// What the receiver on the LED port does with a datagram.
pub open spec fn inbound(d: Seq<u8>) -> InboundView {
    match osc_content(d) {
        None => InboundView::Ignore,
        Some((addr, bits)) => if addr == "/maschine/ping"@ {
            InboundView::Pong(osc_float("/maschine/pong"@, bits))
        } else {
            InboundView::Deliver(addr, bits)
        },
    }
}

/// What the receiver on the LED port does with a datagram: a probe is answered
/// at once, with the value it carried, everything else readable goes to the
/// engine.
pub fn on_datagram(d: &[u8]) -> (r: Inbound)
    ensures
        r@ == inbound(d@),
        match osc_content(d@) {
            None => r is Ignore,
            Some((addr, bits)) => if addr == "/maschine/ping"@ {
                r matches Inbound::Pong(reply) && reply@ == osc_float("/maschine/pong"@, bits)
            } else {
                r matches Inbound::Deliver(a, b) && a@ == addr && b == bits
            },
        },
{
    match osc_parse(d) {
        None => Inbound::Ignore,
        Some((addr, bits)) => {
            if same_text(addr, "/maschine/ping") {
                Inbound::Pong(osc_msg("/maschine/pong", bits))
            } else {
                Inbound::Deliver(addr, bits)
            }
        },
    }
}

/// Only a NUL character puts a zero byte into an encoding.
pub proof fn lemma_encoding_has_no_zero(s: Seq<char>)
    requires
        forall|i: int| 0 <= i < s.len() ==> s[i] != '\0',
    ensures
        forall|i: int| 0 <= i < encode_utf8(s).len() ==> encode_utf8(s)[i] != 0,
    decreases s.len(),
{
    if s.len() > 0 {
        let c = s[0] as u32;
        let head = encode_scalar(c);
        let rest = encode_utf8(s.drop_first());
        assert forall|i: int| 0 <= i < s.drop_first().len() implies s.drop_first()[i] != '\0' by {
            assert(s[i + 1] != '\0');
        }
        lemma_encoding_has_no_zero(s.drop_first());
        assert(c != 0) by {
            if c == 0 {
                char_u32_cast(s[0], c);
                assert(0u32 as char == '\0');
            }
        }
        assert(c <= 0x7f && c != 0 ==> (c & 0x7F) as u8 != 0) by (bit_vector);
        assert(0xC0u8 | ((c >> 6) & 0x1F) as u8 != 0) by (bit_vector);
        assert(0xE0u8 | ((c >> 12) & 0x0F) as u8 != 0) by (bit_vector);
        assert(0xF0u8 | ((c >> 18) & 0x7) as u8 != 0) by (bit_vector);
        assert(0x80u8 | (c & 0x3F) as u8 != 0) by (bit_vector);
        assert(0x80u8 | ((c >> 6) & 0x3F) as u8 != 0) by (bit_vector);
        assert(0x80u8 | ((c >> 12) & 0x3F) as u8 != 0) by (bit_vector);
        assert forall|i: int| 0 <= i < encode_utf8(s).len() implies encode_utf8(s)[i] != 0 by {
            if i >= head.len() {
                assert(encode_utf8(s)[i] == rest[i - head.len()]);
            }
        }
    }
}

/// A float message read back gives the address and the bits it was made of,
/// with either reader. (An address ends at a NUL character, so it holds none.)
pub proof fn law_osc_float_reads_back(addr: Seq<char>, bits: u32)
    requires
        forall|i: int| 0 <= i < addr.len() ==> addr[i] != '\0',
    ensures
        osc_content(osc_float(addr, bits)) == Some((addr, bits)),
        osc_lenient_content(osc_float(addr, bits)) == Some((addr, bits)),
{
    let d = osc_float(addr, bits);
    let a = encode_utf8(addr);
    reveal_strlit(",f");
    is_ascii_chars_encode_utf8(",f"@);
    lemma_encoding_has_no_zero(addr);
    assert(d.take(a.len() as int) =~= a);
    lemma_zero_index_unique(d, a.len() as int);
    encode_utf8_valid_utf8(addr);
    encode_utf8_decode_utf8(addr);
    lemma_be32_reads_back(bits);
    assert(d.skip(d.len() - 4) =~= be32(bits));
}

/// Every message is a whole number of 32-bit words long.
pub proof fn law_osc_messages_are_word_sized(addr: Seq<char>, bits: u32, v: i32, s: Seq<char>)
    ensures
        osc_float(addr, bits).len() % 4 == 0,
        osc_int(addr, v).len() % 4 == 0,
        osc_string(addr, s).len() % 4 == 0,
{
}

/// A probe is answered with the value that it carried.
pub proof fn law_ping_echoes_value(bits: u32)
    ensures
        osc_content(osc_float("/maschine/ping"@, bits)) == Some(("/maschine/ping"@, bits)),
        osc_content(osc_float("/maschine/pong"@, bits)) == Some(("/maschine/pong"@, bits)),
{
    reveal_strlit("/maschine/ping");
    reveal_strlit("/maschine/pong");
    law_osc_float_reads_back("/maschine/ping"@, bits);
    law_osc_float_reads_back("/maschine/pong"@, bits);
}

/// The receiver answers every probe with its value, and hands on every other
/// message as it was sent.
pub proof fn law_receiver_answers_or_delivers(addr: Seq<char>, bits: u32)
    requires
        forall|i: int| 0 <= i < addr.len() ==> addr[i] != '\0',
    ensures
        inbound(osc_float("/maschine/ping"@, bits)) == InboundView::Pong(
            osc_float("/maschine/pong"@, bits),
        ),
        addr != "/maschine/ping"@ ==> inbound(osc_float(addr, bits)) == InboundView::Deliver(
            addr,
            bits,
        ),
{
    law_ping_echoes_value(bits);
    law_osc_float_reads_back(addr, bits);
}

/// The lenient reader reads every message that the strict one reads, and reads
/// it alike. The strict one wants a closed address and eight bytes from there.
pub proof fn law_lenient_reader_agrees(d: Seq<u8>)
    ensures
        osc_content(d) is Some ==> osc_lenient_content(d) == osc_content(d),
        osc_content(d) is Some ==> d.len() >= 8 && exists|i: int|
            0 <= i <= d.len() - 8 && #[trigger] d[i] == 0,
{
    lemma_zero_index(d);
    if osc_content(d) is Some {
        assert(d[zero_index(d)] == 0);
    }
}

proof fn lemma_zero_index(d: Seq<u8>)
    ensures
        0 <= zero_index(d) <= d.len(),
        zero_index(d) < d.len() ==> d[zero_index(d)] == 0,
    decreases d.len(),
{
    if d.len() > 0 && d[0] != 0 {
        lemma_zero_index(d.skip(1));
    }
}

/// Whether `d` begins with this address, closed by a zero and padded to a whole
/// word, and a comma and this letter as the type of its argument.
pub open spec fn headed(d: Seq<u8>, addr: Seq<u8>, letter: u8) -> bool {
    let at = 4 * (addr.len() as int / 4 + 1);
    &&& d.len() >= at + 4
    &&& d.take(addr.len() as int) == addr
    &&& forall|i: int| addr.len() <= i < at ==> #[trigger] d[i] == 0
    &&& d[at] == 44 && d[at + 1] == letter && d[at + 2] == 0 && d[at + 3] == 0
}

proof fn lemma_headed(addr: Seq<char>, tag: Seq<char>, letter: u8, rest: Seq<u8>)
    requires
        encode_utf8(tag) == seq![44u8, letter],
    ensures
        headed(osc_head_bytes(addr, tag) + rest, encode_utf8(addr), letter),
        osc_head_bytes(addr, tag).len() == 4 * (encode_utf8(addr).len() as int / 4 + 1) + 4,
{
    let a = encode_utf8(addr);
    let d = osc_head_bytes(addr, tag) + rest;
    let at = 4 * (a.len() as int / 4 + 1);
    assert(padded(a).len() == at);
    assert(d.take(a.len() as int) =~= a);
    assert forall|i: int| a.len() <= i < at implies #[trigger] d[i] == 0 by {
        assert(d[i] == padded(a)[i]);
    }
}

proof fn lemma_word_at_the_end(head: Seq<u8>, v: u32)
    ensures
        ({
            let d = head + be32(v);
            let at = head.len() as int;
            &&& d.len() == at + 4
            &&& 0x100_0000 * d[at] + 0x1_0000 * d[at + 1] + 0x100 * d[at + 2] + d[at + 3] == v
        }),
{
    let w = be32(v);
    let d = head + w;
    let at = head.len() as int;
    assert(d[at] == w[0] && d[at + 1] == w[1] && d[at + 2] == w[2] && d[at + 3] == w[3]);
    assert(0x100_0000 * w[0] + 0x1_0000 * w[1] + 0x100 * w[2] + w[3] == v);
}

proof fn lemma_int_bits(v: i32)
    ensures
        int_bits(v) == v as int % 0x1_0000_0000,
{
}

/// A float message is its address, the type `f`, and the float's bits, most
/// significant byte first.
pub proof fn law_osc_float_layout(addr: Seq<char>, bits: u32)
    ensures
        ({
            let d = osc_float(addr, bits);
            let at = 4 * (encode_utf8(addr).len() as int / 4 + 1) + 4;
            &&& headed(d, encode_utf8(addr), 102)
            &&& d.len() == at + 4
            &&& 0x100_0000 * d[at] + 0x1_0000 * d[at + 1] + 0x100 * d[at + 2] + d[at + 3] == bits
        }),
{
    assert(encode_utf8(",f"@) == seq![44u8, 102]) by {
        reveal_strlit(",f");
        is_ascii_chars_encode_utf8(",f"@);
        assert(encode_utf8(",f"@) =~= seq![44u8, 102]);
    }
    lemma_headed(addr, ",f"@, 102, be32(bits));
    lemma_word_at_the_end(osc_head_bytes(addr, ",f"@), bits);
}

/// An integer message is its address, the type `i`, and the integer in two's
/// complement, most significant byte first.
pub proof fn law_osc_int_layout(addr: Seq<char>, v: i32)
    ensures
        ({
            let d = osc_int(addr, v);
            let at = 4 * (encode_utf8(addr).len() as int / 4 + 1) + 4;
            &&& headed(d, encode_utf8(addr), 105)
            &&& d.len() == at + 4
            &&& 0x100_0000 * d[at] + 0x1_0000 * d[at + 1] + 0x100 * d[at + 2] + d[at + 3]
                == v as int % 0x1_0000_0000
        }),
{
    assert(encode_utf8(",i"@) == seq![44u8, 105]) by {
        reveal_strlit(",i");
        is_ascii_chars_encode_utf8(",i"@);
        assert(encode_utf8(",i"@) =~= seq![44u8, 105]);
    }
    lemma_headed(addr, ",i"@, 105, be32(int_bits(v)));
    lemma_word_at_the_end(osc_head_bytes(addr, ",i"@), int_bits(v));
    lemma_int_bits(v);
}

/// A string message is its address, the type `s`, and the string, closed by a
/// zero and padded.
pub proof fn law_osc_string_layout(addr: Seq<char>, s: Seq<char>)
    ensures
        ({
            let d = osc_string(addr, s);
            let at = 4 * (encode_utf8(addr).len() as int / 4 + 1) + 4;
            let e = encode_utf8(s);
            &&& headed(d, encode_utf8(addr), 115)
            &&& d.len() == at + 4 * (e.len() as int / 4 + 1)
            &&& d.subrange(at, at + e.len() as int) == e
            &&& forall|i: int| at + e.len() <= i < d.len() ==> #[trigger] d[i] == 0
        }),
{
    reveal_strlit(",s");
    is_ascii_chars_encode_utf8(",s"@);
    assert(encode_utf8(",s"@) =~= seq![44u8, 115]);
    let e = encode_utf8(s);
    let head = osc_head_bytes(addr, ",s"@);
    let at = head.len() as int;
    let d = osc_string(addr, s);
    lemma_headed(addr, ",s"@, 115, d.skip(at));
    assert(d =~= head + d.skip(at));
    assert(d.subrange(at, at + e.len() as int) =~= e);
    assert forall|i: int| at + e.len() <= i < d.len() implies #[trigger] d[i] == 0 by {
        assert(d[i] == padded(head + e)[i]);
    }
}

/// Any bytes may stand between a closed address and the last four bytes, which
/// are the argument. The strict reader wants seven bytes or more behind the
/// closing zero; the lenient one wants four in all.
pub proof fn law_argument_is_the_last_word(addr: Seq<char>, rest: Seq<u8>)
    requires
        forall|i: int| 0 <= i < addr.len() ==> addr[i] != '\0',
    ensures
        ({
            let d = encode_utf8(addr) + seq![0u8] + rest;
            let n = d.len() as int;
            let word = (0x100_0000 * d[n - 4] + 0x1_0000 * d[n - 3] + 0x100 * d[n - 2] + d[n
                - 1]) as u32;
            &&& osc_content(d) == if rest.len() >= 7 {
                Some((addr, word))
            } else {
                None
            }
            &&& osc_lenient_content(d) == if n >= 4 {
                Some((addr, word))
            } else {
                None
            }
        }),
{
    let a = encode_utf8(addr);
    let d = a + seq![0u8] + rest;
    lemma_encoding_has_no_zero(addr);
    assert(d.take(a.len() as int) =~= a);
    lemma_zero_index_unique(d, a.len() as int);
    encode_utf8_valid_utf8(addr);
    encode_utf8_decode_utf8(addr);
}

/// An address that is not closed is no message to the strict reader. To the
/// lenient one it runs to the end, where it is four bytes or more.
pub proof fn law_open_address_runs_to_the_end(addr: Seq<char>)
    requires
        forall|i: int| 0 <= i < addr.len() ==> addr[i] != '\0',
    ensures
        osc_content(encode_utf8(addr)) is None,
        encode_utf8(addr).len() < 4 ==> osc_lenient_content(encode_utf8(addr)) is None,
        encode_utf8(addr).len() >= 4 ==> match osc_lenient_content(encode_utf8(addr)) {
            Some(content) => content.0 == addr,
            None => false,
        },
{
    let a = encode_utf8(addr);
    lemma_encoding_has_no_zero(addr);
    assert(a.take(a.len() as int) =~= a);
    lemma_zero_index_unique(a, a.len() as int);
    encode_utf8_valid_utf8(addr);
    encode_utf8_decode_utf8(addr);
}

} // verus!
