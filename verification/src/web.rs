//! The profiles page: request parameters, what the page is told, and what
//! happens to an uploaded profile.

use vstd::prelude::*;
use vstd::string::StringExecFns;
use vstd::utf8::{
    decode_utf8, decode_utf8_encode_utf8, encode_utf8, encode_utf8_decode_utf8,
    encode_utf8_valid_utf8, valid_utf8,
};

use crate::profile::{
    fits, law_saved_profile_is_loaded, opt_text, slot_bytes, slot_key, stored_json, Rejection,
    MAX_JSON, SLOTS,
};
use crate::text::{
    after_prefix, cut, decimal, is_digit, law_decimal_reads_back, law_prefix_is_stripped,
    lemma_char_index_unique,    lemma_decimal_digits, parse_uint, parsed_uint, push_decimal, split, split_once, split_text,
    strip_prefix, texts, utf8_text,
};

verus! {

/// The error of the `serde_json` crate.
#[verifier::external_type_specification]
#[verifier::external_body]
pub struct ExJsonError(serde_json::Error);

/// What `serde_json::to_string` makes of a list of texts.
pub uninterp spec fn json_of_texts(names: Seq<Seq<char>>) -> Seq<char>;

/// Texts by their characters.
pub open spec fn owned_texts(names: Seq<String>) -> Seq<Seq<char>> {
    names.map_values(|s: String| s@)
}

/// `serde_json::to_string` on a list of texts: it does not fail, since neither
/// a text nor a list of them ever does and it writes to memory, and the JSON it
/// gives depends on the texts alone.
#[verifier::external_body]
fn texts_to_json(names: &Vec<String>) -> (r: Result<String, serde_json::Error>)
    ensures
        r is Ok,
        r->Ok_0@ == json_of_texts(owned_texts(names@)),
{
    serde_json::to_string(names)
}

/// The script line that tells the page the names of the slots, as JSON, and
/// the active one.
pub open spec fn script_line(json: Seq<char>, active: u8) -> Seq<char> {
    "let names="@ + json + ",active="@ + decimal(active as nat) + ";"@
}

/// The script line for names that are JSON already.
pub fn names_script(json: &str, active: u8) -> (r: String)
    ensures
        r@ == script_line(json@, active),
{
    let mut out = "let names=".to_owned();
    out.append(json);
    out.append(",active=");
    push_decimal(&mut out, active as u64);
    out.append(";");
    out
}

/// The script line that tells the page the names of the slots and the active
/// one.
pub fn page_script(names: &Vec<String>, active: u8) -> (r: String)
    ensures
        r@ == script_line(json_of_texts(owned_texts(names@)), active),
{
    let json = texts_to_json(names).unwrap();
    names_script(json.as_str(), active)
}

/// The first of the parts that begins with `prefix`: what follows it there.
pub open spec fn first_after(parts: Seq<Seq<char>>, prefix: Seq<char>) -> Option<Seq<char>>
    decreases parts.len(),
{
    if parts.len() == 0 {
        None
    } else if after_prefix(parts[0], prefix) is Some {
        after_prefix(parts[0], prefix)
    } else {
        first_after(parts.skip(1), prefix)
    }
}

/// The slot that a request names: `n=<0-7>` in its query.
pub open spec fn requested_slot(uri: Seq<char>) -> Option<u8> {
    match cut(uri, '?') {
        Some((_, query)) => match first_after(split(query, '&'), "n="@) {
            Some(n) => match parsed_uint(n, 7) {
                Some(slot) => Some(slot as u8),
                None => None,
            },
            None => None,
        },
        None => None,
    }
}

/// The slot that a request names.
pub fn slot_param(uri: &str) -> (r: Option<u8>)
    ensures
        r == requested_slot(uri@),
        r matches Some(slot) ==> slot < SLOTS,
{
    let query = match split_once(uri, '?') {
        Some((_, q)) => q,
        None => {
            return None;
        },
    };
    let parts = split_text(query, '&');
    let ghost all = split(query@, '&');
    let mut i: usize = 0;
    assert(all.skip(0) =~= all);
    while i < parts.len()
        invariant
            i <= parts@.len(),
            all == split(query@, '&'),
            all == texts(parts@),
            cut(uri@, '?') matches Some(c) && c.1 == query@,
            first_after(all.skip(i as int), "n="@) == first_after(all, "n="@),
        decreases parts.len() - i,
    {
        assert(all.skip(i as int)[0] == parts@[i as int]@);
        assert(all.skip(i as int).skip(1) =~= all.skip(i + 1));
        if let Some(n) = strip_prefix(parts[i], "n=") {
            return match parse_uint(n, 7) {
                Some(slot) => Some(slot as u8),
                None => None,
            };
        }
        i += 1;
    }
    None
}

/// What a request without a slot is told.
pub fn no_slot_message() -> (r: &'static str)
    ensures
        r@ == "n=0..7 required"@,
{
    "n=0..7 required"
}

/// What a slot's profile is served as: its JSON, or that of an empty profile
/// if nothing is stored.
pub open spec fn served_json(stored: Option<Seq<char>>) -> Seq<char> {
    match stored {
        Some(json) => json,
        None => "{\n  \"name\": \"\",\n  \"map\": {}\n}"@,
    }
}

/// What a slot's profile is served as.
pub fn profile_text(stored: Option<String>) -> (r: String)
    ensures
        r@ == served_json(opt_text(stored)),
{
    match stored {
        Some(json) => json,
        None => "{\n  \"name\": \"\",\n  \"map\": {}\n}".to_owned(),
    }
}

/// Whether a request body has been read to its end: nothing more came, or the
/// buffer is full.
pub fn body_complete(len: usize, read: usize, capacity: usize) -> (r: bool)
    ensures
        r == (read == 0 || len == capacity),
{
    read == 0 || len == capacity
}

/// What becomes of an uploaded body.
pub open spec fn uploaded(body: Seq<u8>) -> Result<Seq<char>, Rejection> {
    if !valid_utf8(body) {
        Err(Rejection::NotText)
    } else if body.len() > MAX_JSON {
        Err(Rejection::TooLarge)
    } else {
        Ok(decode_utf8(body))
    }
}

/// The JSON in an uploaded body: text, and small enough to be stored.
pub fn upload(body: &[u8]) -> (r: Result<&str, Rejection>)
    ensures
        match r {
            Ok(json) => uploaded(body@) == Ok::<Seq<char>, Rejection>(json@),
            Err(e) => uploaded(body@) == Err::<Seq<char>, Rejection>(e),
        },
        match r {
            Ok(json) => valid_utf8(body@) && body@.len() <= MAX_JSON && json@ == decode_utf8(body@),
            Err(Rejection::NotText) => !valid_utf8(body@),
            Err(Rejection::TooLarge) => valid_utf8(body@) && body@.len() > MAX_JSON,
            Err(Rejection::NotProfile) => false,
        },
{
    match utf8_text(body) {
        None => Err(Rejection::NotText),
        Some(json) => {
            proof {
                decode_utf8_encode_utf8(body@);
            }
            match fits(json) {
                Ok(()) => Ok(json),
                Err(e) => Err(e),
            }
        },
    }
}

/// Whether saving a slot changes what the engine runs.
pub fn reload_after_save(slot: u8, active: u8) -> (r: bool)
    ensures
        r == (slot == active),
{
    slot == active
}

/// A profile is served back as it was uploaded: the stored bytes of an uploaded
/// text are the body it came in, and are served as that text.
pub proof fn law_uploaded_profile_is_served(
    store: Map<Seq<char>, Seq<u8>>,
    slot: u8,
    body: Seq<u8>,
)
    requires
        valid_utf8(body),
    ensures
        ({
            let json = decode_utf8(body);
            let after = store.insert(slot_key(slot), encode_utf8(json));
            &&& slot_bytes(after, slot) == Some(body)
            &&& served_json(stored_json(slot_bytes(after, slot))) == json
        }),
{
    law_saved_profile_is_loaded(store, slot, decode_utf8(body), slot);
    decode_utf8_encode_utf8(body);
}

/// Every slot can be asked for, at any path.
pub proof fn law_slots_can_be_requested(path: Seq<char>, slot: u8)
    requires
        slot < SLOTS,
        forall|i: int| 0 <= i < path.len() ==> path[i] != '?',
    ensures
        requested_slot(path + "?n="@ + decimal(slot as nat)) == Some(slot),
{
    let uri = path + "?n="@ + decimal(slot as nat);
    let query = "n="@ + decimal(slot as nat);
    reveal_strlit("?n=");
    reveal_strlit("n=");
    lemma_decimal_digits(slot as nat);
    law_decimal_reads_back(slot as nat, 7);
    lemma_char_index_unique(uri, '?', path.len() as int);
    assert(uri.skip(path.len() as int + 1) =~= query);
    assert forall|j: int| 0 <= j < query.len() implies query[j] != '&' by {
        if j >= 2 {
            assert(query[j] == decimal(slot as nat)[j - 2]);
            assert(is_digit(decimal(slot as nat)[j - 2]));
        }
    }
    lemma_char_index_unique(query, '&', query.len() as int);
    assert(split(query, '&') =~= seq![query]);
    assert(query.take(2) =~= "n="@);
    assert(query.skip(2) =~= decimal(slot as nat));
}

/// A number that no slot has is no slot, and neither is a request without one.
pub proof fn law_other_numbers_are_no_slot(path: Seq<char>, n: nat)
    requires
        n >= 8,
        forall|i: int| 0 <= i < path.len() ==> path[i] != '?',
    ensures
        requested_slot(path + "?n="@ + decimal(n)) is None,
        requested_slot(path) is None,
{
    let uri = path + "?n="@ + decimal(n);
    let query = "n="@ + decimal(n);
    reveal_strlit("?n=");
    reveal_strlit("n=");
    lemma_decimal_digits(n);
    assert(is_digit(decimal(n)[0]));
    lemma_char_index_unique(uri, '?', path.len() as int);
    lemma_char_index_unique(path, '?', path.len() as int);
    assert(uri.skip(path.len() as int + 1) =~= query);
    assert forall|j: int| 0 <= j < query.len() implies query[j] != '&' by {
        if j >= 2 {
            assert(query[j] == decimal(n)[j - 2]);
            assert(is_digit(decimal(n)[j - 2]));
        }
    }
    lemma_char_index_unique(query, '&', query.len() as int);
    assert(split(query, '&') =~= seq![query]);
    assert(query.take(2) =~= "n="@);
    assert(query.skip(2) =~= decimal(n));
}

/// The first parameter of its name decides, whatever stands before it under
/// other names and whatever stands behind it.
pub proof fn law_first_parameter_decides(
    parts: Seq<Seq<char>>,
    prefix: Seq<char>,
    value: Seq<char>,
    i: int,
)
    requires
        0 <= i < parts.len(),
        parts[i] == prefix + value,
        forall|j: int| 0 <= j < i ==> after_prefix(#[trigger] parts[j], prefix) is None,
    ensures
        first_after(parts, prefix) == Some(value),
    decreases i,
{
    law_prefix_is_stripped(prefix, value, parts[i]);
    if i > 0 {
        let rest = parts.skip(1);
        assert(after_prefix(parts[0], prefix) is None);
        assert forall|j: int| 0 <= j < i - 1 implies after_prefix(#[trigger] rest[j], prefix) is None by {
            assert(rest[j] == parts[j + 1]);
        }
        assert(rest[i - 1] == parts[i]);
        law_first_parameter_decides(rest, prefix, value, i - 1);
    }
}

/// A slot that holds a profile is served as it is.
pub proof fn law_stored_profile_is_served(json: Seq<char>)
    ensures
        served_json(Some(json)) == json,
{
}

/// Every text of up to 3072 bytes is taken as it came, a larger one is too
/// large, and what is not text is not looked at for its size.
pub proof fn law_uploads_are_texts_that_fit(json: Seq<char>, body: Seq<u8>)
    ensures
        encode_utf8(json).len() <= 3072 ==> uploaded(encode_utf8(json)) == Ok::<
            Seq<char>,
            Rejection,
        >(json),
        encode_utf8(json).len() > 3072 ==> uploaded(encode_utf8(json)) == Err::<
            Seq<char>,
            Rejection,
        >(Rejection::TooLarge),
        uploaded(body) == Err::<Seq<char>, Rejection>(Rejection::NotText) <==> !valid_utf8(body),
{
    encode_utf8_valid_utf8(json);
    encode_utf8_decode_utf8(json);
}

/// The page is told the names as they are in JSON, and the active slot.
pub proof fn law_page_is_told_names_and_slot(json: Seq<char>, active: u8)
    ensures
        ({
            let line = script_line(json, active);
            let head = "let names="@.len() as int;
            let mid = ",active="@.len() as int;
            let end = line.len() - 1;
            &&& line.take(head) == "let names="@
            &&& line.subrange(head, head + json.len()) == json
            &&& line.subrange(head + json.len(), head + json.len() + mid) == ",active="@
            &&& parsed_uint(line.subrange(head + json.len() + mid, end), 255) == Some(
                active as nat,
            )
            &&& line[end] == ';'
        }),
{
    reveal_strlit("let names=");
    reveal_strlit(",active=");
    reveal_strlit(";");
    let line = script_line(json, active);
    let head = "let names="@.len() as int;
    let mid = ",active="@.len() as int;
    let end = line.len() - 1;
    assert(line.take(head) =~= "let names="@);
    assert(line.subrange(head, head + json.len()) =~= json);
    assert(line.subrange(head + json.len(), head + json.len() + mid) =~= ",active="@);
    assert(line.subrange(head + json.len() + mid, end) =~= decimal(active as nat));
    law_decimal_reads_back(active as nat, 255);
}

} // verus!
