//! Profiles: sparse per-control maps, eight slots of JSON.

use vstd::prelude::*;

use crate::text::{decimal, lemma_decimal_digits, push_decimal, same_text, utf8_text};
use vstd::utf8::{
    decode_utf8, encode_utf8, encode_utf8_decode_utf8, encode_utf8_valid_utf8, valid_utf8,
};

verus! {

/// Largest profile JSON that is stored, in bytes.
pub const MAX_JSON: usize = 3072;

/// Number of profile slots.
pub const SLOTS: u8 = 8;

/// What a profile says about one control.
pub struct Entry {
    /// The address to send to; none silences the control.
    pub osc: Option<String>,
    /// Knobs only: `"wrap"` sends a wrapping position, never clamped.
    pub mode: Option<String>,
    /// Knobs only: sensitivity, as the bits of a 64-bit float; none is 1.0.
    pub scale: Option<u64>,
    /// Incoming address that drives this control's LED.
    pub led_source: Option<String>,
    /// Held for the screens.
    pub label: Option<String>,
    /// Held for DIN MIDI, as JSON text.
    pub midi: Option<String>,
}

/// An entry by its contents.
pub struct EntryView {
    pub osc: Option<Seq<char>>,
    pub mode: Option<Seq<char>>,
    pub scale: Option<u64>,
    pub led_source: Option<Seq<char>>,
    pub label: Option<Seq<char>>,
    pub midi: Option<Seq<char>>,
}

/// The characters of an optional text.
pub open spec fn opt_text(t: Option<String>) -> Option<Seq<char>> {
    match t {
        Some(s) => Some(s@),
        None => None,
    }
}

impl View for Entry {
    type V = EntryView;

    open spec fn view(&self) -> EntryView {
        EntryView {
            osc: opt_text(self.osc),
            mode: opt_text(self.mode),
            scale: self.scale,
            led_source: opt_text(self.led_source),
            label: opt_text(self.label),
            midi: opt_text(self.midi),
        }
    }
}

impl Entry {
    /// An entry that says nothing but silences its control.
    pub fn new() -> (r: Self)
        ensures
            r@ == EntryView::silent(),
    {
        Entry { osc: None, mode: None, scale: None, led_source: None, label: None, midi: None }
    }
}

impl Default for Entry {
    fn default() -> (r: Self)
        ensures
            r@ == EntryView::silent(),
    {
        Entry::new()
    }
}

impl EntryView {
    pub open spec fn silent() -> EntryView {
        EntryView {
            osc: None,
            mode: None,
            scale: None,
            led_source: None,
            label: None,
            midi: None,
        }
    }
}

/// Index of the entry under `key`, or the length if there is none.
pub open spec fn key_index(entries: Seq<(Seq<char>, EntryView)>, key: Seq<char>) -> int
    decreases entries.len(),
{
    if entries.len() == 0 || entries[0].0 == key {
        0
    } else {
        1 + key_index(entries.skip(1), key)
    }
}

/// The entry under `key`.
pub open spec fn entry_at(entries: Seq<(Seq<char>, EntryView)>, key: Seq<char>) -> Option<
    EntryView,
> {
    let k = key_index(entries, key);
    if k < entries.len() {
        Some(entries[k].1)
    } else {
        None
    }
}

/// No key occurs twice.
pub open spec fn keys_distinct(entries: Seq<(Seq<char>, EntryView)>) -> bool {
    forall|i: int, j: int|
        0 <= i < j < entries.len() ==> (#[trigger] entries[i]).0 != (#[trigger] entries[j]).0
}

/// The entries with `entry` under `key`: in place of the one there, or behind
/// the others.
pub open spec fn with_entry(
    entries: Seq<(Seq<char>, EntryView)>,
    key: Seq<char>,
    entry: EntryView,
) -> Seq<(Seq<char>, EntryView)> {
    let k = key_index(entries, key);
    if k < entries.len() {
        entries.update(k, (key, entry))
    } else {
        entries.push((key, entry))
    }
}

proof fn lemma_key_index(entries: Seq<(Seq<char>, EntryView)>, key: Seq<char>)
    ensures
        0 <= key_index(entries, key) <= entries.len(),
        forall|j: int| 0 <= j < key_index(entries, key) ==> (#[trigger] entries[j]).0 != key,
        key_index(entries, key) < entries.len() ==> entries[key_index(entries, key)].0 == key,
    decreases entries.len(),
{
    if entries.len() == 0 || entries[0].0 == key {
    } else {
        let rest = entries.skip(1);
        lemma_key_index(rest, key);
        assert forall|j: int| 0 <= j < key_index(entries, key) implies (#[trigger] entries[j]).0
            != key by {
            if j > 0 {
                assert(rest[j - 1].0 != key);
            }
        }
    }
}

proof fn lemma_key_index_unique(entries: Seq<(Seq<char>, EntryView)>, key: Seq<char>, k: int)
    requires
        0 <= k <= entries.len(),
        forall|j: int| 0 <= j < k ==> (#[trigger] entries[j]).0 != key,
        k < entries.len() ==> entries[k].0 == key,
    ensures
        key_index(entries, key) == k,
{
    lemma_key_index(entries, key);
    let f = key_index(entries, key);
    if f < k {
        assert(entries[f].0 != key);
    } else if k < f {
        assert(entries[k].0 != key);
    }
}

/// Storing an entry under a key makes it the one found there, leaves what is
/// found under every other key, and repeats no key.
pub proof fn law_stored_entry_is_found(
    entries: Seq<(Seq<char>, EntryView)>,
    key: Seq<char>,
    entry: EntryView,
    other: Seq<char>,
)
    requires
        keys_distinct(entries),
    ensures
        keys_distinct(with_entry(entries, key, entry)),
        entry_at(with_entry(entries, key, entry), key) == Some(entry),
        other != key ==> entry_at(with_entry(entries, key, entry), other) == entry_at(
            entries,
            other,
        ),
{
    let k = key_index(entries, key);
    let after = with_entry(entries, key, entry);
    lemma_key_index(entries, key);
    lemma_key_index_unique(after, key, k);
    if other != key {
        let m = key_index(entries, other);
        lemma_key_index(entries, other);
        if m < entries.len() {
            lemma_key_index_unique(after, other, m);
        } else {
            assert forall|j: int| 0 <= j < after.len() implies (#[trigger] after[j]).0 != other by {
                if j < entries.len() {
                    assert(entries[j].0 != other);
                }
            }
            lemma_key_index_unique(after, other, after.len() as int);
        }
    }
}

/// The per-control entries of a profile, keyed by control.
pub struct EntryMap {
    entries: Vec<(String, Entry)>,
}

impl View for EntryMap {
    type V = Seq<(Seq<char>, EntryView)>;

    closed spec fn view(&self) -> Seq<(Seq<char>, EntryView)> {
        self.entries@.map_values(|e: (String, Entry)| (e.0@, e.1@))
    }
}

impl EntryMap {
    /// No key occurs twice.
    pub open spec fn wf(&self) -> bool {
        keys_distinct(self@)
    }

    pub fn new() -> (r: Self)
        ensures
            r@ == Seq::<(Seq<char>, EntryView)>::empty(),
            r.wf(),
    {
        let r = EntryMap { entries: Vec::new() };
        assert(r@ =~= Seq::empty());
        r
    }

    pub fn len(&self) -> (r: usize)
        ensures
            r == self@.len(),
    {
        self.entries.len()
    }

    /// The key and the entry at a place in the order of the map.
    pub fn at(&self, i: usize) -> (r: (&str, &Entry))
        requires
            i < self@.len(),
        ensures
            (r.0@, r.1@) == self@[i as int],
    {
        (self.entries[i].0.as_str(), &self.entries[i].1)
    }

    fn find(&self, key: &str) -> (r: usize)
        ensures
            r == key_index(self@, key@),
            r <= self@.len(),
    {
        let mut i: usize = 0;
        while i < self.entries.len()
            invariant
                i <= self.entries@.len(),
                self@.len() == self.entries@.len(),
                forall|j: int| 0 <= j < i ==> (#[trigger] self@[j]).0 != key@,
            decreases self.entries.len() - i,
        {
            assert(self@[i as int].0 == self.entries@[i as int].0@);
            if same_text(self.entries[i].0.as_str(), key) {
                proof {
                    lemma_key_index_unique(self@, key@, i as int);
                }
                return i;
            }
            i += 1;
        }
        proof {
            lemma_key_index_unique(self@, key@, i as int);
        }
        i
    }

    /// The entry under `key`.
    pub fn get(&self, key: &str) -> (r: Option<&Entry>)
        ensures
            match r {
                Some(e) => entry_at(self@, key@) == Some(e@),
                None => entry_at(self@, key@) is None,
            },
    {
        let i = self.find(key);
        if i < self.entries.len() {
            Some(&self.entries[i].1)
        } else {
            None
        }
    }

    /// Put `entry` under `key`, in place of the one there.
    pub fn insert(&mut self, key: String, entry: Entry)
        requires
            old(self).wf(),
        ensures
            final(self)@ == with_entry(old(self)@, key@, entry@),
            final(self).wf(),
    {
        let i = self.find(key.as_str());
        proof {
            law_stored_entry_is_found(self@, key@, entry@, key@);
        }
        if i < self.entries.len() {
            self.entries.set(i, (key, entry));
        } else {
            self.entries.push((key, entry));
        }
        assert(self@ =~= with_entry(old(self)@, key@, entry@));
    }
}

/// Sparse profile: a control without an entry uses its generated address, an
/// entry without an address silences it.
pub struct Profile {
    pub name: String,
    /// Overrides the configured target, `"ip:port"`.
    pub target: Option<String>,
    /// Feedback registration: this address is sent to the target every five
    /// seconds with the LED port as its argument.
    pub sync: Option<String>,
    /// Keyed by control: `"<a-h>/pad/<1-16>"`, `"<a-h>/knob/<1-8>"`,
    /// `"<a-h>/softkey/<1-8>"`, `"volume"`, `"tempo"`, `"swing"` and
    /// `"button/<name>"`.
    pub map: EntryMap,
}

/// A profile by its contents.
pub struct ProfileView {
    pub name: Seq<char>,
    pub target: Option<Seq<char>>,
    pub sync: Option<Seq<char>>,
    pub map: Seq<(Seq<char>, EntryView)>,
}

impl View for Profile {
    type V = ProfileView;

    open spec fn view(&self) -> ProfileView {
        ProfileView {
            name: self.name@,
            target: opt_text(self.target),
            sync: opt_text(self.sync),
            map: self.map@,
        }
    }
}

impl ProfileView {
    pub open spec fn empty() -> ProfileView {
        ProfileView {
            name: Seq::empty(),
            target: None,
            sync: None,
            map: Seq::empty(),
        }
    }
}

impl Profile {
    /// The empty profile: no name, every control at its generated address.
    pub fn new() -> (r: Self)
        ensures
            r@ == ProfileView::empty(),
            r.map.wf(),
    {
        let r = Profile { name: String::new(), target: None, sync: None, map: EntryMap::new() };
        assert(r@.name =~= Seq::empty());
        r
    }
}

impl Default for Profile {
    fn default() -> (r: Self)
        ensures
            r@ == ProfileView::empty(),
            r.map.wf(),
    {
        Profile::new()
    }
}

/// The storage key of a slot.
pub open spec fn slot_key(slot: u8) -> Seq<char> {
    "p"@ + decimal(slot as nat)
}

/// The storage key of a slot.
pub fn key(slot: u8) -> (r: String)
    ensures
        r@ == slot_key(slot),
{
    let mut out = "p".to_owned();
    push_decimal(&mut out, slot as u64);
    out
}

/// The JSON in the stored bytes of a slot: none if nothing is stored or it is
/// not text.
pub open spec fn stored_json(raw: Option<Seq<u8>>) -> Option<Seq<char>> {
    match raw {
        Some(bytes) => if valid_utf8(bytes) {
            Some(decode_utf8(bytes))
        } else {
            None
        },
        None => None,
    }
}

/// Optional bytes by their contents.
pub open spec fn opt_bytes(raw: Option<&[u8]>) -> Option<Seq<u8>> {
    match raw {
        Some(bytes) => Some(bytes@),
        None => None,
    }
}

/// The JSON in the stored bytes of a slot: none if nothing is stored or it is
/// not text.
pub fn load_json(raw: Option<&[u8]>) -> (r: Option<String>)
    ensures
        opt_text(r) == stored_json(opt_bytes(raw)),
{
    match raw {
        Some(bytes) => match utf8_text(bytes) {
            Some(json) => Some(json.to_owned()),
            None => None,
        },
        None => None,
    }
}

/// Why a profile is not stored.
#[derive(Debug, Clone, Copy, PartialEq, Eq, Structural)]
pub enum Rejection {
    /// It is not UTF-8.
    NotText,
    /// It is longer than `MAX_JSON` bytes.
    TooLarge,
    /// It is JSON of something else, or no JSON.
    NotProfile,
}

/// What the sender of a profile that is too large is told.
pub fn too_large_message() -> (r: &'static str)
    ensures
        r@ == "profile too large (max 3072 bytes)"@,
{
    "profile too large (max 3072 bytes)"
}

/// Whether a profile's JSON is small enough to be stored.
pub open spec fn fits_storage(json: Seq<char>) -> bool {
    encode_utf8(json).len() <= MAX_JSON
}

/// Why a profile's JSON is not stored, if it is not.
pub open spec fn save_rejection(json: Seq<char>, says_profile: bool) -> Option<Rejection> {
    if !fits_storage(json) {
        Some(Rejection::TooLarge)
    } else if !says_profile {
        Some(Rejection::NotProfile)
    } else {
        None
    }
}

/// Whether a profile's JSON is small enough to be stored.
pub fn fits(json: &str) -> (r: Result<(), Rejection>)
    ensures
        r is Ok <==> fits_storage(json@),
        r is Ok <==> encode_utf8(json@).len() <= MAX_JSON,
        r matches Err(e) ==> e == Rejection::TooLarge,
{
    if json.as_bytes().len() <= MAX_JSON {
        Ok(())
    } else {
        Err(Rejection::TooLarge)
    }
}

/// A profile to be stored: these bytes, under this key.
pub struct Saved {
    pub key: String,
    pub bytes: Vec<u8>,
    pub profile: Profile,
}

/// Validate one slot's JSON for storing. `parsed` is the profile that the JSON
/// says, none if it says none. Too large a text is rejected whatever it says.
pub fn save_json(slot: u8, json: &str, parsed: Option<Profile>) -> (r: Result<Saved, Rejection>)
    ensures
        match r {
            Ok(_) => save_rejection(json@, parsed is Some) is None,
            Err(e) => save_rejection(json@, parsed is Some) == Some(e),
        },
        match r {
            Ok(saved) => {
                &&& encode_utf8(json@).len() <= MAX_JSON
                &&& parsed == Some(saved.profile)
                &&& saved.key@ == slot_key(slot)
                &&& saved.bytes@ == encode_utf8(json@)
            },
            Err(Rejection::TooLarge) => encode_utf8(json@).len() > MAX_JSON,
            Err(Rejection::NotProfile) => encode_utf8(json@).len() <= MAX_JSON && parsed is None,
            Err(Rejection::NotText) => false,
        },
{
    match fits(json) {
        Err(e) => Err(e),
        Ok(()) => match parsed {
            Some(profile) => {
                let mut bytes: Vec<u8> = Vec::new();
                bytes.extend_from_slice(json.as_bytes());
                assert(bytes@ =~= encode_utf8(json@));
                Ok(Saved { key: key(slot), bytes, profile })
            },
            None => Err(Rejection::NotProfile),
        },
    }
}

/// What is stored for a slot in a store of bytes by key.
pub open spec fn slot_bytes(store: Map<Seq<char>, Seq<u8>>, slot: u8) -> Option<Seq<u8>> {
    if store.contains_key(slot_key(slot)) {
        Some(store[slot_key(slot)])
    } else {
        None
    }
}

/// What was saved to a slot is what is loaded from it, character for
/// character, and no other slot changes.
pub proof fn law_saved_profile_is_loaded(
    store: Map<Seq<char>, Seq<u8>>,
    slot: u8,
    json: Seq<char>,
    other: u8,
)
    ensures
        ({
            let after = store.insert(slot_key(slot), encode_utf8(json));
            &&& stored_json(slot_bytes(after, slot)) == Some(json)
            &&& other != slot ==> slot_bytes(after, other) == slot_bytes(store, other)
        }),
{
    encode_utf8_valid_utf8(json);
    encode_utf8_decode_utf8(json);
    if slot_key(other) == slot_key(slot) {
        law_slot_keys_distinct(other, slot);
    }
}

/// The active slot, from the stored one: the first if none is stored, and
/// never past the last.
pub fn active(stored: Option<u8>) -> (r: u8)
    ensures
        r == match stored {
            Some(s) => active_slot(s),
            None => 0,
        },
        r < SLOTS,
{
    match stored {
        Some(s) => set_active(s),
        None => 0,
    }
}

/// `slot`, or the last one if it is past it.
pub open spec fn active_slot(slot: u8) -> u8 {
    if slot < SLOTS {
        slot
    } else {
        7
    }
}

/// The value to store to make `slot` the active one.
pub fn set_active(slot: u8) -> (r: u8)
    ensures
        r == active_slot(slot),
        r < SLOTS,
{
    if slot < SLOTS {
        slot
    } else {
        7
    }
}

/// Every slot has a storage key of its own.
pub proof fn law_slot_keys_distinct(a: u8, b: u8)
    requires
        slot_key(a) == slot_key(b),
    ensures
        a == b,
{
    lemma_decimal_digits(a as nat);
    lemma_decimal_digits(b as nat);
    assert(slot_key(a).skip("p"@.len() as int) =~= decimal(a as nat));
    assert(slot_key(b).skip("p"@.len() as int) =~= decimal(b as nat));
}

/// What is found under a key is the entry that was put there: one of the map's,
/// with that key; and nothing is found exactly when no entry has it.
pub proof fn law_entry_is_the_one_under_its_key(
    entries: Seq<(Seq<char>, EntryView)>,
    key: Seq<char>,
    i: int,
)
    requires
        keys_distinct(entries),
        0 <= i < entries.len(),
    ensures
        entries[i].0 == key ==> entry_at(entries, key) == Some(entries[i].1),
        entry_at(entries, key) is None ==> entries[i].0 != key,
        (forall|j: int| 0 <= j < entries.len() ==> (#[trigger] entries[j]).0 != key)
            ==> entry_at(entries, key) is None,
{
    lemma_key_index(entries, key);
    let k = key_index(entries, key);
    if entries[i].0 == key && k != i {
        assert(entries[k].0 == key);
        assert(entries[i].0 != entries[k].0);
    }
    if forall|j: int| 0 <= j < entries.len() ==> (#[trigger] entries[j]).0 != key {
        if k < entries.len() {
            assert(entries[k].0 != key);
        }
    }
}

/// Every slot is active as asked for, and what is past the last is the last.
pub proof fn law_active_slot_is_a_slot(slot: u8)
    ensures
        slot < 8 ==> active_slot(slot) == slot,
        slot >= 8 ==> active_slot(slot) == 7,
{
}

/// A profile is stored exactly if its JSON says one and has at most 3072 bytes;
/// size is looked at first. Stored bytes that are no text hold no profile.
pub proof fn law_profiles_that_fit_are_stored(json: Seq<char>, says_profile: bool, raw: Seq<u8>)
    ensures
        save_rejection(json, says_profile) is None <==> says_profile && encode_utf8(json).len()
            <= 3072,
        encode_utf8(json).len() > 3072 ==> save_rejection(json, says_profile) == Some(
            Rejection::TooLarge,
        ),
        save_rejection(json, says_profile) != Some(Rejection::NotText),
        stored_json(None) is None,
        stored_json(Some(raw)) is None <==> !valid_utf8(raw),
{
}

} // verus!
