//! The collections the object heap is built from, and the string type it
//! stores. They come from other crates and the verifier does not read them:
//! every contract in this file is taken on trust from their sources.

use super::object::Object;
use super::value::Value;
use ahash::AHashMap;
use ecow::EcoString;
use slotmap::{DefaultKey, Key, KeyData, SlotMap};
use std::fmt::Write;
use vstd::prelude::*;

verus! {

/// `ecow::EcoString`, an immutable string that is cheap to clone.
#[verifier::external_type_specification]
#[verifier::external_body]
pub struct ExEcoString(EcoString);

/// `ahash::AHashMap`, a hash map with the hasher of that crate.
#[verifier::external_type_specification]
#[verifier::external_body]
#[verifier::reject_recursive_types(K)]
#[verifier::reject_recursive_types(V)]
#[verifier::reject_recursive_types(S)]
pub struct ExAHashMap<K, V, S>(AHashMap<K, V, S>);

/// `ahash::RandomState`, the hasher that an `AHashMap` is built with.
#[verifier::external_type_specification]
#[verifier::external_body]
pub struct ExRandomState(ahash::RandomState);

/// The characters of an `EcoString`.
pub uninterp spec fn eco_text(s: EcoString) -> Seq<char>;

/// `EcoString::as_str`: the string slice has the characters of the string.
pub assume_specification[ EcoString::as_str ](s: &EcoString) -> (r: &str)
    ensures
        r@ == eco_text(*s),
;

/// The most bytes of text that this library puts into one `EcoString`. An
/// `EcoString` grows by doubling and panics when its capacity, with a
/// header in front, comes near `isize::MAX`; below this length it does not
/// on any machine.
pub const MAX_TEXT: usize = 0x0FFF_FFFF;

/// The number of bytes that the UTF-8 form of a text takes.
pub open spec fn byte_len(text: Seq<char>) -> usize {
    vstd::utf8::encode_utf8(text).len() as usize
}

/// `EcoString::from(&str)`: the new string has the characters of the slice.
#[verifier::external_body]
pub(crate) fn eco_from_str(s: &str) -> (r: EcoString)
    requires
        byte_len(s@) <= MAX_TEXT,
    ensures
        eco_text(r) == s@,
{
    EcoString::from(s)
}

/// `EcoString::clone`: the clone has the same characters. The call panics
/// when isize::MAX clones of one string are alive, for which no machine
/// has the memory.
#[verifier::external_body]
pub(crate) fn eco_clone(s: &EcoString) -> (r: EcoString)
    ensures
        eco_text(r) == eco_text(*s),
{
    s.clone()
}

/// `EcoString::new` and its `write_str`, by way of `write!`: a string of the
/// characters of `a` followed by those of `b`.
#[verifier::external_body]
pub(crate) fn eco_joined(a: &str, b: &str) -> (r: EcoString)
    requires
        byte_len(a@) + byte_len(b@) <= MAX_TEXT,
    ensures
        eco_text(r) == a@ + b@,
{
    let mut joined = EcoString::new();
    let _ = write!(joined, "{}{}", a, b);
    joined
}

/// The slot map that owns the objects of a heap, a
/// `slotmap::SlotMap<DefaultKey, Object>`. A key of the slot map is known
/// here by the 64-bit integer that `KeyData::as_ffi` gives for it.
#[verifier::external_body]
#[derive(Debug)]
pub struct Slots {
    inner: SlotMap<DefaultKey, Object>,
}

/// The objects in a slot map, by key.
pub uninterp spec fn slot_entries(s: Slots) -> Map<u64, Object>;

/// The number of objects at which `SlotMap::insert` gives up.
pub const SLOT_LIMIT: usize = 0xFFFF_FFFE;

/// Whether an integer is the integer of some key: the version, in the
/// upper half, is odd.
pub open spec fn is_slot_key(id: u64) -> bool {
    (id >> 32) & 1 == 1
}

/// `SlotMap::with_key`: a slot map without objects.
#[verifier::external_body]
pub(crate) fn slots_new() -> (r: Slots)
    ensures
        slot_entries(r) =~= Map::empty(),
{
    Slots { inner: SlotMap::with_key() }
}

/// `SlotMap::len`: the number of objects.
#[verifier::external_body]
pub(crate) fn slots_len(s: &Slots) -> (r: usize)
    ensures
        r == slot_entries(*s).dom().len(),
{
    s.inner.len()
}

/// `SlotMap::insert`: the object is stored under a key that was not in use,
/// and every other object stays where it was. The call panics on a full
/// slot map, which `requires` leaves out.
#[verifier::external_body]
pub(crate) fn slots_insert(s: &mut Slots, object: Object) -> (id: u64)
    requires
        slot_entries(*old(s)).dom().finite(),
        slot_entries(*old(s)).dom().len() < SLOT_LIMIT,
    ensures
        is_slot_key(id),
        !slot_entries(*old(s)).contains_key(id),
        slot_entries(*final(s)) == slot_entries(*old(s)).insert(id, object),
{
    s.inner.insert(object).data().as_ffi()
}

/// `SlotMap::get`: the object under the key, if there is one.
#[verifier::external_body]
pub(crate) fn slots_get(s: &Slots, id: u64) -> (r: Option<&Object>)
    requires
        is_slot_key(id),
    ensures
        r == (if slot_entries(*s).contains_key(id) {
            Some(&slot_entries(*s)[id])
        } else {
            None
        }),
{
    s.inner.get(KeyData::from_ffi(id).into())
}

/// The entries of an interner: the key of the string object, by its text.
pub uninterp spec fn interned(m: AHashMap<EcoString, u64>) -> Map<Seq<char>, u64>;

/// `AHashMap::new`: an interner without entries.
#[verifier::external_body]
pub(crate) fn interner_new() -> (r: AHashMap<EcoString, u64>)
    ensures
        interned(r) =~= Map::empty(),
{
    AHashMap::new()
}

/// `AHashMap::get`: the key recorded for the text, if there is one.
#[verifier::external_body]
pub(crate) fn interner_get(m: &AHashMap<EcoString, u64>, text: &str) -> (r: Option<u64>)
    ensures
        r == (if interned(*m).contains_key(text@) {
            Some(interned(*m)[text@])
        } else {
            None
        }),
{
    m.get(text).copied()
}

/// `AHashMap::insert`: the text is recorded with the key, in place of what
/// was recorded for it before.
#[verifier::external_body]
pub(crate) fn interner_insert(m: &mut AHashMap<EcoString, u64>, text: EcoString, id: u64)
    ensures
        interned(*final(m)) == interned(*old(m)).insert(eco_text(text), id),
{
    m.insert(text, id);
}

/// The entries of a table of globals: the value bound to the key of a name.
pub uninterp spec fn bindings(m: AHashMap<u64, Value>) -> Map<u64, Value>;

/// `AHashMap::new`: a table without entries.
#[verifier::external_body]
pub(crate) fn bindings_new() -> (r: AHashMap<u64, Value>)
    ensures
        bindings(r) =~= Map::empty(),
{
    AHashMap::new()
}

/// `AHashMap::get`: the value bound to the key, if there is one.
#[verifier::external_body]
pub(crate) fn bindings_get(m: &AHashMap<u64, Value>, id: u64) -> (r: Option<Value>)
    ensures
        r == (if bindings(*m).contains_key(id) {
            Some(bindings(*m)[id])
        } else {
            None
        }),
{
    m.get(&id).copied()
}

/// `AHashMap::insert`: the key is bound to the value, in place of what it
/// was bound to before.
#[verifier::external_body]
pub(crate) fn bindings_insert(m: &mut AHashMap<u64, Value>, id: u64, value: Value)
    ensures
        bindings(*final(m)) == bindings(*old(m)).insert(id, value),
{
    m.insert(id, value);
}

} // verus!
