//! The map from identifier codes to the places of their variables, which is
//! kept in an `IndexMap`.

use vstd::prelude::*;
use indexmap::IndexMap;

verus! {

/// `indexmap::IndexMap`. Nothing inside it is visible to the proofs: what a
/// map holds goes by the name `slot_map`.
#[verifier::external_type_specification]
#[verifier::external_body]
#[verifier::reject_recursive_types(K)]
#[verifier::reject_recursive_types(V)]
#[verifier::reject_recursive_types(S)]
pub struct ExIndexMap<K, V, S>(IndexMap<K, V, S>);

/// What a map from identifier codes to places holds.
pub uninterp spec fn slot_map(slots: IndexMap<String, usize>) -> Map<Seq<char>, usize>;

/// The map that holds no place for any code.
pub open spec fn no_slots() -> Map<Seq<char>, usize> {
    Map::empty()
}

/// `IndexMap::new`: a map that holds nothing.
#[verifier::external_body]
pub(crate) fn slots_new() -> (slots: IndexMap<String, usize>)
    ensures
        slot_map(slots) == no_slots(),
{
    IndexMap::new()
}

/// `IndexMap::get`: the place stored for `code`, if the map holds one.
#[verifier::external_body]
pub(crate) fn slots_get(slots: &IndexMap<String, usize>, code: &str) -> (slot: Option<usize>)
    ensures
        slot == (if slot_map(*slots).contains_key(code@) {
            Some(slot_map(*slots)[code@])
        } else {
            None
        }),
{
    slots.get(code).copied()
}

/// `IndexMap::insert`: afterwards the map holds `slot` for `code` and is
/// otherwise as before; the place that it held for `code` before, if any, is
/// returned.
#[verifier::external_body]
pub(crate) fn slots_insert(slots: &mut IndexMap<String, usize>, code: String, slot: usize) -> (previous:
    Option<usize>)
    ensures
        slot_map(*final(slots)) == slot_map(*old(slots)).insert(code@, slot),
        previous == (if slot_map(*old(slots)).contains_key(code@) {
            Some(slot_map(*old(slots))[code@])
        } else {
            None
        }),
{
    slots.insert(code, slot)
}

} // verus!
