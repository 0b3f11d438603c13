use crate::extractable::TypeKey;
use rustc_hash::{FxBuildHasher, FxHashMap};
use vstd::prelude::*;

verus! {

/// Component type to byte offset, hashed with rustc-hash's hasher.
pub type OffsetTable = FxHashMap<TypeKey, usize>;

/// rustc-hash's hasher builder: a unit value whose every hasher starts from
/// the same state.
#[verifier::external_type_specification]
#[verifier::external_body]
pub struct ExFxBuildHasher(FxBuildHasher);

/// Relies on std's `HashMap::insert`: the key afterwards maps to the value,
/// replacing any earlier one, and no other key changes.
#[verifier::external_body]
pub(crate) fn table_insert(m: &mut OffsetTable, k: TypeKey, v: usize)
    ensures
        final(m)@ == old(m)@.insert(k, v),
{
    m.insert(k, v);
}

/// Relies on std's `HashMap::get`: the value stored under the key, if any.
#[verifier::external_body]
pub(crate) fn table_get(m: &OffsetTable, k: TypeKey) -> (r: Option<usize>)
    ensures
        r == (if m@.contains_key(k) {
            Some(m@[k])
        } else {
            None
        }),
{
    m.get(&k).copied()
}

/// Relies on std's `HashMap::keys`: every key of the map, each once, in an
/// order that the map decides.
#[verifier::external_body]
pub(crate) fn table_keys(m: &OffsetTable) -> (r: Vec<TypeKey>)
    ensures
        r@.to_set() == m@.dom(),
        r@.no_duplicates(),
{
    m.keys().copied().collect()
}

} // verus!
