use crate::extractable::{
    entry_offers, lemma_list_offers_prefix, list_offers, ExtractableType, ExtractionMetadata, TypeKey};
use vstd::prelude::*;

verus! {

/// Whether `target` is reachable from any entry of `list`, searched entry by
/// entry and into each nested layout.
pub fn search_metadata(list: &Vec<ExtractionMetadata>, target: TypeKey) -> (r: bool)
    ensures
        r == list_offers(list@, target),
    decreases list,
{
    let mut idx: usize = 0;
    while idx < list.len()
        invariant
            idx <= list.len(),
            !list_offers(list@.subrange(0, idx as int), target),
        decreases list.len() - idx,
    {
        assert(list@.subrange(0, idx + 1).drop_last() == list@.subrange(0, idx as int));
        assert(list@.subrange(0, idx + 1).last() == list@[idx as int]);
        let found = match &list[idx] {
            ExtractionMetadata::Target { type_id, .. } => *type_id == target,
            ExtractionMetadata::Nested { type_id, nested, .. } => {
                proof {
                    assert(decreases_to!(*list => list[idx as int]));
                    assert(decreases_to!(list[idx as int] => list[idx as int]->Nested_nested));
                }
                *type_id == target || search_metadata(nested, target)
            },
        };
        assert(found == entry_offers(list@[idx as int], target));
        if found {
            proof {
                lemma_list_offers_prefix(list@, idx + 1, target);
            }
            return true;
        }
        idx += 1;
    }
    assert(list@.subrange(0, list@.len() as int) == list@);
    false
}

/// Whether records of type `concrete` contain a `base` component, so that a
/// handle on one can be narrowed to `base`.
pub fn can_extract(concrete: &ExtractableType, base: TypeKey) -> (r: bool)
    ensures
        r == list_offers(concrete.metadata@, base),
{
    search_metadata(&concrete.metadata, base)
}

} // verus!
