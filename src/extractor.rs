use crate::extractable::{flatten_list, ExtractableType, ExtractionMetadata, TypeKey};
use crate::table::{table_get, table_keys, OffsetTable};
use vstd::prelude::*;

verus! {

/// The descriptor of a record type: where each of its component types lies.
pub struct Extractor {
    type_id: TypeKey,
    offsets: OffsetTable,
}

impl Extractor {
    /// The record type described.
    pub closed spec fn type_key(&self) -> TypeKey {
        self.type_id
    }

    /// Component type to byte offset.
    pub closed spec fn table(&self) -> Map<TypeKey, usize> {
        self.offsets@
    }

    /// The descriptor of `target`, its layout flattened into one table.
    pub fn new_type(target: &ExtractableType) -> (r: Self)
        requires
            target.wf(),
        ensures
            r.type_key() == target.type_id,
            r.table() == flatten_list(target.metadata@, 0, Map::empty()),
    {
        Extractor {
            type_id: target.type_id,
            offsets: ExtractionMetadata::flatten(&target.metadata),
        }
    }

    /// The record type described.
    pub fn type_id(&self) -> (r: TypeKey)
        ensures
            r == self.type_key(),
    {
        self.type_id
    }

    /// The byte offset of component type `t`, if the record has one.
    pub fn offset(&self, t: TypeKey) -> (r: Option<usize>)
        ensures
            r == (if self.table().contains_key(t) {
                Some(self.table()[t])
            } else {
                None
            }),
    {
        table_get(&self.offsets, t)
    }

    /// Every component type the record offers, each once.
    pub fn type_ids(&self) -> (r: Vec<TypeKey>)
        ensures
            r@.to_set() == self.table().dom(),
            r@.no_duplicates(),
    {
        table_keys(&self.offsets)
    }
}

} // verus!
