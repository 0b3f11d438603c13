use crate::table::{table_insert, OffsetTable};
use vstd::prelude::*;

verus! {

/// Identifier of a component type.
pub type TypeKey = u64;

/// One entry of a type's layout: a component type found at a byte offset,
/// possibly carrying the layout of that component in turn.
pub enum ExtractionMetadata {
    /// A component at `offset`, with no nested components of its own.
    Target { type_id: TypeKey, offset: usize },
    /// A component at `offset` whose own layout is `nested`, relative to it.
    Nested { type_id: TypeKey, offset: usize, nested: Vec<ExtractionMetadata> },
}

/// A concrete record type: its identifier and its layout.
pub struct ExtractableType {
    pub type_id: TypeKey,
    pub metadata: Vec<ExtractionMetadata>,
}

/// Types that describe their own layout.
pub trait Extractable {
    /// The identifier of the type.
    fn type_key() -> TypeKey;

    /// The type's layout: itself at offset 0, then each nested component.
    fn metadata_list() -> Vec<ExtractionMetadata>;
}

impl ExtractionMetadata {
    /// The component type of this entry.
    pub open spec fn type_key(self) -> TypeKey {
        match self {
            ExtractionMetadata::Target { type_id, .. } => type_id,
            ExtractionMetadata::Nested { type_id, .. } => type_id,
        }
    }
}

/// `t` is the type of entry `m` or reachable through its nested layout.
pub open spec fn entry_offers(m: ExtractionMetadata, t: TypeKey) -> bool
    decreases m,
{
    match m {
        ExtractionMetadata::Target { type_id, .. } => type_id == t,
        ExtractionMetadata::Nested { type_id, nested, .. } => {
            type_id == t || list_offers(nested@, t)
        },
    }
}

/// `t` is reachable from some entry of `l`.
pub open spec fn list_offers(l: Seq<ExtractionMetadata>, t: TypeKey) -> bool
    decreases l,
{
    if l.len() == 0 {
        false
    } else {
        list_offers(l.drop_last(), t) || entry_offers(l.last(), t)
    }
}

/// Every offset reached while flattening `l` from `base` fits in a `usize`.
pub open spec fn list_fits(l: Seq<ExtractionMetadata>, base: int) -> bool
    decreases l,
{
    if l.len() == 0 {
        true
    } else {
        list_fits(l.drop_last(), base) && entry_fits(l.last(), base)
    }
}

pub open spec fn entry_fits(m: ExtractionMetadata, base: int) -> bool
    decreases m,
{
    match m {
        ExtractionMetadata::Target { offset, .. } => base + offset <= usize::MAX,
        ExtractionMetadata::Nested { offset, nested, .. } => {
            base + offset <= usize::MAX && list_fits(nested@, base + offset)
        },
    }
}

/// The offset table produced by laying out `l` at `base` over `acc`, entry by
/// entry: each entry maps its type to `base` plus its offset, then lays out its
/// nested entries from there. A later entry for the same type replaces an earlier one.
pub open spec fn flatten_list(
    l: Seq<ExtractionMetadata>,
    base: int,
    acc: Map<TypeKey, usize>,
) -> Map<TypeKey, usize>
    decreases l,
{
    if l.len() == 0 {
        acc
    } else {
        flatten_entry(l.last(), base, flatten_list(l.drop_last(), base, acc))
    }
}

pub open spec fn flatten_entry(
    m: ExtractionMetadata,
    base: int,
    acc: Map<TypeKey, usize>,
) -> Map<TypeKey, usize>
    decreases m,
{
    match m {
        ExtractionMetadata::Target { type_id, offset } => acc.insert(
            type_id,
            (base + offset) as usize,
        ),
        ExtractionMetadata::Nested { type_id, offset, nested } => flatten_list(
            nested@,
            base + offset,
            acc.insert(type_id, (base + offset) as usize),
        ),
    }
}

impl ExtractableType {
    /// A record type with the given identifier and layout.
    pub fn new(type_id: TypeKey, metadata: Vec<ExtractionMetadata>) -> (r: Self)
        ensures
            r.type_id == type_id,
            r.metadata == metadata,
    {
        ExtractableType { type_id, metadata }
    }

    /// The record type that `T` describes.
    pub fn of<T: Extractable>() -> (r: Self) {
        ExtractableType { type_id: T::type_key(), metadata: T::metadata_list() }
    }

    /// The layout's offsets all fit in a `usize`.
    pub open spec fn wf(&self) -> bool {
        list_fits(self.metadata@, 0)
    }

    /// Whether the layout's offsets all fit in a `usize`.
    pub fn is_valid(&self) -> (r: bool)
        ensures
            r == self.wf(),
    {
        layout_fits(&self.metadata, 0)
    }
}

impl ExtractionMetadata {
    /// An entry for a component without nested components.
    pub fn new(type_id: TypeKey, offset: usize) -> (r: Self)
        ensures
            r == (ExtractionMetadata::Target { type_id, offset }),
    {
        ExtractionMetadata::Target { type_id, offset }
    }

    /// An entry for a component that carries its own layout.
    pub fn new_nested(type_id: TypeKey, offset: usize, nested: Vec<ExtractionMetadata>) -> (r:
        Self)
        ensures
            r == (ExtractionMetadata::Nested { type_id, offset, nested }),
    {
        ExtractionMetadata::Nested { type_id, offset, nested }
    }

    /// The component type of this entry.
    pub fn type_id(&self) -> (r: TypeKey)
        ensures
            r == self.type_key(),
    {
        match self {
            ExtractionMetadata::Target { type_id, .. } => *type_id,
            ExtractionMetadata::Nested { type_id, .. } => *type_id,
        }
    }

    /// Whether `target` is this entry's type or reachable through its layout.
    pub fn has_val(&self, target: TypeKey) -> (r: bool)
        ensures
            r == entry_offers(*self, target),
        decreases self,
    {
        match self {
            ExtractionMetadata::Target { type_id, .. } => *type_id == target,
            ExtractionMetadata::Nested { type_id, offset, nested } => {
                if *type_id == target {
                    return true;
                }
                let mut idx: usize = 0;
                while idx < nested.len()
                    invariant
                        idx <= nested.len(),
                        *self == (ExtractionMetadata::Nested {
                            type_id: *type_id,
                            offset: *offset,
                            nested: *nested,
                        }),
                        *type_id != target,
                        !list_offers(nested@.subrange(0, idx as int), target),
                    decreases nested.len() - idx,
                {
                    assert(nested@.subrange(0, idx + 1).drop_last() == nested@.subrange(
                        0,
                        idx as int,
                    ));
                    proof {
                        assert(decreases_to!(*self => self->Nested_nested));
                        assert(decreases_to!(*nested => nested[idx as int]));
                    }
                    if nested[idx].has_val(target) {
                        assert(list_offers(nested@.subrange(0, idx + 1), target));
                        assert(nested@.subrange(0, nested@.len() as int) == nested@);
                        proof {
                            lemma_list_offers_prefix(nested@, idx + 1, target);
                        }
                        return true;
                    }
                    idx += 1;
                }
                assert(nested@.subrange(0, nested@.len() as int) == nested@);
                false
            },
        }
    }

    /// Whether `target` is reachable from any entry of `list`.
    pub fn is_has(list: &Vec<ExtractionMetadata>, target: TypeKey) -> (r: bool)
        ensures
            r == list_offers(list@, target),
    {
        let mut idx: usize = 0;
        while idx < list.len()
            invariant
                idx <= list.len(),
                !list_offers(list@.subrange(0, idx as int), target),
            decreases list.len() - idx,
        {
            assert(list@.subrange(0, idx + 1).drop_last() == list@.subrange(0, idx as int));
            if list[idx].has_val(target) {
                assert(list_offers(list@.subrange(0, idx + 1), target));
                proof {
                    lemma_list_offers_prefix(list@, idx + 1, target);
                }
                return true;
            }
            idx += 1;
        }
        assert(list@.subrange(0, list@.len() as int) == list@);
        false
    }
}

impl ExtractionMetadata {
    /// The offset table of a layout: each reachable component type mapped to
    /// its byte offset from the start of the record.
    pub fn flatten(list: &Vec<ExtractionMetadata>) -> (r: OffsetTable)
        requires
            list_fits(list@, 0),
        ensures
            r@ == flatten_list(list@, 0, Map::empty()),
    {
        let mut result = OffsetTable::default();
        assert(result@ =~= Map::empty());
        Self::flatten_internal(list, 0, &mut result);
        result
    }

    fn flatten_internal(
        list: &Vec<ExtractionMetadata>,
        base_offset: usize,
        result: &mut OffsetTable,
    )
        requires
            list_fits(list@, base_offset as int),
        ensures
            final(result)@ == flatten_list(list@, base_offset as int, old(result)@),
        decreases list,
    {
        let mut idx: usize = 0;
        assert(list@.subrange(0, 0) == Seq::<ExtractionMetadata>::empty());
        while idx < list.len()
            invariant
                idx <= list.len(),
                list_fits(list@, base_offset as int),
                result@ == flatten_list(
                    list@.subrange(0, idx as int),
                    base_offset as int,
                    old(result)@,
                ),
            decreases list.len() - idx,
        {
            proof {
                lemma_list_fits_index(list@, base_offset as int, idx as int);
                assert(list@.subrange(0, idx + 1).drop_last() == list@.subrange(0, idx as int));
                assert(list@.subrange(0, idx + 1).last() == list@[idx as int]);
            }
            let ghost prev = result@;
            match &list[idx] {
                ExtractionMetadata::Target { type_id, offset } => {
                    table_insert(result, *type_id, base_offset + *offset);
                    assert(result@ == flatten_entry(list@[idx as int], base_offset as int, prev));
                },
                ExtractionMetadata::Nested { type_id, offset, nested } => {
                    let base = base_offset + *offset;
                    table_insert(result, *type_id, base);
                    proof {
                        assert(decreases_to!(*list => list[idx as int]));
                        assert(decreases_to!(list[idx as int] => list[idx as int]->Nested_nested));
                    }
                    Self::flatten_internal(nested, base, result);
                    assert(result@ == flatten_entry(list@[idx as int], base_offset as int, prev));
                },
            }
            idx += 1;
        }
        assert(list@.subrange(0, list@.len() as int) == list@);
    }
}

/// Whether every offset of `list`, laid out from `base`, fits in a `usize`.
pub fn layout_fits(list: &Vec<ExtractionMetadata>, base: usize) -> (r: bool)
    ensures
        r == list_fits(list@, base as int),
    decreases list,
{
    let mut idx: usize = 0;
    while idx < list.len()
        invariant
            idx <= list.len(),
            list_fits(list@.subrange(0, idx as int), base as int),
        decreases list.len() - idx,
    {
        assert(list@.subrange(0, idx + 1).drop_last() == list@.subrange(0, idx as int));
        let ok = match &list[idx] {
            ExtractionMetadata::Target { offset, .. } => base.checked_add(*offset).is_some(),
            ExtractionMetadata::Nested { offset, nested, .. } => {
                match base.checked_add(*offset) {
                    Some(b) => {
                        proof {
                            assert(decreases_to!(*list => list[idx as int]));
                            assert(decreases_to!(list[idx as int] => list[idx as int]->Nested_nested));
                        }
                        layout_fits(nested, b)
                    },
                    None => false,
                }
            },
        };
        assert(ok == entry_fits(list@[idx as int], base as int));
        assert(list@.subrange(0, idx + 1).last() == list@[idx as int]);
        if !ok {
            proof {
                if list_fits(list@, base as int) {
                    lemma_list_fits_index(list@, base as int, idx as int);
                }
            }
            return false;
        }
        idx += 1;
    }
    assert(list@.subrange(0, list@.len() as int) == list@);
    true
}

/// The types in a flattened table are those already in `acc` and those
/// reachable from the layout.
pub proof fn lemma_flatten_list_dom(l: Seq<ExtractionMetadata>, base: int, acc: Map<TypeKey, usize>)
    ensures
        forall|t: TypeKey|
            #[trigger] flatten_list(l, base, acc).contains_key(t) <==> (acc.contains_key(t)
                || list_offers(l, t)),
    decreases l,
{
    if l.len() > 0 {
        let prev = flatten_list(l.drop_last(), base, acc);
        lemma_flatten_list_dom(l.drop_last(), base, acc);
        lemma_flatten_entry_dom(l.last(), base, prev);
        assert forall|t: TypeKey|
            #[trigger] flatten_list(l, base, acc).contains_key(t) <==> (acc.contains_key(t)
                || list_offers(l, t)) by {
            assert(flatten_list(l, base, acc) == flatten_entry(l.last(), base, prev));
            assert(prev.contains_key(t) <==> (acc.contains_key(t) || list_offers(l.drop_last(), t)));
            assert(flatten_entry(l.last(), base, prev).contains_key(t) <==> (prev.contains_key(t)
                || entry_offers(l.last(), t)));
        }
    }
}

pub proof fn lemma_flatten_entry_dom(m: ExtractionMetadata, base: int, acc: Map<TypeKey, usize>)
    ensures
        forall|t: TypeKey|
            #[trigger] flatten_entry(m, base, acc).contains_key(t) <==> (acc.contains_key(t)
                || entry_offers(m, t)),
    decreases m,
{
    match m {
        ExtractionMetadata::Target { type_id, offset } => {
            assert forall|t: TypeKey|
                #[trigger] flatten_entry(m, base, acc).contains_key(t) <==> (acc.contains_key(t)
                    || entry_offers(m, t)) by {
                assert(flatten_entry(m, base, acc) == acc.insert(type_id, (base + offset) as usize));
            }
        },
        ExtractionMetadata::Nested { type_id, offset, nested } => {
            let inner = acc.insert(type_id, (base + offset) as usize);
            lemma_flatten_list_dom(nested@, base + offset, inner);
            assert forall|t: TypeKey|
                #[trigger] flatten_entry(m, base, acc).contains_key(t) <==> (acc.contains_key(t)
                    || entry_offers(m, t)) by {
                assert(flatten_entry(m, base, acc) == flatten_list(nested@, base + offset, inner));
                assert(flatten_list(nested@, base + offset, inner).contains_key(t) <==> (
                inner.contains_key(t) || list_offers(nested@, t)));
            }
        },
    }
}

/// Each entry of a list whose offsets fit has offsets that fit.
proof fn lemma_list_fits_index(l: Seq<ExtractionMetadata>, base: int, i: int)
    requires
        list_fits(l, base),
        0 <= i < l.len(),
    ensures
        entry_fits(l[i], base),
    decreases l.len(),
{
    if i < l.len() - 1 {
        lemma_list_fits_index(l.drop_last(), base, i);
    }
}

/// A type reachable from a prefix of a list is reachable from the list.
pub(crate) proof fn lemma_list_offers_prefix(l: Seq<ExtractionMetadata>, n: int, t: TypeKey)
    requires
        0 <= n <= l.len(),
        list_offers(l.subrange(0, n), t),
    ensures
        list_offers(l, t),
    decreases l.len() - n,
{
    if n < l.len() {
        assert(l.subrange(0, n + 1).drop_last() == l.subrange(0, n));
        lemma_list_offers_prefix(l, n + 1, t);
    } else {
        assert(l.subrange(0, n) == l);
    }
}

} // verus!
