use crate::extractable::TypeKey;
use crate::extractor::Extractor;
use std::sync::Arc;
use vstd::prelude::*;

verus! {

/// One record: its bytes and the descriptor of its type.
pub struct EntityData {
    pub(crate) data: Vec<u8>,
    pub(crate) extractor: Arc<Extractor>,
}

impl EntityData {
    /// The record's bytes.
    pub closed spec fn bytes(&self) -> Seq<u8> {
        self.data@
    }

    /// The descriptor of the record's type.
    pub closed spec fn descriptor(&self) -> Extractor {
        *self.extractor
    }

    /// A record holding `data`, laid out as `extractor` describes.
    pub fn new(data: Vec<u8>, extractor: Arc<Extractor>) -> (r: Self)
        ensures
            r.bytes() == data@,
            r.descriptor() == *extractor,
    {
        EntityData { data, extractor }
    }

    /// The record's bytes.
    pub fn data(&self) -> (r: &Vec<u8>)
        ensures
            r@ == self.bytes(),
    {
        &self.data
    }

    /// The descriptor of the record's type.
    pub fn extractor(&self) -> (r: &Arc<Extractor>)
        ensures
            **r == self.descriptor(),
    {
        &self.extractor
    }
}

/// A shared handle on a record, narrowed to one of its components.
#[derive(Clone)]
pub struct Acquirable {
    target: usize,
    component: TypeKey,
    pub(crate) inner: Arc<EntityData>,
}

/// Relies on std's `Arc::ptr_eq`: true only when both point to one allocation,
/// which then holds one value.
#[verifier::external_body]
fn same_allocation(a: &Arc<EntityData>, b: &Arc<EntityData>) -> (r: bool)
    ensures
        r ==> **a == **b,
{
    Arc::ptr_eq(a, b)
}

/// Relies on std's `Arc::strong_count`: the number of owners of the record.
#[verifier::external_body]
fn owners(a: &Arc<EntityData>) -> (r: usize) {
    Arc::strong_count(a)
}

/// Relies on std's `Arc::weak_count`: the number of weak handles on the record.
#[verifier::external_body]
fn weak_owners(a: &Arc<EntityData>) -> (r: usize) {
    Arc::weak_count(a)
}

impl Acquirable {
    /// The byte offset of the component within the record.
    pub closed spec fn offset(&self) -> usize {
        self.target
    }

    /// The component type this handle is narrowed to.
    pub closed spec fn component(&self) -> TypeKey {
        self.component
    }

    /// The record this handle shares.
    pub closed spec fn cell(&self) -> EntityData {
        *self.inner
    }

    /// A handle on a new record holding `data`, narrowed to the record's own
    /// type, which lies at offset 0.
    pub fn new(data: Vec<u8>, extractor: Arc<Extractor>) -> (r: Self)
        ensures
            r.component() == extractor.type_key(),
            r.offset() == 0,
            r.cell().bytes() == data@,
            r.cell().descriptor() == *extractor,
    {
        let component = extractor.type_id();
        Acquirable { target: 0, component, inner: Arc::new(EntityData::new(data, extractor)) }
    }

    /// A handle on `cell` at the record's own type, which lies at offset 0.
    pub fn at_own_type(cell: Arc<EntityData>) -> (r: Self)
        ensures
            r.component() == cell.descriptor().type_key(),
            r.offset() == 0,
            r.cell() == *cell,
    {
        let component = cell.extractor.type_id();
        Acquirable { target: 0, component, inner: cell }
    }

    /// A handle on `cell` narrowed to `component`, which the caller knows to
    /// lie at `offset`.
    pub fn at_offset(cell: Arc<EntityData>, component: TypeKey, offset: usize) -> (r: Self)
        requires
            cell.descriptor().table().contains_key(component),
            cell.descriptor().table()[component] == offset,
        ensures
            r.component() == component,
            r.offset() == offset,
            r.cell() == *cell,
    {
        Acquirable { target: offset, component, inner: cell }
    }

    /// A handle on `cell` narrowed to `component`, if the record offers it.
    pub fn locate(cell: Arc<EntityData>, component: TypeKey) -> (r: Option<Self>)
        ensures
            match r {
                Some(h) => {
                    &&& cell.descriptor().table().contains_key(component)
                    &&& h.offset() == cell.descriptor().table()[component]
                    &&& h.component() == component
                    &&& h.cell() == *cell
                },
                None => !cell.descriptor().table().contains_key(component),
            },
    {
        match cell.extractor.offset(component) {
            Some(offset) => Some(Acquirable { target: offset, component, inner: cell }),
            None => None,
        }
    }

    /// A handle on the same record narrowed to another component.
    pub fn extract(&self, component: TypeKey) -> (r: Option<Self>)
        ensures
            match r {
                Some(h) => {
                    &&& self.cell().descriptor().table().contains_key(component)
                    &&& h.offset() == self.cell().descriptor().table()[component]
                    &&& h.component() == component
                    &&& h.cell() == self.cell()
                },
                None => !self.cell().descriptor().table().contains_key(component),
            },
    {
        Self::locate(self.inner.clone(), component)
    }

    /// Whether both handles share one record. Sharing one record implies
    /// equal contents.
    pub fn ptr_eq(&self, other: &Acquirable) -> (r: bool)
        ensures
            r ==> self.cell() == other.cell(),
    {
        same_allocation(&self.inner, &other.inner)
    }

    /// How many handles and stores currently share the record.
    pub fn strong_count(&self) -> usize {
        owners(&self.inner)
    }

    /// How many weak handles currently point at the record.
    pub fn weak_count(&self) -> usize {
        weak_owners(&self.inner)
    }

    /// The record's bytes.
    pub fn data(&self) -> (r: &Vec<u8>)
        ensures
            r@ == self.cell().bytes(),
    {
        &self.inner.data
    }

    /// The byte offset of the component within the record.
    pub fn target_offset(&self) -> (r: usize)
        ensures
            r == self.offset(),
    {
        self.target
    }

    /// The component type this handle is narrowed to.
    pub fn component_type(&self) -> (r: TypeKey)
        ensures
            r == self.component(),
    {
        self.component
    }

    /// The record this handle shares.
    pub fn entity_data(&self) -> (r: &Arc<EntityData>)
        ensures
            **r == self.cell(),
    {
        &self.inner
    }
}

} // verus!
