use crate::acquirable::{Acquirable, EntityData};
use crate::entity::EntityId;
use crate::extractable::{flatten_list, ExtractableType, TypeKey};
use crate::extractor::Extractor;
use std::collections::HashMap;
use std::sync::Arc;
use vstd::prelude::*;
use vstd::std_specs::hash::spec_keys_iter;
use vstd::std_specs::iter::IteratorSpec;

verus! {

broadcast use {vstd::std_specs::hash::group_hash_axioms, vstd::std_specs::vec::group_vec_axioms};

/// The additional values of a record, keyed by their type.
pub open spec fn extras_view(m: Map<TypeKey, Vec<u8>>) -> Map<TypeKey, Seq<u8>> {
    m.map_values(|v: Vec<u8>| v@)
}

/// A stored record with the additional values attached to it.
pub struct Slot {
    pub(crate) cell: Arc<EntityData>,
    pub(crate) additional: HashMap<TypeKey, Vec<u8>>,
}

/// All records of one concrete type, with that type's descriptor.
pub struct Archetype {
    pub(crate) extractor: Arc<Extractor>,
    pub(crate) entities: HashMap<u32, Slot>,
}

impl Archetype {
    /// The descriptor shared by every record here.
    pub closed spec fn descriptor(&self) -> Extractor {
        *self.extractor
    }

    /// Each stored id with its record and its additional values.
    pub closed spec fn entries(&self) -> Map<u32, (EntityData, Map<TypeKey, Seq<u8>>)> {
        self.entities@.map_values(|s: Slot| (*s.cell, extras_view(s.additional@)))
    }

    /// Every record here is laid out by the shared descriptor.
    pub closed spec fn wf(&self) -> bool {
        forall|k: u32| #[trigger]
            self.entities@.contains_key(k) ==> self.entities@[k].cell.descriptor()
                == *self.extractor
    }

    /// Every record here is laid out by the shared descriptor.
    pub proof fn lemma_records_share_descriptor(&self)
        requires
            self.wf(),
        ensures
            forall|k: u32| #[trigger]
                self.entries().contains_key(k) ==> self.entries()[k].0.descriptor()
                    == self.descriptor(),
    {
    }

    /// An empty archetype for records of type `ty`.
    pub fn new(ty: &ExtractableType) -> (r: Self)
        requires
            ty.wf(),
        ensures
            r.wf(),
            r.descriptor().type_key() == ty.type_id,
            r.descriptor().table() == flatten_list(ty.metadata@, 0, Map::empty()),
            r.entries() == Map::<u32, (EntityData, Map<TypeKey, Seq<u8>>)>::empty(),
    {
        let r = Archetype {
            extractor: Arc::new(Extractor::new_type(ty)),
            entities: HashMap::new(),
        };
        assert(r.entries() =~= Map::empty());
        r
    }

    /// The descriptor shared by every record here.
    pub fn extractor(&self) -> (r: &Arc<Extractor>)
        ensures
            **r == self.descriptor(),
    {
        &self.extractor
    }

    /// Stores a new record holding `data` under `key`, replacing any record
    /// stored there, and returns a handle on it at its own type.
    pub fn insert(&mut self, key: EntityId, data: Vec<u8>) -> (r: Acquirable)
        requires
            old(self).wf(),
        ensures
            final(self).wf(),
            final(self).descriptor() == old(self).descriptor(),
            final(self).entries() == old(self).entries().insert(
                key.raw(),
                (r.cell(), Map::empty()),
            ),
            r.cell().bytes() == data@,
            r.cell().descriptor() == old(self).descriptor(),
            r.component() == old(self).descriptor().type_key(),
            r.offset() == 0,
    {
        let handle = Acquirable::new(data, self.extractor.clone());
        let additional: HashMap<TypeKey, Vec<u8>> = HashMap::new();
        assert(extras_view(additional@) =~= Map::empty());
        let slot = Slot { cell: handle.entity_data().clone(), additional };
        self.entities.insert(key.id(), slot);
        assert(self.entries() =~= old(self).entries().insert(
            key.raw(),
            (handle.cell(), Map::empty()),
        ));
        handle
    }

    /// The record stored under `key`.
    pub fn get_cell(&self, key: EntityId) -> (r: Option<Arc<EntityData>>)
        ensures
            match r {
                Some(c) => self.entries().contains_key(key.raw()) && *c == self.entries()[key.raw()].0,
                None => !self.entries().contains_key(key.raw()),
            },
    {
        match self.entities.get(&key.id()) {
            Some(slot) => Some(slot.cell.clone()),
            None => None,
        }
    }

    /// A handle on the record stored under `key`, at its own type.
    pub fn get(&self, key: EntityId) -> (r: Option<Acquirable>)
        requires
            self.wf(),
        ensures
            match r {
                Some(h) => {
                    &&& self.entries().contains_key(key.raw())
                    &&& h.cell() == self.entries()[key.raw()].0
                    &&& h.component() == self.descriptor().type_key()
                    &&& h.offset() == 0
                },
                None => !self.entries().contains_key(key.raw()),
            },
    {
        match self.entities.get(&key.id()) {
            Some(slot) => Some(Acquirable::at_own_type(slot.cell.clone())),
            None => None,
        }
    }

    /// Takes the record under `key` out, returning a handle on it at its own
    /// type. Handles already given out keep the record alive.
    pub fn remove(&mut self, key: EntityId) -> (r: Option<Acquirable>)
        requires
            old(self).wf(),
        ensures
            final(self).wf(),
            final(self).descriptor() == old(self).descriptor(),
            final(self).entries() == old(self).entries().remove(key.raw()),
            match r {
                Some(h) => {
                    &&& old(self).entries().contains_key(key.raw())
                    &&& h.cell() == old(self).entries()[key.raw()].0
                    &&& h.component() == old(self).descriptor().type_key()
                    &&& h.offset() == 0
                },
                None => !old(self).entries().contains_key(key.raw()),
            },
    {
        let removed = self.entities.remove(&key.id());
        assert(self.entries() =~= old(self).entries().remove(key.raw()));
        match removed {
            Some(slot) => Some(Acquirable::at_own_type(slot.cell)),
            None => None,
        }
    }

    /// Whether a record is stored under `key`.
    pub fn contains_key(&self, key: EntityId) -> (r: bool)
        ensures
            r == self.entries().contains_key(key.raw()),
    {
        self.entities.contains_key(&key.id())
    }

    /// The number of records stored.
    pub fn len(&self) -> (r: usize)
        ensures
            r == self.entries().len(),
    {
        assert(self.entries().dom() =~= self.entities@.dom());
        self.entities.len()
    }

    /// Whether no record is stored.
    pub fn is_empty(&self) -> (r: bool)
        ensures
            r == (self.entries().len() == 0),
    {
        self.len() == 0
    }

    /// Drops every record.
    pub fn clear(&mut self)
        requires
            old(self).wf(),
        ensures
            final(self).wf(),
            final(self).descriptor() == old(self).descriptor(),
            final(self).entries() == Map::<u32, (EntityData, Map<TypeKey, Seq<u8>>)>::empty(),
    {
        self.entities.clear();
        assert(self.entries() =~= Map::empty());
    }
    /// Attaches `value` as the additional value of type `t` of the record
    /// under `key`, dropping any value of that type attached before. False,
    /// with nothing changed, when no record is stored under `key`.
    pub fn add_additional(&mut self, key: EntityId, t: TypeKey, value: Vec<u8>) -> (r: bool)
        requires
            old(self).wf(),
        ensures
            final(self).wf(),
            final(self).descriptor() == old(self).descriptor(),
            r == old(self).entries().contains_key(key.raw()),
            r ==> final(self).entries() == old(self).entries().insert(
                key.raw(),
                (
                    old(self).entries()[key.raw()].0,
                    old(self).entries()[key.raw()].1.insert(t, value@),
                ),
            ),
            !r ==> final(self).entries() == old(self).entries(),
    {
        match self.entities.remove(&key.id()) {
            Some(slot) => {
                let mut slot = slot;
                slot.additional.insert(t, value);
                assert(extras_view(slot.additional@) =~= old(self).entries()[key.raw()].1.insert(
                    t,
                    value@,
                ));
                self.entities.insert(key.id(), slot);
                assert(self.entries() =~= old(self).entries().insert(
                    key.raw(),
                    (
                        old(self).entries()[key.raw()].0,
                        old(self).entries()[key.raw()].1.insert(t, value@),
                    ),
                ));
                true
            },
            None => false,
        }
    }

    /// A copy of the additional value of type `t` of the record under `key`.
    pub fn extract_additional(&self, key: EntityId, t: TypeKey) -> (r: Option<Vec<u8>>)
        ensures
            match r {
                Some(v) => {
                    &&& self.entries().contains_key(key.raw())
                    &&& self.entries()[key.raw()].1.contains_key(t)
                    &&& v@ == self.entries()[key.raw()].1[t]
                },
                None => !(self.entries().contains_key(key.raw())
                    && self.entries()[key.raw()].1.contains_key(t)),
            },
    {
        match self.entities.get(&key.id()) {
            Some(slot) => match slot.additional.get(&t) {
                Some(v) => {
                    let c = v.clone();
                    assert(c@ =~= v@);
                    Some(c)
                },
                None => None,
            },
            None => None,
        }
    }

    /// Whether the record under `key` has an additional value of type `t`.
    pub fn has_additional(&self, key: EntityId, t: TypeKey) -> (r: bool)
        ensures
            r == (self.entries().contains_key(key.raw()) && self.entries()[key.raw()].1.contains_key(t)),
    {
        match self.entities.get(&key.id()) {
            Some(slot) => slot.additional.contains_key(&t),
            None => false,
        }
    }

    /// Detaches the additional value of type `t` from the record under `key`
    /// and hands it over; it is not kept anywhere else.
    pub fn remove_additional(&mut self, key: EntityId, t: TypeKey) -> (r: Option<Vec<u8>>)
        requires
            old(self).wf(),
        ensures
            final(self).wf(),
            final(self).descriptor() == old(self).descriptor(),
            match r {
                Some(v) => {
                    &&& old(self).entries().contains_key(key.raw())
                    &&& old(self).entries()[key.raw()].1.contains_key(t)
                    &&& v@ == old(self).entries()[key.raw()].1[t]
                    &&& final(self).entries() == old(self).entries().insert(
                        key.raw(),
                        (
                            old(self).entries()[key.raw()].0,
                            old(self).entries()[key.raw()].1.remove(t),
                        ),
                    )
                },
                None => {
                    &&& !(old(self).entries().contains_key(key.raw())
                        && old(self).entries()[key.raw()].1.contains_key(t))
                    &&& final(self).entries() == old(self).entries()
                },
            },
    {
        if !self.has_additional(key, t) {
            return None;
        }
        match self.entities.remove(&key.id()) {
            Some(slot) => {
                let mut slot = slot;
                let removed = slot.additional.remove(&t);
                assert(extras_view(slot.additional@) =~= old(self).entries()[key.raw()].1.remove(t));
                self.entities.insert(key.id(), slot);
                assert(self.entries() =~= old(self).entries().insert(
                    key.raw(),
                    (old(self).entries()[key.raw()].0, old(self).entries()[key.raw()].1.remove(t)),
                ));
                removed
            },
            None => None,
        }
    }

    /// A handle narrowed to component `c` on every record here, each id once,
    /// when the caller already knows that `c` lies at `offset`.
    pub fn iter_component_unchecked(&self, c: TypeKey, offset: usize) -> (r: Vec<(EntityId, Acquirable)>)
        requires
            self.wf(),
            self.descriptor().table().contains_key(c),
            self.descriptor().table()[c] == offset,
        ensures
            forall|i: int| 0 <= i < r.len() ==> {
                &&& self.entries().contains_key(#[trigger] r@[i].0.raw())
                &&& r@[i].1.cell() == self.entries()[r@[i].0.raw()].0
                &&& r@[i].1.component() == c
                &&& r@[i].1.offset() == offset
            },
            forall|k: u32| #[trigger] self.entries().contains_key(k) ==> exists|i: int|
                0 <= i < r.len() && r@[i].0.raw() == k,
            forall|i: int, j: int| 0 <= i < j < r.len() ==> r@[i].0 != r@[j].0,
    {
        let mut r: Vec<(EntityId, Acquirable)> = Vec::new();
        let ghost all = spec_keys_iter(&self.entities).remaining().unref();
        for k in it: self.entities.keys()
            invariant
                self.wf(),
                self.descriptor().table().contains_key(c),
                self.descriptor().table()[c] == offset,
                it.seq().unref() == all,
                all.to_set() == self.entities@.dom(),
                r.len() == it.index(),
                forall|i: int| 0 <= i < r.len() ==> {
                    &&& #[trigger] r@[i].0.raw() == all[i]
                    &&& self.entries().contains_key(r@[i].0.raw())
                    &&& r@[i].1.cell() == self.entries()[r@[i].0.raw()].0
                    &&& r@[i].1.component() == c
                    &&& r@[i].1.offset() == offset
                },
        {
            assert(all.contains(*k));
            let slot = self.entities.get(k).unwrap();
            let h = Acquirable::at_offset(slot.cell.clone(), c, offset);
            r.push((EntityId::new(*k), h));
        }
        proof {
            assert forall|k: u32| #[trigger] self.entries().contains_key(k) implies exists|i: int|
                0 <= i < r.len() && r@[i].0.raw() == k by {
                assert(all.to_set().contains(k));
                let i = all.index_of(k);
                assert(r@[i].0.raw() == k);
            }
            assert forall|i: int, j: int| 0 <= i < j < r.len() implies r@[i].0 != r@[j].0 by {
                assert(all.no_duplicates());
                assert(r@[i].0.raw() == all[i]);
                assert(r@[j].0.raw() == all[j]);
            }
        }
        r
    }

    /// A handle narrowed to component `c` on every record here, each id once;
    /// none when the type of these records has no component `c`.
    pub fn iter_component(&self, c: TypeKey) -> (r: Vec<(EntityId, Acquirable)>)
        requires
            self.wf(),
        ensures
            !self.descriptor().table().contains_key(c) ==> r.len() == 0,
            forall|i: int| 0 <= i < r.len() ==> {
                &&& self.entries().contains_key(#[trigger] r@[i].0.raw())
                &&& r@[i].1.cell() == self.entries()[r@[i].0.raw()].0
                &&& r@[i].1.component() == c
                &&& r@[i].1.offset() == self.descriptor().table()[c]
            },
            self.descriptor().table().contains_key(c) ==> forall|k: u32| #[trigger]
                self.entries().contains_key(k) ==> exists|i: int|
                    0 <= i < r.len() && r@[i].0.raw() == k,
            forall|i: int, j: int| 0 <= i < j < r.len() ==> r@[i].0 != r@[j].0,
    {
        match self.extractor.offset(c) {
            Some(offset) => self.iter_component_unchecked(c, offset),
            None => Vec::new(),
        }
    }
}

} // verus!
