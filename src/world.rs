use crate::acquirable::{Acquirable, EntityData};
use crate::archetype::Archetype;
use crate::entity::EntityId;
use crate::error::WorldError;
use crate::extractable::{flatten_list, ExtractableType, TypeKey};
use crate::extractor::Extractor;
use std::collections::HashMap;
use std::sync::Arc;
use vstd::prelude::*;

verus! {

broadcast use {vstd::std_specs::hash::group_hash_axioms, vstd::std_specs::vec::group_vec_axioms};

/// A stored record and the additional values attached to it.
pub type EntityView = (EntityData, Map<TypeKey, Seq<u8>>);

/// Archetype `a` is listed in `index` under component type `c`.
pub open spec fn listed(index: Map<TypeKey, Vec<TypeKey>>, c: TypeKey, a: TypeKey) -> bool {
    index.contains_key(c) && index[c]@.contains(a)
}

/// Pushing `x` adds exactly `x` to what a sequence contains.
proof fn lemma_push_contains(s: Seq<TypeKey>, x: TypeKey, y: TypeKey)
    ensures
        s.push(x).contains(y) <==> (s.contains(y) || y == x),
{
    if s.contains(y) {
        let j = s.index_of(y);
        assert(s.push(x)[j] == y);
    }
    if y == x {
        assert(s.push(x)[s.len() as int] == x);
    }
    if s.push(x).contains(y) {
        let j = s.push(x).index_of(y);
        if j < s.len() {
            assert(s[j] == y);
        }
    }
}

/// `after` is `before` with the descriptor of `ty` added when `before` had
/// none for its type.
pub open spec fn with_kind(
    before: Map<TypeKey, Extractor>,
    ty: ExtractableType,
    after: Map<TypeKey, Extractor>,
) -> bool {
    &&& after.contains_key(ty.type_id)
    &&& before.contains_key(ty.type_id) ==> after == before
    &&& !before.contains_key(ty.type_id) ==> {
        &&& after == before.insert(ty.type_id, after[ty.type_id])
        &&& after[ty.type_id].type_key() == ty.type_id
        &&& after[ty.type_id].table() == flatten_list(ty.metadata@, 0, Map::empty())
    }
}

/// The raw numbers of a batch of ids.
pub open spec fn raw_ids(ids: Seq<EntityId>) -> Set<u32> {
    Set::new(|k: u32| exists|i: int| 0 <= i < ids.len() && ids[i].raw() == k)
}

/// How a batch removal splits `ids` when the live ids are `live`: in
/// order, an id is removed when it is live and did not occur earlier in the
/// batch; every other id fails.
pub open spec fn removal_split(live: Set<u32>, ids: Seq<EntityId>) -> (Seq<EntityId>, Seq<
    EntityId,
>)
    decreases ids.len(),
{
    if ids.len() == 0 {
        (Seq::empty(), Seq::empty())
    } else {
        let (s, f) = removal_split(live, ids.drop_last());
        let x = ids.last();
        if live.contains(x.raw()) && !ids.drop_last().contains(x) {
            (s.push(x), f)
        } else {
            (s, f.push(x))
        }
    }
}

/// Adding an id to a batch adds its raw number.
pub(crate) proof fn lemma_raw_ids_push(s: Seq<EntityId>, x: EntityId)
    ensures
        raw_ids(s.push(x)) == raw_ids(s).insert(x.raw()),
{
    let t = s.push(x);
    assert forall|k: u32| raw_ids(s).insert(x.raw()).contains(k) implies raw_ids(t).contains(k) by {
        if k == x.raw() {
            assert(t[s.len() as int] == x);
        } else {
            let j = choose|j: int| 0 <= j < s.len() && #[trigger] s[j].raw() == k;
            assert(t[j] == s[j]);
        }
    }
    assert forall|k: u32| raw_ids(t).contains(k) implies raw_ids(s).insert(x.raw()).contains(k) by {
        let j = choose|j: int| 0 <= j < t.len() && #[trigger] t[j].raw() == k;
        if j < s.len() {
            assert(s[j] == t[j]);
        }
    }
    assert(raw_ids(t) =~= raw_ids(s).insert(x.raw()));
}

/// The store of all entities, grouped into one archetype per concrete type.
pub struct World {
    archetypes: HashMap<TypeKey, Archetype>,
    entity_index: HashMap<u32, TypeKey>,
    type_index: HashMap<TypeKey, Vec<TypeKey>>,
    next_entity_id: u32,
}

impl World {
    /// Each live entity id with its record and additional values.
    pub closed spec fn entities(&self) -> Map<u32, EntityView> {
        Map::new(
            |k: u32| self.entity_index@.contains_key(k),
            |k: u32| self.archetypes@[self.entity_index@[k]].entries()[k],
        )
    }

    /// The descriptor of each concrete type that has an archetype.
    pub closed spec fn kinds(&self) -> Map<TypeKey, Extractor> {
        self.archetypes@.map_values(|a: Archetype| a.descriptor())
    }

    /// The id the next added entity receives.
    pub closed spec fn next_id(&self) -> nat {
        self.next_entity_id as nat
    }

    /// The world's bookkeeping is consistent: every indexed id is held by
    /// the archetype it is indexed under and by no other, ids lie below the
    /// next id, and the type index lists exactly the archetypes whose
    /// descriptor offers each component type.
    pub closed spec fn wf(&self) -> bool {
        &&& forall|a: TypeKey| #[trigger]
            self.archetypes@.contains_key(a) ==> {
                &&& self.archetypes@[a].wf()
                &&& self.archetypes@[a].descriptor().type_key() == a
            }
        &&& forall|k: u32| #[trigger]
            self.entity_index@.contains_key(k) ==> {
                &&& self.archetypes@.contains_key(self.entity_index@[k])
                &&& self.archetypes@[self.entity_index@[k]].entries().contains_key(k)
                &&& k < self.next_entity_id
            }
        &&& forall|a: TypeKey, k: u32|
            self.archetypes@.contains_key(a) && #[trigger] self.archetypes@[a].entries().contains_key(
                k,
            ) ==> self.entity_index@.contains_key(k) && self.entity_index@[k] == a
        &&& forall|c: TypeKey, a: TypeKey|
            #![trigger listed(self.type_index@, c, a)]
            #![trigger self.archetypes@[a].descriptor().table().contains_key(c)]
            listed(self.type_index@, c, a) <==> (
            self.archetypes@.contains_key(a) && self.archetypes@[a].descriptor().table().contains_key(c))
        &&& forall|c: TypeKey| #[trigger]
            self.type_index@.contains_key(c) ==> self.type_index@[c]@.no_duplicates()
    }

    /// `after` is `before` with one new entity `r`, holding `data` and no additional values,
    /// laid out by the descriptor of `ty`'s type (made from `ty` if the type was new); `r` is
    /// the next id.
    pub open spec fn added(
        before: World,
        ty: ExtractableType,
        data: Seq<u8>,
        r: EntityId,
        after: World,
    ) -> bool {
        &&& r.raw() == before.next_id()
        &&& after.next_id() == before.next_id() + 1
        &&& !before.entities().contains_key(r.raw())
        &&& after.entities() == before.entities().insert(
            r.raw(),
            after.entities()[r.raw()],
        )
        &&& after.entities()[r.raw()].0.bytes() == data
        &&& after.entities()[r.raw()].0.descriptor() == after.kinds()[ty.type_id]
        &&& after.entities()[r.raw()].1 == Map::<TypeKey, Seq<u8>>::empty()
        &&& with_kind(before.kinds(), ty, after.kinds())
    }

    /// `r` is the outcome of asking `w` for component `c` of entity `id`.
    pub open spec fn extracted(
        w: World,
        id: EntityId,
        c: TypeKey,
        r: Result<Acquirable, WorldError>,
    ) -> bool {
        &&& match r {
            Ok(h) => {
                &&& w.entities().contains_key(id.raw())
                &&& w.entities()[id.raw()].0.descriptor().table().contains_key(c)
                &&& h.cell() == w.entities()[id.raw()].0
                &&& h.component() == c
                &&& h.offset() == w.entities()[id.raw()].0.descriptor().table()[c]
            },
            Err(e) => {
                ||| !w.entities().contains_key(id.raw()) && e == WorldError::EntityNotFound(id)
                ||| w.entities().contains_key(id.raw())
                    && !w.entities()[id.raw()].0.descriptor().table().contains_key(c)
                    && e == (WorldError::ComponentNotFound { entity_id: id, component: c })
            }
        }
    }

    /// `r` is the outcome of removing entity `id` from `before`, leaving `after`.
    pub open spec fn removed(
        before: World,
        id: EntityId,
        r: Result<(), WorldError>,
        after: World,
    ) -> bool {
        &&& after.kinds() == before.kinds()
        &&& after.next_id() == before.next_id()
        &&& match r {
            Ok(()) => {
                &&& before.entities().contains_key(id.raw())
                &&& after.entities() == before.entities().remove(id.raw())
            },
            Err(e) => {
                &&& !before.entities().contains_key(id.raw())
                &&& e == WorldError::EntityNotFound(id)
                &&& after.entities() == before.entities()
            }
        }
    }

    /// `r` is the outcome of attaching `value` as the additional value of type `t` of entity
    /// `id` in `before`, leaving `after`.
    pub open spec fn attached(
        before: World,
        id: EntityId,
        t: TypeKey,
        value: Seq<u8>,
        r: Result<(), WorldError>,
        after: World,
    ) -> bool {
        &&& after.kinds() == before.kinds()
        &&& after.next_id() == before.next_id()
        &&& match r {
            Ok(()) => {
                &&& before.entities().contains_key(id.raw())
                &&& after.entities() == before.entities().insert(
                    id.raw(),
                    (
                        before.entities()[id.raw()].0,
                        before.entities()[id.raw()].1.insert(t, value),
                    ),
                )
            },
            Err(e) => {
                &&& !before.entities().contains_key(id.raw())
                &&& e == WorldError::EntityNotFound(id)
                &&& after.entities() == before.entities()
            }
        }
    }

    /// `r` is the outcome of reading the additional value of type `t` of entity `id` in `w`.
    pub open spec fn read_additional(
        w: World,
        id: EntityId,
        t: TypeKey,
        r: Result<Vec<u8>, WorldError>,
    ) -> bool {
        &&& match r {
            Ok(v) => {
                &&& w.entities().contains_key(id.raw())
                &&& w.entities()[id.raw()].1.contains_key(t)
                &&& v@ == w.entities()[id.raw()].1[t]
            },
            Err(e) => {
                ||| !w.entities().contains_key(id.raw()) && e == WorldError::EntityNotFound(id)
                ||| w.entities().contains_key(id.raw())
                    && !w.entities()[id.raw()].1.contains_key(t)
                    && e == (WorldError::AdditionalNotFound { entity_id: id, component: t })
            }
        }
    }

    /// `r` is the outcome of detaching the additional value of type `t` from entity `id` in
    /// `before`, leaving `after`.
    pub open spec fn detached(
        before: World,
        id: EntityId,
        t: TypeKey,
        r: Result<Vec<u8>, WorldError>,
        after: World,
    ) -> bool {
        &&& after.kinds() == before.kinds()
        &&& after.next_id() == before.next_id()
        &&& match r {
            Ok(v) => {
                &&& before.entities().contains_key(id.raw())
                &&& before.entities()[id.raw()].1.contains_key(t)
                &&& v@ == before.entities()[id.raw()].1[t]
                &&& after.entities() == before.entities().insert(
                    id.raw(),
                    (
                        before.entities()[id.raw()].0,
                        before.entities()[id.raw()].1.remove(t),
                    ),
                )
            },
            Err(e) => {
                &&& after.entities() == before.entities()
                &&& {
                    ||| !before.entities().contains_key(id.raw()) && e
                        == WorldError::EntityNotFound(id)
                    ||| before.entities().contains_key(id.raw())
                        && !before.entities()[id.raw()].1.contains_key(t) && e == (
                    WorldError::AdditionalNotFound { entity_id: id, component: t })
                }
            }
        }
    }

    /// `r` holds, each once and in no particular order, every live entity of `w` whose record
    /// offers `c`, with a handle on it narrowed to `c`.
    pub open spec fn queried(
        w: World,
        c: TypeKey,
        r: Seq<(EntityId, Acquirable)>,
    ) -> bool {
        &&& forall|i: int| 0 <= i < r.len() ==> {
            &&& w.entities().contains_key(#[trigger] r[i].0.raw())
            &&& w.entities()[r[i].0.raw()].0.descriptor().table().contains_key(c)
            &&& r[i].1.cell() == w.entities()[r[i].0.raw()].0
            &&& r[i].1.component() == c
            &&& r[i].1.offset() == w.entities()[r[i].0.raw()].0.descriptor().table()[c]
        }
        &&& forall|k: u32| #[trigger]
            w.entities().contains_key(k) && w.entities()[k].0.descriptor().table().contains_key(c)
                ==> exists|i: int| 0 <= i < r.len() && r[i].0.raw() == k
        &&& forall|i: int, j: int| 0 <= i < j < r.len() ==> r[i].0 != r[j].0
    }

    /// `after` is `before` with one new entity per element of `datas`, in
    /// order, under the consecutive ids `r` starting at the next id, each
    /// holding its data and no additional values and laid out by the
    /// descriptor of `ty`'s type; an empty batch changes nothing.
    pub open spec fn batch_added(
        before: World,
        ty: ExtractableType,
        datas: Seq<Vec<u8>>,
        r: Seq<EntityId>,
        after: World,
    ) -> bool {
        &&& r.len() == datas.len()
        &&& forall|i: int| 0 <= i < r.len() ==> #[trigger] r[i].raw() == before.next_id() + i
        &&& after.next_id() == before.next_id() + datas.len()
        &&& datas.len() == 0 ==> after.kinds() == before.kinds()
        &&& datas.len() > 0 ==> with_kind(before.kinds(), ty, after.kinds())
        &&& forall|k: u32| #[trigger]
            after.entities().contains_key(k) <==> (before.entities().contains_key(k) || (
            before.next_id() <= k < before.next_id() + datas.len()))
        &&& forall|k: u32| #[trigger]
            before.entities().contains_key(k) ==> after.entities()[k] == before.entities()[k]
        &&& forall|i: int|
            0 <= i < r.len() ==> {
                &&& #[trigger] after.entities()[r[i].raw()].0.bytes() == datas[i]@
                &&& after.entities()[r[i].raw()].0.descriptor() == after.kinds()[ty.type_id]
                &&& after.entities()[r[i].raw()].1 == Map::<TypeKey, Seq<u8>>::empty()
            }
    }

    /// `o` is what entity `id` of `w` has as additional value of type `t`:
    /// a copy of it, or nothing when it has none.
    pub open spec fn probed(w: World, id: EntityId, t: TypeKey, o: Option<Vec<u8>>) -> bool {
        match o {
            Some(v) => w.entities()[id.raw()].1.contains_key(t) && v@ == w.entities()[id.raw()].1[t],
            None => !w.entities()[id.raw()].1.contains_key(t),
        }
    }

    /// An empty world.
    pub fn new() -> (r: Self)
        ensures
            r.wf(),
            r.entities() == Map::<u32, EntityView>::empty(),
            r.kinds() == Map::<TypeKey, Extractor>::empty(),
            r.next_id() == 0,
    {
        let r = World {
            archetypes: HashMap::new(),
            entity_index: HashMap::new(),
            type_index: HashMap::new(),
            next_entity_id: 0,
        };
        assert(r.entities() =~= Map::empty());
        assert(r.kinds() =~= Map::empty());
        r
    }

    /// The number of live entities.
    pub fn entity_count(&self) -> (r: usize)
        ensures
            self.entities().dom().finite(),
            r == self.entities().len(),
    {
        assert(self.entities().dom() =~= self.entity_index@.dom());
        self.entity_index.len()
    }

    /// The number of archetypes.
    pub fn archetype_count(&self) -> (r: usize)
        ensures
            self.kinds().dom().finite(),
            r == self.kinds().len(),
    {
        assert(self.kinds().dom() =~= self.archetypes@.dom());
        self.archetypes.len()
    }

    /// The id the next added entity receives.
    pub fn next_entity_id(&self) -> (r: u32)
        ensures
            r == self.next_id(),
    {
        self.next_entity_id
    }

    /// Whether `id` is a live entity.
    pub fn contains_entity(&self, id: EntityId) -> (r: bool)
        ensures
            r == self.entities().contains_key(id.raw()),
    {
        self.entity_index.contains_key(&id.id())
    }

    /// Adds archetype `a` to the type index under every component type in `type_ids`.
    fn register_archetype_types(&mut self, a: TypeKey, type_ids: &Vec<TypeKey>)
        requires
            type_ids@.no_duplicates(),
            forall|c: TypeKey| #[trigger]
                old(self).type_index@.contains_key(c) ==> !old(self).type_index@[c]@.contains(a)
                    && old(self).type_index@[c]@.no_duplicates(),
        ensures
            final(self).archetypes == old(self).archetypes,
            final(self).entity_index == old(self).entity_index,
            final(self).next_entity_id == old(self).next_entity_id,
            forall|c: TypeKey| #[trigger]
                final(self).type_index@.contains_key(c) ==> final(self).type_index@[c]@.no_duplicates(),
            forall|c: TypeKey, b: TypeKey| #[trigger]
                listed(final(self).type_index@, c, b) <==> (b != a && listed(
                    old(self).type_index@,
                    c,
                    b,
                )) || (b == a && type_ids@.contains(c)),
    {
        let mut i: usize = 0;
        while i < type_ids.len()
            invariant
                i <= type_ids.len(),
                type_ids@.no_duplicates(),
                self.archetypes == old(self).archetypes,
                self.entity_index == old(self).entity_index,
                self.next_entity_id == old(self).next_entity_id,
                forall|c: TypeKey| #[trigger]
                    self.type_index@.contains_key(c) ==> self.type_index@[c]@.no_duplicates(),
                forall|c: TypeKey| #[trigger]
                    old(self).type_index@.contains_key(c) ==> !old(self).type_index@[c]@.contains(a),
                forall|c: TypeKey, b: TypeKey| #[trigger]
                    listed(self.type_index@, c, b) <==> (b != a && listed(
                        old(self).type_index@,
                        c,
                        b,
                    )) || (b == a && type_ids@.take(i as int).contains(c)),
            decreases type_ids.len() - i,
        {
            let c = type_ids[i];
            let ghost before = self.type_index@;
            assert(!type_ids@.take(i as int).contains(c));
            let mut list: Vec<TypeKey> = match self.type_index.remove(&c) {
                Some(l) => l,
                None => Vec::new(),
            };
            let ghost base = list@;
            assert(base == (if before.contains_key(c) {
                before[c]@
            } else {
                Seq::<TypeKey>::empty()
            }));
            assert(!listed(before, c, a));
            assert(!list@.contains(a));
            list.push(a);
            proof {
                assert forall|b: TypeKey| list@.contains(b) <==> (base.contains(b) || b == a) by {
                    lemma_push_contains(base, a, b);
                }
            }
            assert(list@.no_duplicates());
            self.type_index.insert(c, list);
            assert forall|c2: TypeKey, b: TypeKey| #[trigger]
                listed(self.type_index@, c2, b) <==> (b != a && listed(
                    old(self).type_index@,
                    c2,
                    b,
                )) || (b == a && type_ids@.take(i + 1).contains(c2)) by {
                assert(type_ids@.take(i + 1) == type_ids@.take(i as int).push(c));
                lemma_push_contains(type_ids@.take(i as int), c, c2);
                assert(listed(before, c2, b) <==> (b != a && listed(old(self).type_index@, c2, b))
                    || (b == a && type_ids@.take(i as int).contains(c2)));
                if c2 == c {
                    assert(list@.contains(b) <==> (base.contains(b) || b == a));
                } else {
                    assert(self.type_index@.contains_key(c2) == before.contains_key(c2));
                    if before.contains_key(c2) {
                        assert(self.type_index@[c2] == before[c2]);
                    }
                }
            }
            i += 1;
        }
        assert(type_ids@.take(type_ids.len() as int) == type_ids@);
    }
    /// Makes sure an archetype for `ty` exists. On first use it is created,
    /// and every component type it offers is registered in the type index
    /// before the archetype becomes reachable.
    fn get_archetype(&mut self, ty: &ExtractableType)
        requires
            old(self).wf(),
            ty.wf(),
        ensures
            final(self).wf(),
            final(self).entities() == old(self).entities(),
            final(self).next_id() == old(self).next_id(),
            with_kind(old(self).kinds(), *ty, final(self).kinds()),
    {
        if self.archetypes.contains_key(&ty.type_id) {
            return;
        }
        let archetype = Archetype::new(ty);
        let type_ids = archetype.extractor().type_ids();
        let t = ty.type_id;
        assert forall|c: TypeKey| #[trigger]
            self.type_index@.contains_key(c) implies !self.type_index@[c]@.contains(t)
            && self.type_index@[c]@.no_duplicates() by {
            if self.type_index@[c]@.contains(t) {
                assert(listed(self.type_index@, c, t));
            }
        }
        self.register_archetype_types(t, &type_ids);
        self.archetypes.insert(t, archetype);
        proof {
            assert forall|c: TypeKey| type_ids@.contains(c) <==> archetype.descriptor().table().contains_key(c) by {
                assert(type_ids@.to_set().contains(c) <==> type_ids@.contains(c));
            }
            assert forall|c: TypeKey, a: TypeKey|
                #![trigger listed(self.type_index@, c, a)]
                #![trigger self.archetypes@[a].descriptor().table().contains_key(c)]
                listed(self.type_index@, c, a) <==> (self.archetypes@.contains_key(a)
                    && self.archetypes@[a].descriptor().table().contains_key(c)) by {
                if a != t {
                    assert(listed(old(self).type_index@, c, a) <==> (old(self).archetypes@.contains_key(a)
                        && old(self).archetypes@[a].descriptor().table().contains_key(c)));
                }
            }
            assert forall|a: TypeKey, k: u32|
                self.archetypes@.contains_key(a) && #[trigger] self.archetypes@[a].entries().contains_key(
                    k,
                ) implies self.entity_index@.contains_key(k) && self.entity_index@[k] == a by {
                if a == t {
                    assert(archetype.entries() == Map::<u32, EntityView>::empty());
                } else {
                    assert(old(self).archetypes@[a].entries().contains_key(k));
                }
            }
            assert(self.entities() =~= old(self).entities());
            assert(self.kinds() =~= old(self).kinds().insert(t, archetype.descriptor()));
        }
    }

    /// Stores a new record under `id` in the archetype of type `t`.
    fn insert_entity(&mut self, t: TypeKey, id: EntityId, data: Vec<u8>) -> (r: Acquirable)
        requires
            old(self).wf(),
            old(self).kinds().contains_key(t),
            !old(self).entities().contains_key(id.raw()),
            id.raw() < old(self).next_id(),
        ensures
            final(self).wf(),
            final(self).kinds() == old(self).kinds(),
            final(self).next_id() == old(self).next_id(),
            final(self).entities() == old(self).entities().insert(
                id.raw(),
                final(self).entities()[id.raw()],
            ),
            final(self).entities()[id.raw()].0.bytes() == data@,
            final(self).entities()[id.raw()].0.descriptor() == old(self).kinds()[t],
            final(self).entities()[id.raw()].1 == Map::<TypeKey, Seq<u8>>::empty(),
            r.cell() == final(self).entities()[id.raw()].0,
            r.component() == old(self).kinds()[t].type_key(),
            r.offset() == 0,
    {
        let mut archetype = self.archetypes.remove(&t).unwrap();
        assert(!archetype.entries().contains_key(id.raw()));
        let handle = archetype.insert(id, data);
        self.archetypes.insert(t, archetype);
        self.entity_index.insert(id.id(), t);
        proof {
            assert forall|a: TypeKey, k: u32|
                self.archetypes@.contains_key(a) && #[trigger] self.archetypes@[a].entries().contains_key(
                    k,
                ) implies self.entity_index@.contains_key(k) && self.entity_index@[k] == a by {
                if a != t || k != id.raw() {
                    assert(old(self).archetypes@[a].entries().contains_key(k));
                }
            }
            assert forall|k: u32| #[trigger]
                self.entity_index@.contains_key(k) implies {
                    &&& self.archetypes@.contains_key(self.entity_index@[k])
                    &&& self.archetypes@[self.entity_index@[k]].entries().contains_key(k)
                    &&& k < self.next_entity_id
                } by {
                if k != id.raw() {
                    assert(old(self).entity_index@.contains_key(k));
                }
            }
            assert forall|c: TypeKey, a: TypeKey|
                #![trigger listed(self.type_index@, c, a)]
                #![trigger self.archetypes@[a].descriptor().table().contains_key(c)]
                listed(self.type_index@, c, a) <==> (self.archetypes@.contains_key(a)
                    && self.archetypes@[a].descriptor().table().contains_key(c)) by {
                assert(listed(old(self).type_index@, c, a) <==> (old(self).archetypes@.contains_key(a)
                    && old(self).archetypes@[a].descriptor().table().contains_key(c)));
            }
            assert(self.kinds() =~= old(self).kinds());
            assert(self.entities() =~= old(self).entities().insert(
                id.raw(),
                (handle.cell(), Map::empty()),
            ));
        }
        handle
    }

    /// Adds an entity holding `data`, laid out as `ty` describes, and returns
    /// its id: the next unused one. The first entity of a type creates that
    /// type's archetype; later ones share its descriptor.
    pub fn add_entity(&mut self, ty: &ExtractableType, data: Vec<u8>) -> (r: EntityId)
        requires
            old(self).wf(),
            ty.wf(),
            old(self).next_id() < u32::MAX,
        ensures
            final(self).wf(),
            Self::added(*old(self), *ty, data@, r, *final(self)),
    {
        self.add_entity_with_acquirable(ty, data).0
    }

    /// Adds an entity as `add_entity` does and also returns a handle on it
    /// at its own type.
    pub fn add_entity_with_acquirable(&mut self, ty: &ExtractableType, data: Vec<u8>) -> (r: (
        EntityId,
        Acquirable,
    ))
        requires
            old(self).wf(),
            ty.wf(),
            old(self).next_id() < u32::MAX,
        ensures
            final(self).wf(),
            Self::added(*old(self), *ty, data@, r.0, *final(self)),
            r.1.cell() == final(self).entities()[r.0.raw()].0,
            r.1.component() == ty.type_id,
            r.1.offset() == 0,
    {
        let id = EntityId::new(self.next_entity_id);
        self.next_entity_id = self.next_entity_id + 1;
        proof {
            assert forall|k: u32| #[trigger] self.entity_index@.contains_key(k) implies k
                < self.next_entity_id by {
                assert(old(self).entity_index@.contains_key(k));
            }
            assert(!self.entities().contains_key(id.raw()));
        }
        self.get_archetype(ty);
        let handle = self.insert_entity(ty.type_id, id, data);
        (id, handle)
    }
    /// A consistent world holds finitely many entities and archetypes, so
    /// their counts are the sizes of these maps.
    pub proof fn lemma_entities_finite(&self)
        requires
            self.wf(),
        ensures
            self.entities().dom().finite(),
            self.kinds().dom().finite(),
    {
        assert(self.entities().dom() =~= self.entity_index@.dom());
        assert(self.kinds().dom() =~= self.archetypes@.dom());
    }

    /// Every live id lies below the next id.
    pub proof fn lemma_ids_below_next(&self)
        requires
            self.wf(),
        ensures
            forall|k: u32| #[trigger] self.entities().contains_key(k) ==> k < self.next_id(),
    {
    }

    /// Replacing one archetype by one with the same descriptor and the same
    /// ids keeps the world consistent, and changes the records of that
    /// archetype's ids only.
    proof fn lemma_replace_archetype(before: World, after: World, a: TypeKey)
        requires
            before.wf(),
            after.entity_index == before.entity_index,
            after.type_index == before.type_index,
            after.next_entity_id == before.next_entity_id,
            before.archetypes@.contains_key(a),
            after.archetypes@ == before.archetypes@.insert(a, after.archetypes@[a]),
            after.archetypes@[a].wf(),
            after.archetypes@[a].descriptor() == before.archetypes@[a].descriptor(),
            after.archetypes@[a].entries().dom() == before.archetypes@[a].entries().dom(),
        ensures
            after.wf(),
            after.kinds() == before.kinds(),
            after.next_id() == before.next_id(),
            after.entities().dom() == before.entities().dom(),
            forall|k: u32| #[trigger]
                after.entities().contains_key(k) ==> after.entities()[k] == (if after.entity_index@[k]
                    == a {
                    after.archetypes@[a].entries()[k]
                } else {
                    before.entities()[k]
                }),
    {
        assert forall|a2: TypeKey, k: u32|
            after.archetypes@.contains_key(a2) && #[trigger] after.archetypes@[a2].entries().contains_key(
                k,
            ) implies after.entity_index@.contains_key(k) && after.entity_index@[k] == a2 by {
            assert(before.archetypes@[a2].entries().contains_key(k));
        }
        assert forall|k: u32| #[trigger]
            after.entity_index@.contains_key(k) implies {
                &&& after.archetypes@.contains_key(after.entity_index@[k])
                &&& after.archetypes@[after.entity_index@[k]].entries().contains_key(k)
                &&& k < after.next_entity_id
            } by {
            assert(before.entity_index@.contains_key(k));
        }
        assert forall|c: TypeKey, a2: TypeKey|
            #![trigger listed(after.type_index@, c, a2)]
            #![trigger after.archetypes@[a2].descriptor().table().contains_key(c)]
            listed(after.type_index@, c, a2) <==> (after.archetypes@.contains_key(a2)
                && after.archetypes@[a2].descriptor().table().contains_key(c)) by {
            assert(listed(before.type_index@, c, a2) <==> (before.archetypes@.contains_key(a2)
                && before.archetypes@[a2].descriptor().table().contains_key(c)));
        }
        assert(after.kinds() =~= before.kinds());
        assert(after.entities().dom() =~= before.entities().dom());
    }

    /// The record of `id`.
    fn get_entity_data(&self, id: EntityId) -> (r: Option<Arc<EntityData>>)
        requires
            self.wf(),
        ensures
            match r {
                Some(c) => self.entities().contains_key(id.raw()) && *c == self.entities()[id.raw()].0,
                None => !self.entities().contains_key(id.raw()),
            },
    {
        match self.entity_index.get(&id.id()) {
            Some(t) => match self.archetypes.get(t) {
                Some(archetype) => archetype.get_cell(id),
                None => None,
            },
            None => None,
        }
    }

    /// A handle on entity `id` narrowed to component type `c`.
    pub fn extract_component(&self, id: EntityId, c: TypeKey) -> (r: Result<Acquirable, WorldError>)
        requires
            self.wf(),
        ensures
            Self::extracted(*self, id, c, r),
    {
        match self.get_entity_data(id) {
            Some(cell) => match Acquirable::locate(cell, c) {
                Some(h) => Ok(h),
                None => Err(WorldError::ComponentNotFound { entity_id: id, component: c }),
            },
            None => Err(WorldError::EntityNotFound(id)),
        }
    }

    /// Removes entity `id`. Its record lives on while handles on it remain.
    pub fn remove_entity(&mut self, id: EntityId) -> (r: Result<(), WorldError>)
        requires
            old(self).wf(),
        ensures
            final(self).wf(),
            Self::removed(*old(self), id, r, *final(self)),
    {
        match self.entity_index.remove(&id.id()) {
            None => {
                assert(self.entities() =~= old(self).entities());
                assert(self.kinds() =~= old(self).kinds());
                Err(WorldError::EntityNotFound(id))
            },
            Some(t) => match self.archetypes.remove(&t) {
                Some(archetype) => {
                    let mut archetype = archetype;
                    let removed = archetype.remove(id);
                    self.archetypes.insert(t, archetype);
                    proof {
                        assert forall|a: TypeKey, k: u32|
                            self.archetypes@.contains_key(a)
                                && #[trigger] self.archetypes@[a].entries().contains_key(
                                k,
                            ) implies self.entity_index@.contains_key(k) && self.entity_index@[k]
                            == a by {
                            assert(old(self).archetypes@[a].entries().contains_key(k));
                        }
                        assert forall|k: u32| #[trigger]
                            self.entity_index@.contains_key(k) implies {
                                &&& self.archetypes@.contains_key(self.entity_index@[k])
                                &&& self.archetypes@[self.entity_index@[k]].entries().contains_key(k)
                                &&& k < self.next_entity_id
                            } by {
                            assert(old(self).entity_index@.contains_key(k));
                        }
                        assert forall|c: TypeKey, a: TypeKey|
                            #![trigger listed(self.type_index@, c, a)]
                            #![trigger self.archetypes@[a].descriptor().table().contains_key(c)]
                            listed(self.type_index@, c, a) <==> (self.archetypes@.contains_key(a)
                                && self.archetypes@[a].descriptor().table().contains_key(c)) by {
                            assert(listed(old(self).type_index@, c, a) <==> (
                            old(self).archetypes@.contains_key(a)
                                && old(self).archetypes@[a].descriptor().table().contains_key(c)));
                        }
                        assert(self.kinds() =~= old(self).kinds());
                        assert(self.entities() =~= old(self).entities().remove(id.raw()));
                    }
                    match removed {
                        Some(_) => Ok(()),
                        None => Err(WorldError::ArchetypeNotFound(id)),
                    }
                },
                None => Err(WorldError::ArchetypeNotFound(id)),
            },
        }
    }

    /// Attaches `value` to entity `id` as its additional value of type `t`,
    /// dropping any value of that type attached before.
    pub fn add_additional(&mut self, id: EntityId, t: TypeKey, value: Vec<u8>) -> (r: Result<
        (),
        WorldError,
    >)
        requires
            old(self).wf(),
        ensures
            final(self).wf(),
            Self::attached(*old(self), id, t, value@, r, *final(self)),
    {
        let a = match self.entity_index.get(&id.id()) {
            Some(a) => *a,
            None => return Err(WorldError::EntityNotFound(id)),
        };
        let mut archetype = self.archetypes.remove(&a).unwrap();
        let ghost value_view = value@;
        archetype.add_additional(id, t, value);
        self.archetypes.insert(a, archetype);
        proof {
            assert(archetype.entries().dom() =~= old(self).archetypes@[a].entries().dom());
            assert(self.archetypes@ =~= old(self).archetypes@.insert(a, archetype));
            World::lemma_replace_archetype(*old(self), *self, a);
            assert(self.entities() =~= old(self).entities().insert(
                id.raw(),
                (old(self).entities()[id.raw()].0, old(self).entities()[id.raw()].1.insert(t, value_view)),
            ));
        }
        Ok(())
    }

    /// A copy of the additional value of type `t` attached to entity `id`.
    pub fn extract_additional(&self, id: EntityId, t: TypeKey) -> (r: Result<Vec<u8>, WorldError>)
        requires
            self.wf(),
        ensures
            Self::read_additional(*self, id, t, r),
    {
        let a = match self.entity_index.get(&id.id()) {
            Some(a) => *a,
            None => return Err(WorldError::EntityNotFound(id)),
        };
        match self.archetypes.get(&a) {
            Some(archetype) => match archetype.extract_additional(id, t) {
                Some(v) => Ok(v),
                None => Err(WorldError::AdditionalNotFound { entity_id: id, component: t }),
            },
            None => Err(WorldError::EntityNotFound(id)),
        }
    }

    /// Whether entity `id` has an additional value of type `t`; false when
    /// the entity is not live.
    pub fn has_additional(&self, id: EntityId, t: TypeKey) -> (r: bool)
        requires
            self.wf(),
        ensures
            r == (self.entities().contains_key(id.raw()) && self.entities()[id.raw()].1.contains_key(
                t,
            )),
    {
        match self.entity_index.get(&id.id()) {
            Some(a) => match self.archetypes.get(a) {
                Some(archetype) => archetype.has_additional(id, t),
                None => false,
            },
            None => false,
        }
    }

    /// Detaches the additional value of type `t` from entity `id` and hands
    /// it over at once.
    pub fn remove_additional(&mut self, id: EntityId, t: TypeKey) -> (r: Result<Vec<u8>, WorldError>)
        requires
            old(self).wf(),
        ensures
            final(self).wf(),
            Self::detached(*old(self), id, t, r, *final(self)),
    {
        let a = match self.entity_index.get(&id.id()) {
            Some(a) => *a,
            None => return Err(WorldError::EntityNotFound(id)),
        };
        let mut archetype = self.archetypes.remove(&a).unwrap();
        let removed = archetype.remove_additional(id, t);
        self.archetypes.insert(a, archetype);
        proof {
            assert(archetype.entries().dom() =~= old(self).archetypes@[a].entries().dom());
            assert(self.archetypes@ =~= old(self).archetypes@.insert(a, archetype));
            World::lemma_replace_archetype(*old(self), *self, a);
        }
        match removed {
            Some(v) => {
                assert(self.entities() =~= old(self).entities().insert(
                    id.raw(),
                    (old(self).entities()[id.raw()].0, old(self).entities()[id.raw()].1.remove(t)),
                ));
                Ok(v)
            },
            None => {
                assert(self.entities() =~= old(self).entities());
                Err(WorldError::AdditionalNotFound { entity_id: id, component: t })
            },
        }
    }
    /// A handle narrowed to component type `c` on every live entity whose
    /// record offers it, each entity once, in no particular order.
    pub fn query(&self, c: TypeKey) -> (r: Vec<(EntityId, Acquirable)>)
        requires
            self.wf(),
        ensures
            Self::queried(*self, c, r@),
    {
        let mut results: Vec<(EntityId, Acquirable)> = Vec::new();
        let aids = match self.type_index.get(&c) {
            Some(aids) => aids,
            None => {
                proof {
                    assert forall|k: u32| #[trigger]
                        self.entities().contains_key(k)
                            && self.entities()[k].0.descriptor().table().contains_key(c) implies false by {
                        let a = self.entity_index@[k];
                        self.archetypes@[a].lemma_records_share_descriptor();
                        assert(listed(self.type_index@, c, a));
                    }
                }
                return results;
            },
        };
        let mut p: usize = 0;
        while p < aids.len()
            invariant
                self.wf(),
                self.type_index@.contains_key(c),
                aids@ == self.type_index@[c]@,
                aids@.no_duplicates(),
                p <= aids.len(),
                forall|i: int| 0 <= i < results.len() ==> {
                    &&& self.entities().contains_key(#[trigger] results@[i].0.raw())
                    &&& self.entities()[results@[i].0.raw()].0.descriptor().table().contains_key(c)
                    &&& results@[i].1.cell() == self.entities()[results@[i].0.raw()].0
                    &&& results@[i].1.component() == c
                    &&& results@[i].1.offset() == self.entities()[results@[i].0.raw()].0.descriptor().table()[c]
                    &&& aids@.take(p as int).contains(self.entity_index@[results@[i].0.raw()])
                },
                forall|k: u32| #[trigger]
                    self.entities().contains_key(k) && aids@.take(p as int).contains(self.entity_index@[k])
                        ==> exists|i: int| 0 <= i < results.len() && results@[i].0.raw() == k,
                forall|i: int, j: int| 0 <= i < j < results.len() ==> results@[i].0 != results@[j].0,
            decreases aids.len() - p,
        {
            let a = aids[p];
            let ghost prev = results@;
            assert(aids@.take(p + 1) == aids@.take(p as int).push(a));
            assert(!aids@.take(p as int).contains(a));
            assert(listed(self.type_index@, c, a));
            let archetype = self.archetypes.get(&a).unwrap();
            proof {
                archetype.lemma_records_share_descriptor();
                assert(*archetype == self.archetypes@[a]);
            }
            let offset = archetype.extractor().offset(c).unwrap();
            let mut part = archetype.iter_component_unchecked(c, offset);
            let ghost part_view = part@;
            results.append(&mut part);
            proof {
                assert(results@ == prev + part_view);
                assert forall|i: int| 0 <= i < results.len() implies {
                    &&& self.entities().contains_key(#[trigger] results@[i].0.raw())
                    &&& self.entities()[results@[i].0.raw()].0.descriptor().table().contains_key(c)
                    &&& results@[i].1.cell() == self.entities()[results@[i].0.raw()].0
                    &&& results@[i].1.component() == c
                    &&& results@[i].1.offset() == self.entities()[results@[i].0.raw()].0.descriptor().table()[c]
                    &&& aids@.take(p + 1).contains(self.entity_index@[results@[i].0.raw()])
                } by {
                    let k = results@[i].0.raw();
                    lemma_push_contains(aids@.take(p as int), a, self.entity_index@[k]);
                    if i >= prev.len() {
                        let j = i - prev.len();
                        assert(0 <= j < part_view.len());
                        assert(results@[i] == part_view[j]);
                        assert(archetype.entries().contains_key(part_view[j].0.raw()));
                        assert(archetype.entries().contains_key(k));
                        assert(self.entity_index@[k] == a);
                        assert(self.entities()[k] == archetype.entries()[k]);
                        assert(self.entities().contains_key(k));
                    } else {
                        assert(results@[i] == prev[i]);
                        assert(self.entities().contains_key(prev[i].0.raw()));
                    }
                }
                assert forall|k: u32| #[trigger]
                    self.entities().contains_key(k) && aids@.take(p + 1).contains(self.entity_index@[k])
                        implies exists|i: int| 0 <= i < results.len() && results@[i].0.raw() == k by {
                    lemma_push_contains(aids@.take(p as int), a, self.entity_index@[k]);
                    if self.entity_index@[k] == a {
                        assert(archetype.entries().contains_key(k));
                        let j = choose|j: int| 0 <= j < part_view.len() && part_view[j].0.raw() == k;
                        assert(results@[prev.len() + j].0.raw() == k);
                    } else {
                        let j = choose|j: int| 0 <= j < prev.len() && prev[j].0.raw() == k;
                        assert(results@[j].0.raw() == k);
                    }
                }
                assert forall|i: int, j: int| 0 <= i < j < results.len() implies results@[i].0
                    != results@[j].0 by {
                    if i < prev.len() && j >= prev.len() {
                        let kj = part_view[j - prev.len()].0.raw();
                        assert(archetype.entries().contains_key(kj));
                        assert(self.entity_index@[kj] == a);
                        assert(aids@.take(p as int).contains(self.entity_index@[prev[i].0.raw()]));
                    }
                }
            }
            p += 1;
        }
        proof {
            assert(aids@.take(aids.len() as int) == aids@);
            assert forall|k: u32| #[trigger]
                self.entities().contains_key(k) && self.entities()[k].0.descriptor().table().contains_key(c)
                    implies exists|i: int| 0 <= i < results.len() && results@[i].0.raw() == k by {
                let a = self.entity_index@[k];
                self.archetypes@[a].lemma_records_share_descriptor();
                assert(listed(self.type_index@, c, a));
                assert(aids@.take(aids.len() as int).contains(a));
            }
        }
        results
    }
    /// Adds one entity per element of `datas`, all of type `ty`, under
    /// consecutive ids reserved at once, and returns the ids in order. An
    /// empty batch changes nothing.
    pub fn add_entities(&mut self, ty: &ExtractableType, datas: Vec<Vec<u8>>) -> (r: Vec<EntityId>)
        requires
            old(self).wf(),
            ty.wf(),
            old(self).next_id() + datas.len() <= u32::MAX,
        ensures
            final(self).wf(),
            Self::batch_added(*old(self), *ty, datas@, r@, *final(self)),
    {
        let count = datas.len();
        let mut ids: Vec<EntityId> = Vec::new();
        if count == 0 {
            return ids;
        }
        let start = self.next_entity_id;
        self.next_entity_id = start + count as u32;
        proof {
            assert forall|k: u32| #[trigger] self.entity_index@.contains_key(k) implies k
                < self.next_entity_id by {
                assert(old(self).entity_index@.contains_key(k));
            }
            old(self).lemma_ids_below_next();
            assert(self.entities() == old(self).entities());
        }
        self.get_archetype(ty);
        let ghost mid = *self;
        let ghost all = datas@;
        let mut i: usize = 0;
        for data in it: datas
            invariant
                self.wf(),
                it.seq() == all,
                i == it.index(),
                i <= count,
                count == all.len(),
                start == old(self).next_id(),
                start + count <= u32::MAX,
                self.next_id() == start + count,
                self.kinds() == mid.kinds(),
                mid.kinds().contains_key(ty.type_id),
                ids.len() == i,
                forall|j: int| 0 <= j < i ==> #[trigger] ids@[j].raw() == start + j,
                forall|k: u32| #[trigger]
                    self.entities().contains_key(k) <==> (old(self).entities().contains_key(k) || (
                    start <= k < start + i)),
                forall|k: u32| #[trigger]
                    old(self).entities().contains_key(k) ==> self.entities()[k] == old(self).entities()[k],
                forall|k: u32| #[trigger]
                    old(self).entities().contains_key(k) ==> k < start,
                forall|j: int|
                    0 <= j < i ==> {
                        &&& #[trigger] self.entities()[ids@[j].raw()].0.bytes() == all[j]@
                        &&& self.entities()[ids@[j].raw()].0.descriptor() == mid.kinds()[ty.type_id]
                        &&& self.entities()[ids@[j].raw()].1 == Map::<TypeKey, Seq<u8>>::empty()
                    },
        {
            let id = EntityId::new(start + i as u32);
            let ghost before = *self;
            assert(!self.entities().contains_key(id.raw()));
            self.insert_entity(ty.type_id, id, data);
            ids.push(id);
            proof {
                assert forall|j: int|
                    0 <= j < i + 1 implies {
                        &&& #[trigger] self.entities()[ids@[j].raw()].0.bytes() == all[j]@
                        &&& self.entities()[ids@[j].raw()].0.descriptor() == mid.kinds()[ty.type_id]
                        &&& self.entities()[ids@[j].raw()].1 == Map::<TypeKey, Seq<u8>>::empty()
                    } by {
                    if j < i {
                        assert(ids@[j].raw() == start + j);
                        assert(before.entities().contains_key(ids@[j].raw()));
                    }
                }
            }
            i += 1;
        }
        ids
    }

    /// Removes every entity of `ids`, in order. `Ok` when each was live at
    /// its turn; otherwise `PartialRemoval`, listing in order the ids that
    /// were removed and those that were not (unknown ids, and repeats of an
    /// id already removed in this batch).
    pub fn try_remove_entities(&mut self, ids: &Vec<EntityId>) -> (r: Result<(), WorldError>)
        requires
            old(self).wf(),
        ensures
            final(self).wf(),
            final(self).kinds() == old(self).kinds(),
            final(self).next_id() == old(self).next_id(),
            final(self).entities() == old(self).entities().remove_keys(raw_ids(ids@)),
            match r {
                Ok(()) => removal_split(old(self).entities().dom(), ids@).1.len() == 0,
                Err(WorldError::PartialRemoval { succeeded, failed }) => {
                    &&& removal_split(old(self).entities().dom(), ids@).1.len() > 0
                    &&& succeeded@ == removal_split(old(self).entities().dom(), ids@).0
                    &&& failed@ == removal_split(old(self).entities().dom(), ids@).1
                },
                Err(_) => false,
            },
    {
        let mut succeeded: Vec<EntityId> = Vec::new();
        let mut failed: Vec<EntityId> = Vec::new();
        let ghost live = old(self).entities().dom();
        let mut i: usize = 0;
        assert(raw_ids(ids@.take(0)) =~= Set::empty());
        while i < ids.len()
            invariant
                self.wf(),
                i <= ids.len(),
                live == old(self).entities().dom(),
                self.kinds() == old(self).kinds(),
                self.next_id() == old(self).next_id(),
                self.entities() == old(self).entities().remove_keys(raw_ids(ids@.take(i as int))),
                succeeded@ == removal_split(live, ids@.take(i as int)).0,
                failed@ == removal_split(live, ids@.take(i as int)).1,
            decreases ids.len() - i,
        {
            let id = ids[i];
            let ghost prefix = ids@.take(i as int);
            assert(ids@.take(i + 1).drop_last() == prefix);
            assert(ids@.take(i + 1).last() == id);
            proof {
                assert(ids@.take(i + 1) == prefix.push(id));
                lemma_raw_ids_push(prefix, id);
                assert(raw_ids(prefix).contains(id.raw()) <==> prefix.contains(id)) by {
                    if raw_ids(prefix).contains(id.raw()) {
                        let j = choose|j: int| 0 <= j < prefix.len() && prefix[j].raw() == id.raw();
                        EntityId::lemma_raw_injective(prefix[j], id);
                        assert(prefix[j] == id);
                    }
                    if prefix.contains(id) {
                        let j = choose|j: int| 0 <= j < prefix.len() && prefix[j] == id;
                        assert(prefix[j].raw() == id.raw());
                    }
                }
            }
            let ghost before = self.entities();
            match self.remove_entity(id) {
                Ok(()) => {
                    succeeded.push(id);
                },
                Err(_) => {
                    failed.push(id);
                },
            }
            assert(self.entities() =~= old(self).entities().remove_keys(raw_ids(ids@.take(i + 1))));
            i += 1;
        }
        assert(ids@.take(ids.len() as int) == ids@);
        if failed.len() == 0 {
            Ok(())
        } else {
            Err(WorldError::PartialRemoval { succeeded, failed })
        }
    }

    /// Removes every live entity of `ids`, skipping the others without
    /// keeping track of them.
    pub fn remove_entities(&mut self, ids: &Vec<EntityId>)
        requires
            old(self).wf(),
        ensures
            final(self).wf(),
            final(self).kinds() == old(self).kinds(),
            final(self).next_id() == old(self).next_id(),
            final(self).entities() == old(self).entities().remove_keys(raw_ids(ids@)),
    {
        let mut i: usize = 0;
        assert(raw_ids(ids@.take(0)) =~= Set::empty());
        while i < ids.len()
            invariant
                self.wf(),
                i <= ids.len(),
                self.kinds() == old(self).kinds(),
                self.next_id() == old(self).next_id(),
                self.entities() == old(self).entities().remove_keys(raw_ids(ids@.take(i as int))),
            decreases ids.len() - i,
        {
            let id = ids[i];
            let ghost prefix = ids@.take(i as int);
            proof {
                assert(ids@.take(i + 1) == prefix.push(id));
                lemma_raw_ids_push(prefix, id);
            }
            let _ = self.remove_entity(id);
            assert(self.entities() =~= old(self).entities().remove_keys(raw_ids(ids@.take(i + 1))));
            i += 1;
        }
        assert(ids@.take(ids.len() as int) == ids@);
    }

    /// Drops every entity and archetype and the type index. The id counter
    /// keeps its value, so no id is ever handed out twice.
    pub fn clear(&mut self)
        requires
            old(self).wf(),
        ensures
            final(self).wf(),
            final(self).entities() == Map::<u32, EntityView>::empty(),
            final(self).kinds() == Map::<TypeKey, Extractor>::empty(),
            final(self).next_id() == old(self).next_id(),
    {
        self.entity_index.clear();
        self.archetypes.clear();
        self.type_index.clear();
        assert(self.entities() =~= Map::empty());
        assert(self.kinds() =~= Map::empty());
    }
    /// Every live entity whose record offers `base`, with a handle narrowed
    /// to `base` and, for each type of `extras` in order, a copy of the
    /// entity's additional value of that type if it has one.
    pub fn query_with(&self, base: TypeKey, extras: &Vec<TypeKey>) -> (r: Vec<
        (EntityId, Acquirable, Vec<Option<Vec<u8>>>),
    >)
        requires
            self.wf(),
        ensures
            Self::queried(
                *self,
                base,
                r@.map_values(|e: (EntityId, Acquirable, Vec<Option<Vec<u8>>>)| (e.0, e.1)),
            ),
            forall|i: int| 0 <= i < r.len() ==> #[trigger] r@[i].2.len() == extras.len(),
            forall|i: int, j: int|
                0 <= i < r.len() && 0 <= j < extras.len() ==> Self::probed(
                    *self,
                    r@[i].0,
                    extras@[j],
                    #[trigger] r@[i].2@[j],
                ),
    {
        let found = self.query(base);
        let ghost fv = found@;
        let mut out: Vec<(EntityId, Acquirable, Vec<Option<Vec<u8>>>)> = Vec::new();
        for item in it: found
            invariant
                self.wf(),
                it.seq() == fv,
                Self::queried(*self, base, fv),
                out.len() == it.index(),
                forall|i: int| 0 <= i < out.len() ==> (#[trigger] out@[i].0, out@[i].1) == fv[i],
                forall|i: int| 0 <= i < out.len() ==> #[trigger] out@[i].2.len() == extras.len(),
                forall|i: int, j: int|
                    0 <= i < out.len() && 0 <= j < extras.len() ==> Self::probed(
                        *self,
                        out@[i].0,
                        extras@[j],
                        #[trigger] out@[i].2@[j],
                    ),
        {
            let (id, h) = item;
            assert(self.entities().contains_key(fv[out.len() as int].0.raw()));
            let mut probes: Vec<Option<Vec<u8>>> = Vec::new();
            let mut j: usize = 0;
            while j < extras.len()
                invariant
                    self.wf(),
                    self.entities().contains_key(id.raw()),
                    j <= extras.len(),
                    probes.len() == j,
                    forall|jj: int| 0 <= jj < j ==> Self::probed(*self, id, extras@[jj], #[trigger] probes@[jj]),
                decreases extras.len() - j,
            {
                let o = match self.extract_additional(id, extras[j]) {
                    Ok(v) => Some(v),
                    Err(_) => None,
                };
                probes.push(o);
                j += 1;
            }
            let ghost prev = out@;
            out.push((id, h, probes));
            proof {
                assert forall|i: int| 0 <= i < out.len() implies #[trigger] out@[i].2.len()
                    == extras.len() by {
                    if i < prev.len() {
                        assert(out@[i] == prev[i]);
                    }
                }
                assert forall|i: int, j: int|
                    0 <= i < out.len() && 0 <= j < extras.len() implies Self::probed(
                        *self,
                        out@[i].0,
                        extras@[j],
                        #[trigger] out@[i].2@[j],
                    ) by {
                    if i < prev.len() {
                        assert(out@[i] == prev[i]);
                    }
                }
            }
        }
        assert(out@.map_values(|e: (EntityId, Acquirable, Vec<Option<Vec<u8>>>)| (e.0, e.1)) =~= fv);
        out
    }
}

} // verus!
