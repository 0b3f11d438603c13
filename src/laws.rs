use crate::acquirable::Acquirable;
use crate::entity::EntityId;
use crate::error::WorldError;
use crate::extractable::{flatten_list, lemma_flatten_list_dom, list_offers, ExtractableType, TypeKey};
use crate::world::{lemma_raw_ids_push, raw_ids, removal_split, World};
use vstd::prelude::*;

verus! {

/// An entity added as `ty` can be read back: asking for a component type
/// reachable from `ty`'s layout succeeds with a handle on a record holding
/// exactly the added bytes, and asking for any other type fails with
/// `ComponentNotFound`. This holds when the archetype of `ty`'s type, if the
/// world already had one, was made from that same layout.
pub proof fn lemma_add_then_extract(
    before: World,
    ty: ExtractableType,
    data: Seq<u8>,
    id: EntityId,
    after: World,
    c: TypeKey,
    r: Result<Acquirable, WorldError>,
)
    requires
        before.wf(),
        ty.wf(),
        before.kinds().contains_key(ty.type_id) ==> before.kinds()[ty.type_id].table()
            == flatten_list(ty.metadata@, 0, Map::empty()),
        World::added(before, ty, data, id, after),
        World::extracted(after, id, c, r),
    ensures
        r is Ok <==> list_offers(ty.metadata@, c),
        r is Ok ==> r->Ok_0.cell().bytes() == data && r->Ok_0.component() == c
            && r->Ok_0.offset() == flatten_list(ty.metadata@, 0, Map::empty())[c],
        r is Err ==> r->Err_0 == (WorldError::ComponentNotFound { entity_id: id, component: c }),
{
    lemma_flatten_list_dom(ty.metadata@, 0, Map::empty());
    assert(after.entities().contains_key(id.raw()));
}

/// Once an entity is removed, asking for any of its components fails with
/// `EntityNotFound`, and so does removing it again.
pub proof fn lemma_remove_then_not_found(
    before: World,
    id: EntityId,
    r1: Result<(), WorldError>,
    mid: World,
    c: TypeKey,
    r2: Result<Acquirable, WorldError>,
    r3: Result<(), WorldError>,
    after: World,
)
    requires
        before.wf(),
        World::removed(before, id, r1, mid),
        World::extracted(mid, id, c, r2),
        World::removed(mid, id, r3, after),
    ensures
        r2 == Err::<Acquirable, WorldError>(WorldError::EntityNotFound(id)),
        r3 == Err::<(), WorldError>(WorldError::EntityNotFound(id)),
{
    assert(!mid.entities().contains_key(id.raw()));
}

/// Two entities added one after the other get different ids, and the
/// first is still live after the second is added.
pub proof fn lemma_ids_distinct(
    w0: World,
    ty1: ExtractableType,
    d1: Seq<u8>,
    id1: EntityId,
    w1: World,
    ty2: ExtractableType,
    d2: Seq<u8>,
    id2: EntityId,
    w2: World,
)
    requires
        w0.wf(),
        World::added(w0, ty1, d1, id1, w1),
        World::added(w1, ty2, d2, id2, w2),
    ensures
        id1 != id2,
        w2.entities().contains_key(id1.raw()),
        w2.entities().contains_key(id2.raw()),
{
    assert(id1.raw() != id2.raw());
}

/// Adding an empty batch returns no id and leaves the entities as they
/// were; adding a batch of `n` returns `n` distinct ids of new entities,
/// all live afterwards.
pub proof fn lemma_batch_ids(
    before: World,
    ty: ExtractableType,
    datas: Seq<Vec<u8>>,
    r: Seq<EntityId>,
    after: World,
)
    requires
        before.wf(),
        World::batch_added(before, ty, datas, r, after),
    ensures
        datas.len() == 0 ==> r.len() == 0 && after.entities() == before.entities(),
        r.len() == datas.len(),
        forall|i: int, j: int| 0 <= i < j < r.len() ==> r[i] != r[j],
        forall|i: int|
            0 <= i < r.len() ==> after.entities().contains_key(#[trigger] r[i].raw())
                && !before.entities().contains_key(r[i].raw()),
{
    before.lemma_ids_below_next();
    assert forall|i: int, j: int| 0 <= i < j < r.len() implies r[i] != r[j] by {
        assert(r[i].raw() != r[j].raw());
    }
    if datas.len() == 0 {
        assert(after.entities() =~= before.entities());
    }
}

/// Attaching two values of one type to an entity keeps only the second;
/// detaching then hands back the second and leaves none of that type.
pub proof fn lemma_replace_then_detach(
    w0: World,
    id: EntityId,
    t: TypeKey,
    x: Seq<u8>,
    r1: Result<(), WorldError>,
    w1: World,
    y: Seq<u8>,
    r2: Result<(), WorldError>,
    w2: World,
    r3: Result<Vec<u8>, WorldError>,
    w3: World,
    present: bool,
)
    requires
        w0.wf(),
        w0.entities().contains_key(id.raw()),
        World::attached(w0, id, t, x, r1, w1),
        World::attached(w1, id, t, y, r2, w2),
        World::detached(w2, id, t, r3, w3),
        present == (w3.entities().contains_key(id.raw()) && w3.entities()[id.raw()].1.contains_key(t)),
    ensures
        r1 is Ok && r2 is Ok,
        w2.entities()[id.raw()].1.contains_key(t),
        w2.entities()[id.raw()].1[t] == y,
        r3 is Ok && r3->Ok_0@ == y,
        !present,
{
    assert(w1.entities().contains_key(id.raw()));
    assert(w2.entities().contains_key(id.raw()));
    assert(w2.entities()[id.raw()].1 == w1.entities()[id.raw()].1.insert(t, y));
}

/// The ids `start`, `start + 1`, ..., `start + n - 1`.
pub open spec fn id_range(start: nat, n: nat) -> Set<u32> {
    Set::new(|k: u32| start <= k < start + n)
}

/// A range of `n` ids has `n` elements.
pub proof fn lemma_id_range_len(start: nat, n: nat)
    requires
        start + n <= u32::MAX + 1,
    ensures
        id_range(start, n).finite(),
        id_range(start, n).len() == n,
    decreases n,
{
    if n == 0 {
        assert(id_range(start, n) =~= Set::empty());
    } else {
        lemma_id_range_len(start, (n - 1) as nat);
        let last = (start + n - 1) as u32;
        assert(id_range(start, n) =~= id_range(start, (n - 1) as nat).insert(last));
    }
}

/// Adding an entity raises the entity count by one, and removing it again
/// brings the count back.
pub proof fn lemma_count_add_remove(
    w0: World,
    ty: ExtractableType,
    data: Seq<u8>,
    id: EntityId,
    w1: World,
    r: Result<(), WorldError>,
    w2: World,
)
    requires
        w0.wf(),
        World::added(w0, ty, data, id, w1),
        World::removed(w1, id, r, w2),
    ensures
        w1.entities().dom().finite(),
        w1.entities().len() == w0.entities().len() + 1,
        r is Ok,
        w2.entities().len() == w0.entities().len(),
{
    w0.lemma_entities_finite();
    assert(w1.entities().dom() =~= w0.entities().dom().insert(id.raw()));
    assert(w1.entities().contains_key(id.raw()));
    assert(w2.entities().dom() =~= w0.entities().dom());
}

/// Adding a batch of `n` raises the entity count by `n`.
pub proof fn lemma_count_batch_add(
    before: World,
    ty: ExtractableType,
    datas: Seq<Vec<u8>>,
    r: Seq<EntityId>,
    after: World,
)
    requires
        before.wf(),
        before.next_id() + datas.len() <= u32::MAX,
        World::batch_added(before, ty, datas, r, after),
    ensures
        after.entities().dom().finite(),
        after.entities().len() == before.entities().len() + datas.len(),
{
    before.lemma_entities_finite();
    before.lemma_ids_below_next();
    let fresh = id_range(before.next_id(), datas.len());
    lemma_id_range_len(before.next_id(), datas.len());
    assert(after.entities().dom() =~= before.entities().dom() + fresh);
    assert(before.entities().dom().disjoint(fresh));
    vstd::set_lib::lemma_set_disjoint_lens(before.entities().dom(), fresh);
}

/// Removing a batch of ids, tracked or not, lowers the entity count by the
/// number of distinct ids of the batch that were live.
pub proof fn lemma_count_batch_remove(before: World, ids: Seq<EntityId>, after: World)
    requires
        before.wf(),
        after.entities() == before.entities().remove_keys(raw_ids(ids)),
    ensures
        after.entities().dom().finite(),
        after.entities().len() == before.entities().len() - before.entities().dom().intersect(
            raw_ids(ids),
        ).len(),
{
    before.lemma_entities_finite();
    let d = before.entities().dom();
    let hit = d.intersect(raw_ids(ids));
    vstd::set_lib::lemma_len_intersect(d, raw_ids(ids));
    assert(hit.finite()) by {
        vstd::set_lib::lemma_len_subset(hit, d);
    }
    assert(after.entities().dom() =~= d.difference(hit));
    vstd::set_lib::lemma_set_difference_len(d, hit);
    assert(d.intersect(hit) =~= hit);
}

/// A tracked batch removal removes exactly the ids it reports as removed:
/// they are the distinct ids of the batch that were live.
pub proof fn lemma_tracked_removal_succeeded(live: Set<u32>, ids: Seq<EntityId>)
    ensures
        removal_split(live, ids).0.no_duplicates(),
        raw_ids(removal_split(live, ids).0) == live.intersect(raw_ids(ids)),
        removal_split(live, ids).0.len() + removal_split(live, ids).1.len() == ids.len(),
    decreases ids.len(),
{
    if ids.len() > 0 {
        let prefix = ids.drop_last();
        let x = ids.last();
        lemma_tracked_removal_succeeded(live, prefix);
        let s = removal_split(live, prefix).0;
        assert(ids == prefix.push(x));
        lemma_raw_ids_push(prefix, x);
        if live.contains(x.raw()) && !prefix.contains(x) {
            lemma_raw_ids_push(s, x);
            assert(!s.contains(x)) by {
                if s.contains(x) {
                    let j = s.index_of(x);
                    assert(raw_ids(s).contains(s[j].raw()));
                    let i = choose|i: int| 0 <= i < prefix.len() && #[trigger] prefix[i].raw() == x.raw();
                    EntityId::lemma_raw_injective(prefix[i], x);
                }
            }
            assert(s.push(x).no_duplicates()) by {
                assert forall|a: int, b: int| 0 <= a < b < s.push(x).len() implies s.push(x)[a]
                    != s.push(x)[b] by {
                    if b == s.len() {
                        assert(s.push(x)[a] == s[a]);
                    }
                }
            }
            assert(raw_ids(s.push(x)) =~= live.intersect(raw_ids(ids)));
        } else {
            if live.contains(x.raw()) {
                let j = prefix.index_of(x);
                assert(raw_ids(prefix).contains(prefix[j].raw()));
            }
            assert(raw_ids(s) =~= live.intersect(raw_ids(ids)));
        }
    } else {
        assert(raw_ids(ids) =~= Set::empty());
        assert(raw_ids(removal_split(live, ids).0) =~= Set::empty());
    }
}

} // verus!
