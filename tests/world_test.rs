use std::sync::Arc;
use structecs::{
    EntityId, ExtractableType, ExtractionMetadata, TypeKey, World, WorldError,
};

const PLAYER: TypeKey = 1;
const BUFF: TypeKey = 2;
const ENTITY: TypeKey = 3;
const NAMED: TypeKey = 4;
const MONSTER: TypeKey = 5;
const HEALTH: TypeKey = 6;
const SHIELD: TypeKey = 7;

fn player_type() -> ExtractableType {
    ExtractableType::new(PLAYER, vec![ExtractionMetadata::new(PLAYER, 0)])
}

fn entity_type() -> ExtractableType {
    ExtractableType::new(ENTITY, vec![ExtractionMetadata::new(ENTITY, 0)])
}

/// A named entity: 8 bytes of name, then an `ENTITY` component at offset 8.
fn named_type() -> ExtractableType {
    ExtractableType::new(
        NAMED,
        vec![
            ExtractionMetadata::new(NAMED, 0),
            ExtractionMetadata::new_nested(ENTITY, 8, entity_type().metadata),
        ],
    )
}

fn monster_type() -> ExtractableType {
    ExtractableType::new(MONSTER, vec![ExtractionMetadata::new(MONSTER, 0)])
}

/// A player record: health as 4 little-endian bytes, then the name.
fn player_bytes(name: &str, health: u32) -> Vec<u8> {
    let mut v = health.to_le_bytes().to_vec();
    v.extend_from_slice(name.as_bytes());
    v
}

fn health_of(bytes: &[u8]) -> u32 {
    u32::from_le_bytes([bytes[0], bytes[1], bytes[2], bytes[3]])
}

#[test]
fn hero_with_buff() {
    let mut world = World::new();
    let id = world.add_entity(&player_type(), player_bytes("Hero", 100));
    let player = world.extract_component(id, PLAYER).unwrap();
    assert_eq!(health_of(player.data()), 100);
    assert_eq!(&player.data()[4..], b"Hero");

    world.add_additional(id, BUFF, 10i32.to_le_bytes().to_vec()).unwrap();
    let buff = world.extract_additional(id, BUFF).unwrap();
    assert_eq!(i32::from_le_bytes([buff[0], buff[1], buff[2], buff[3]]), 10);

    let removed = world.remove_additional(id, BUFF).unwrap();
    assert_eq!(removed, 10i32.to_le_bytes().to_vec());
    assert!(!world.has_additional(id, BUFF));
}

#[test]
fn thousand_of_two_kinds() {
    let mut world = World::new();
    let mut a_ids = Vec::new();
    for i in 0..1000u32 {
        a_ids.push(world.add_entity(&player_type(), player_bytes("A", i)));
    }
    for i in 0..1000u32 {
        world.add_entity(&monster_type(), i.to_le_bytes().to_vec());
    }
    assert_eq!(world.query(PLAYER).len(), 1000);
    assert_eq!(world.query(MONSTER).len(), 1000);
    assert_eq!(world.archetype_count(), 2);
    assert_eq!(world.entity_count(), 2000);

    for id in a_ids.iter().take(500) {
        world.remove_entity(*id).unwrap();
    }
    assert_eq!(world.entity_count(), 1500);
    assert_eq!(world.query(PLAYER).len(), 500);
}

#[test]
fn added_value_reads_back_and_unreachable_type_fails() {
    let mut world = World::new();
    let data = vec![1, 2, 3, 4, 5, 6, 7, 8, 42, 0, 0, 0];
    let id = world.add_entity(&named_type(), data.clone());

    let whole = world.extract_component(id, NAMED).unwrap();
    assert_eq!(whole.data(), &data);
    assert_eq!(whole.target_offset(), 0);

    let inner = world.extract_component(id, ENTITY).unwrap();
    assert_eq!(inner.target_offset(), 8);
    assert_eq!(inner.data()[inner.target_offset()], 42);

    match world.extract_component(id, MONSTER) {
        Err(WorldError::ComponentNotFound { entity_id, component }) => {
            assert_eq!(entity_id, id);
            assert_eq!(component, MONSTER);
        }
        _ => panic!("expected ComponentNotFound"),
    }
}

#[test]
fn removed_entity_is_not_found() {
    let mut world = World::new();
    let id = world.add_entity(&player_type(), player_bytes("Gone", 1));
    assert_eq!(world.remove_entity(id), Ok(()));
    assert!(!world.contains_entity(id));
    match world.extract_component(id, PLAYER) {
        Err(e) => assert_eq!(e, WorldError::EntityNotFound(id)),
        Ok(_) => panic!("expected EntityNotFound"),
    }
    assert_eq!(world.remove_entity(id), Err(WorldError::EntityNotFound(id)));
}

#[test]
fn handles_keep_record_alive_after_removal() {
    let mut world = World::new();
    let id = world.add_entity(&player_type(), player_bytes("Kept", 7));
    let handle = world.extract_component(id, PLAYER).unwrap();
    assert_eq!(handle.strong_count(), 2);

    let clones: Vec<_> = (0..3).map(|_| handle.clone()).collect();
    assert_eq!(handle.strong_count(), 5);

    world.remove_entity(id).unwrap();
    assert_eq!(handle.strong_count(), 4);
    assert_eq!(health_of(clones[0].data()), 7);

    drop(clones);
    assert_eq!(handle.strong_count(), 1);
    assert_eq!(health_of(handle.data()), 7);
}

#[test]
fn many_producers_get_distinct_ids() {
    let mut world = World::new();
    let mut ids = Vec::new();
    for k in 0..4u32 {
        for m in 0..250u32 {
            ids.push(world.add_entity(&player_type(), player_bytes("P", k * 1000 + m)));
        }
    }
    assert_eq!(world.entity_count(), 1000);
    let mut raw: Vec<u32> = ids.iter().map(|i| i.id()).collect();
    raw.sort();
    raw.dedup();
    assert_eq!(raw.len(), 1000);
    for (n, id) in ids.iter().enumerate() {
        let k = n as u32 / 250;
        let m = n as u32 % 250;
        let h = world.extract_component(*id, PLAYER).unwrap();
        assert_eq!(health_of(h.data()), k * 1000 + m);
    }
}

#[test]
fn batch_add_empty_and_full() {
    let mut world = World::new();
    world.add_entity(&player_type(), player_bytes("x", 1));
    let none = world.add_entities(&monster_type(), Vec::new());
    assert!(none.is_empty());
    assert_eq!(world.entity_count(), 1);
    assert_eq!(world.archetype_count(), 1);

    let datas: Vec<Vec<u8>> = (0..5u8).map(|i| vec![i, i, i]).collect();
    let ids = world.add_entities(&monster_type(), datas.clone());
    assert_eq!(ids.len(), 5);
    let raw: Vec<u32> = ids.iter().map(|i| i.id()).collect();
    assert_eq!(raw, vec![1, 2, 3, 4, 5]);
    for (i, id) in ids.iter().enumerate() {
        let h = world.extract_component(*id, MONSTER).unwrap();
        assert_eq!(h.data(), &datas[i]);
    }
    assert_eq!(world.entity_count(), 6);
}

#[test]
fn second_additional_replaces_first() {
    let mut world = World::new();
    let id = world.add_entity(&player_type(), player_bytes("B", 3));
    world.add_additional(id, BUFF, vec![1]).unwrap();
    world.add_additional(id, BUFF, vec![2, 2]).unwrap();
    assert_eq!(world.extract_additional(id, BUFF), Ok(vec![2, 2]));
    assert_eq!(world.remove_additional(id, BUFF), Ok(vec![2, 2]));
    assert!(!world.has_additional(id, BUFF));
    assert_eq!(
        world.remove_additional(id, BUFF),
        Err(WorldError::AdditionalNotFound { entity_id: id, component: BUFF })
    );
}

#[test]
fn additional_on_unknown_entity() {
    let mut world = World::new();
    let ghost = EntityId::from_raw(77);
    assert_eq!(
        world.add_additional(ghost, BUFF, vec![1]),
        Err(WorldError::EntityNotFound(ghost))
    );
    assert_eq!(world.extract_additional(ghost, BUFF), Err(WorldError::EntityNotFound(ghost)));
    assert!(!world.has_additional(ghost, BUFF));
}

#[test]
fn extract_additional_missing_type() {
    let mut world = World::new();
    let id = world.add_entity(&player_type(), player_bytes("C", 3));
    assert_eq!(
        world.extract_additional(id, SHIELD),
        Err(WorldError::AdditionalNotFound { entity_id: id, component: SHIELD })
    );
}

#[test]
fn tracked_batch_removal_partition() {
    let mut world = World::new();
    let a = world.add_entity(&player_type(), player_bytes("a", 1));
    let b = world.add_entity(&monster_type(), vec![9]);
    let c = world.add_entity(&player_type(), player_bytes("c", 3));
    assert_eq!(world.try_remove_entities(&vec![a, c]), Ok(()));
    assert_eq!(world.entity_count(), 1);

    let unknown = EntityId::from_raw(9999);
    match world.try_remove_entities(&vec![b, unknown, b]) {
        Err(WorldError::PartialRemoval { succeeded, failed }) => {
            assert_eq!(succeeded, vec![b]);
            assert_eq!(failed, vec![unknown, b]);
        }
        _ => panic!("expected PartialRemoval"),
    }
    assert_eq!(world.entity_count(), 0);
}

#[test]
fn untracked_batch_removal_skips_unknown() {
    let mut world = World::new();
    let mut ids: Vec<EntityId> = (0..10u32)
        .map(|i| world.add_entity(&player_type(), player_bytes("p", i)))
        .collect();
    ids.push(EntityId::from_raw(9999));
    world.remove_entities(&ids);
    assert_eq!(world.entity_count(), 0);
}

#[test]
fn clear_keeps_id_counter() {
    let mut world = World::new();
    let first = world.add_entity(&player_type(), player_bytes("a", 1));
    world.add_entity(&monster_type(), vec![1]);
    world.clear();
    assert_eq!(world.entity_count(), 0);
    assert_eq!(world.archetype_count(), 0);
    assert!(world.query(PLAYER).is_empty());
    let next = world.add_entity(&player_type(), player_bytes("b", 2));
    assert_eq!(first.id(), 0);
    assert_eq!(next.id(), 2);
}

#[test]
fn query_reaches_nested_components_across_archetypes() {
    let mut world = World::new();
    let named = world.add_entity(&named_type(), vec![0; 12]);
    let plain = world.add_entity(&entity_type(), vec![5, 0, 0, 0]);
    world.add_entity(&player_type(), player_bytes("p", 1));

    let mut found = world.query(ENTITY);
    found.sort_by_key(|(id, _)| id.id());
    assert_eq!(found.len(), 2);
    assert_eq!(found[0].0, named);
    assert_eq!(found[0].1.target_offset(), 8);
    assert_eq!(found[1].0, plain);
    assert_eq!(found[1].1.target_offset(), 0);
    assert!(world.query(HEALTH).is_empty());
}

#[test]
fn query_with_probes_additionals() {
    let mut world = World::new();
    let p1 = world.add_entity(&player_type(), player_bytes("Alice", 100));
    let p2 = world.add_entity(&player_type(), player_bytes("Bob", 80));
    world.add_additional(p1, BUFF, vec![10]).unwrap();

    let mut rows = world.query_with(PLAYER, &vec![BUFF, SHIELD]);
    rows.sort_by_key(|(id, _, _)| id.id());
    assert_eq!(rows.len(), 2);
    assert_eq!(rows[0].0, p1);
    assert_eq!(rows[0].2, vec![Some(vec![10]), None]);
    assert_eq!(rows[1].0, p2);
    assert_eq!(rows[1].2, vec![None, None]);
}

#[test]
fn handle_extracts_sibling_components() {
    let mut world = World::new();
    let id = world.add_entity(&named_type(), vec![0; 12]);
    let whole = world.extract_component(id, NAMED).unwrap();
    let inner = whole.extract(ENTITY).unwrap();
    assert_eq!(inner.target_offset(), 8);
    assert_eq!(inner.component_type(), ENTITY);
    assert!(inner.ptr_eq(&whole));
    let back = inner.extract(NAMED).unwrap();
    assert_eq!(back.target_offset(), 0);
    assert!(inner.extract(MONSTER).is_none());
}

#[test]
fn ptr_eq_compares_records_not_contents() {
    let mut world = World::new();
    let a = world.add_entity(&player_type(), player_bytes("same", 1));
    let b = world.add_entity(&player_type(), player_bytes("same", 1));
    let ha = world.extract_component(a, PLAYER).unwrap();
    let ha2 = world.extract_component(a, PLAYER).unwrap();
    let hb = world.extract_component(b, PLAYER).unwrap();
    assert!(ha.ptr_eq(&ha2));
    assert!(!ha.ptr_eq(&hb));
}

#[test]
fn ids_never_reused_after_removal() {
    let mut world = World::new();
    let a = world.add_entity(&player_type(), player_bytes("a", 1));
    world.remove_entity(a).unwrap();
    let b = world.add_entity(&player_type(), player_bytes("b", 2));
    assert_ne!(a, b);
    assert_eq!(b.id(), 1);
}

#[test]
fn add_with_handle_returns_own_type_handle() {
    let mut world = World::new();
    let (id, handle) = world.add_entity_with_acquirable(&named_type(), vec![3; 12]);
    assert_eq!(id.id(), 0);
    assert_eq!(handle.component_type(), NAMED);
    assert_eq!(handle.target_offset(), 0);
    assert_eq!(handle.data(), &vec![3; 12]);
    assert_eq!(handle.weak_count(), 0);
    assert_eq!(world.next_entity_id(), 1);
    let again = world.extract_component(id, NAMED).unwrap();
    assert!(again.ptr_eq(&handle));
}

#[test]
fn record_destroyed_once_after_removal_and_release_in_either_order() {
    let mut world = World::new();
    let a = world.add_entity(&player_type(), player_bytes("a", 1));
    let b = world.add_entity(&player_type(), player_bytes("b", 2));

    // Removal first, then the handles go.
    let ha = world.extract_component(a, PLAYER).unwrap();
    let weak_a = Arc::downgrade(ha.entity_data());
    let clones_a: Vec<_> = (0..4).map(|_| ha.clone()).collect();
    world.remove_entity(a).unwrap();
    assert!(weak_a.upgrade().is_some());
    drop(clones_a);
    assert!(weak_a.upgrade().is_some());
    drop(ha);
    assert!(weak_a.upgrade().is_none());

    // Handles go first, then the removal.
    let hb = world.extract_component(b, PLAYER).unwrap();
    let weak_b = Arc::downgrade(hb.entity_data());
    let clones_b: Vec<_> = (0..4).map(|_| hb.clone()).collect();
    drop(clones_b);
    drop(hb);
    assert!(weak_b.upgrade().is_some());
    world.remove_entity(b).unwrap();
    assert!(weak_b.upgrade().is_none());
}

#[test]
fn batch_removal_counts_distinct_live_ids() {
    let mut world = World::new();
    let ids: Vec<EntityId> = (0..6u32)
        .map(|i| world.add_entity(&player_type(), player_bytes("p", i)))
        .collect();
    let unknown = EntityId::from_raw(500);
    world.remove_entities(&vec![ids[0], ids[0], unknown, ids[1]]);
    assert_eq!(world.entity_count(), 4);
    match world.try_remove_entities(&vec![ids[2], ids[2], ids[0], ids[3]]) {
        Err(WorldError::PartialRemoval { succeeded, failed }) => {
            assert_eq!(succeeded, vec![ids[2], ids[3]]);
            assert_eq!(failed, vec![ids[2], ids[0]]);
        }
        _ => panic!("expected PartialRemoval"),
    }
    assert_eq!(world.entity_count(), 2);
}
