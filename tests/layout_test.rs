use structecs::{
    can_extract, concat_str, layout_fits, search_metadata, Acquirable, Archetype, EntityId,
    ExtractableType, ExtractionMetadata, Extractor,
};
use std::sync::Arc;

/// Layout of a record of type 10 holding a type-20 component at offset 16,
/// which in turn holds a type-30 component at offset 4.
fn deep_layout() -> Vec<ExtractionMetadata> {
    vec![
        ExtractionMetadata::new(10, 0),
        ExtractionMetadata::new_nested(
            20,
            16,
            vec![
                ExtractionMetadata::new(20, 0),
                ExtractionMetadata::new_nested(30, 4, vec![ExtractionMetadata::new(30, 0)]),
            ],
        ),
    ]
}

#[test]
fn flatten_adds_nested_offsets() {
    let table = ExtractionMetadata::flatten(&deep_layout());
    assert_eq!(table.len(), 3);
    assert_eq!(table.get(&10), Some(&0));
    assert_eq!(table.get(&20), Some(&16));
    assert_eq!(table.get(&30), Some(&20));
}

#[test]
fn flatten_later_entry_wins() {
    let table = ExtractionMetadata::flatten(&vec![
        ExtractionMetadata::new(1, 0),
        ExtractionMetadata::new(2, 8),
        ExtractionMetadata::new(2, 12),
    ]);
    assert_eq!(table.get(&2), Some(&12));
    assert!(ExtractionMetadata::flatten(&Vec::new()).is_empty());
}

#[test]
fn reachability_through_nesting() {
    let layout = deep_layout();
    assert!(ExtractionMetadata::is_has(&layout, 30));
    assert!(ExtractionMetadata::is_has(&layout, 10));
    assert!(!ExtractionMetadata::is_has(&layout, 40));
    assert!(layout[1].has_val(30));
    assert!(!layout[0].has_val(30));
    assert!(search_metadata(&layout, 20));
    assert!(!search_metadata(&layout, 99));
    assert_eq!(layout[1].type_id(), 20);
}

#[test]
fn can_extract_checks_containment() {
    let concrete = ExtractableType::new(10, deep_layout());
    assert!(can_extract(&concrete, 30));
    assert!(!can_extract(&concrete, 11));
}

#[test]
fn layout_offsets_must_fit() {
    let layout = deep_layout();
    assert!(layout_fits(&layout, 0));
    assert!(!layout_fits(&layout, usize::MAX - 10));
    let big = ExtractableType::new(1, vec![ExtractionMetadata::new(1, usize::MAX)]);
    assert!(big.is_valid());
    let over = ExtractableType::new(
        1,
        vec![ExtractionMetadata::new_nested(2, usize::MAX, vec![ExtractionMetadata::new(3, 1)])],
    );
    assert!(!over.is_valid());
}

#[test]
fn descriptor_lookup_and_type_list() {
    let e = Extractor::new_type(&ExtractableType::new(10, deep_layout()));
    assert_eq!(e.type_id(), 10);
    assert_eq!(e.offset(30), Some(20));
    assert_eq!(e.offset(31), None);
    let mut ids = e.type_ids();
    ids.sort();
    assert_eq!(ids, vec![10, 20, 30]);
}

#[test]
fn archetype_store_operations() {
    let ty = ExtractableType::new(10, deep_layout());
    let mut arch = Archetype::new(&ty);
    assert!(arch.is_empty());
    let k1 = EntityId::new(1);
    let k2 = EntityId::new(2);
    let h = arch.insert(k1, vec![7; 24]);
    assert_eq!(h.target_offset(), 0);
    arch.insert(k2, vec![8; 24]);
    assert_eq!(arch.len(), 2);
    assert!(arch.contains_key(k1));
    assert_eq!(arch.get(k2).unwrap().data(), &vec![8; 24]);

    let mut parts = arch.iter_component(30);
    parts.sort_by_key(|(id, _)| id.id());
    assert_eq!(parts.len(), 2);
    assert_eq!(parts[0].1.target_offset(), 20);
    assert!(arch.iter_component(99).is_empty());

    assert!(arch.add_additional(k1, 5, vec![1, 2]));
    assert!(!arch.add_additional(EntityId::new(3), 5, vec![1]));
    assert_eq!(arch.extract_additional(k1, 5), Some(vec![1, 2]));
    assert!(arch.has_additional(k1, 5));
    assert_eq!(arch.remove_additional(k1, 5), Some(vec![1, 2]));
    assert!(!arch.has_additional(k1, 5));

    let removed = arch.remove(k1).unwrap();
    assert_eq!(removed.data(), &vec![7; 24]);
    assert!(arch.remove(k1).is_none());
    arch.clear();
    assert_eq!(arch.len(), 0);
}

#[test]
fn standalone_handle_at_own_type() {
    let e = Arc::new(Extractor::new_type(&ExtractableType::new(10, deep_layout())));
    let h = Acquirable::new(vec![1, 2, 3], e);
    assert_eq!(h.component_type(), 10);
    assert_eq!(h.target_offset(), 0);
    assert_eq!(h.extract(20).unwrap().target_offset(), 16);
    assert_eq!(h.strong_count(), 1);
    let located = Acquirable::locate(h.entity_data().clone(), 30).unwrap();
    assert_eq!(located.target_offset(), 20);
    assert_eq!(h.strong_count(), 2);
}

#[test]
fn concat_str_joins_and_pads() {
    let r = concat_str("Player", "health", 16);
    assert_eq!(r, b"Player::health\0\0".to_vec());
    assert_eq!(concat_str("", "", 2), b"::".to_vec());
}

#[test]
fn entity_id_raw_round_trip() {
    assert_eq!(EntityId::from_raw(9999).id(), 9999);
    assert_eq!(EntityId::new(3), EntityId::from_raw(3));
}
