//! A store for records of many concrete types ("entities"), each made of
//! nested components. Every type has a layout, flattened once into a table
//! from component type to byte offset; a handle shares ownership of a record
//! while narrowing it to one component, and can be re-narrowed to any other
//! component the record offers. Records of one type live together in an
//! archetype; the world routes every operation to the right archetype and
//! keeps an index from component type to the archetypes that offer it.

mod acquirable;
mod archetype;
mod entity;
mod error;
mod extractable;
mod extractor;
mod handler;
mod laws;
mod naming;
mod table;
mod world;

pub use acquirable::{Acquirable, EntityData};
pub use archetype::Archetype;
pub use entity::EntityId;
pub use error::WorldError;
pub use extractable::{layout_fits, Extractable, ExtractableType, ExtractionMetadata, TypeKey};
pub use extractor::Extractor;
pub use handler::{can_extract, search_metadata};
pub use laws::{
    id_range, lemma_add_then_extract, lemma_batch_ids, lemma_count_add_remove,
    lemma_count_batch_add, lemma_count_batch_remove, lemma_id_range_len, lemma_ids_distinct,
    lemma_remove_then_not_found, lemma_replace_then_detach, lemma_tracked_removal_succeeded,
};
pub use naming::concat_str;
pub use world::{listed, raw_ids, removal_split, with_kind, EntityView, World};
