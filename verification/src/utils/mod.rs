pub mod secondary_entity_index;
