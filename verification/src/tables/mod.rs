pub mod dense_entity_dynamic_paged_multi_value_table;
pub mod dense_entity_value_table;
pub mod entity_table;
pub mod vec_entity_value_table;
