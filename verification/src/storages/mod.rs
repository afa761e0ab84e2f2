pub mod sparse_typed_paged_map;
pub mod typed_index_map;
pub mod group_sets;
pub mod query_links;
