pub mod database;
pub mod entity;
pub mod registry;
pub mod storages;
pub mod tables;
pub mod utils;
