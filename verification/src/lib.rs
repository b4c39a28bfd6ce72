//! Type-erased component storage for an entity/component runtime: byte
//! buffers, columnar tables, sparse sets, resources and storage partitions.

pub mod component;
pub mod blob_vec;
pub mod two_mut;
pub mod sparse_set;
pub mod table;
pub mod resource;
pub mod prepared;
pub mod storages;
pub mod registry;
pub mod sub_storage;
pub mod sub_world;
