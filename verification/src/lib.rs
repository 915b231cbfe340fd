//! A spatially sharded database: the geometry of shard regions, the master
//! node's lookup table, a point quad tree, the zone node's key-value store and
//! command protocol, and the record shards used to compare lookup strategies.
use vstd::prelude::*;

pub mod geometry;
pub mod lookup;
pub mod quad_tree;
pub mod metadata;
pub mod text;
pub mod json;
pub mod store;
pub mod handle;
pub mod dash;
pub mod shared;
pub mod lookup_spatial;
pub mod lookup_traditional;
pub mod certificate;
pub mod config;
pub mod operations;
pub mod context;
pub mod network;
pub mod command;

verus! {

} // verus!
