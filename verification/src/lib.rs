//! Content-addressed items organised under a hierarchical tag taxonomy.

pub mod identity;
pub mod import;
pub mod item;
pub mod laws;
pub mod loader;
pub mod parse;
pub mod proto;
pub mod records;
pub mod shape;
pub mod shared_map;
pub mod tag;
pub mod tree;
pub mod volume;
