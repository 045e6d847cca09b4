//! An approximate least-recently-used cache built from two hash-map
//! generations.
//!
//! New entries go to the current generation. When it is full, the cache flips:
//! that generation becomes the previous one, whose old entries are dropped, and
//! an empty map takes its place. A read that finds its key only in the previous
//! generation moves the entry to the current one.

pub mod cache;
pub mod generations;
pub mod laws;
pub mod model;
mod table;

pub use cache::LruCache;
pub use model::{Access, CacheState};
