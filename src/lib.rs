//! Sparse embedding value store: entries that hold trainable weights followed by
//! optimizer state, their binary record format, a scoped full-precision view over
//! compactly stored entries, and a capacity-bounded self-keyed store.
//!
//! Buffer elements are carried as IEEE-754 bit patterns: `u32` for single
//! precision and `u16` for half precision.
pub mod array_entry;
pub mod entry;
pub mod eviction_map;
pub mod precision;
pub mod record;
