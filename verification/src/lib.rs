//! A compact, hierarchical geospatial cell index.
//!
//! A cell index is a single 64-bit word packing a resolution (subdivision
//! depth 0..=15), a base cell (one of 122 root cells tiling the sphere, 12 of
//! which are pentagons) and one 3-bit child-selection digit per resolution
//! level. This crate provides the bit-level codec for that word, the
//! hierarchy operations built on it (parent and common-ancestor lookup,
//! randomized generation) and a fixed 8-byte big-endian wire codec for
//! storing an index in a remote key-value cache.

pub mod bitfield;
pub mod cache;
pub mod cell;
pub mod errors;

pub use bitfield::{get_field, set_field};
pub use cache::{decode, decode_hex, encode, encode_hex};
pub use cell::H3Cell;
pub use errors::{CellError, TryFromError};
