//! Storage core of a version-control tool: a content-addressable object
//! store (header framing, SHA-256 digests, zlib compression) and a
//! file-indexing layer with override-aware ignore-pattern matching.

pub mod decimal;
pub mod digest;
pub mod errors;
pub mod index;
pub mod objects;
