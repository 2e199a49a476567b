//! Builder core of a FlatBuffers-style binary serializer: a single-pass,
//! append-only encoder that lays out tables, vectors, strings and scalars in
//! a back-filled byte buffer, so that a reader can dereference the finished
//! bytes in place.

pub mod builder;
pub mod endian;
pub mod laws;
pub mod primitives;
pub mod push;
pub mod vtable;

pub use builder::FlatBufferBuilder;
