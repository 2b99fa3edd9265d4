//! Decoders for two asset formats of a classic open-world game: the textual
//! placement list (where models are instanced in the world) and the binary,
//! chunk-structured model container (meshes, materials, texture names).
//!
//! Everything here is a pure transform from an already loaded buffer to a
//! value; no I/O is performed.

pub mod bytes;
pub mod chunk;
mod error;
pub mod ipl;
pub mod model;
pub mod naming;
pub mod sections;
pub mod text;
pub mod triangle;

pub use error::AssetError;
