//! Selective mirror engine for a small backup tool.
//!
//! The library computes everything the tool decides: how a configuration
//! value is split into tokens, which file extensions are excluded, how a
//! source path is remapped under the destination root, which entries a
//! clean pass removes, and the full ordered plan of a mirror run. All
//! filesystem reads and writes are left to the surrounding program, which
//! feeds plain values in and carries the computed plans out.

pub mod text;
pub mod paths;
pub mod matcher;
pub mod tokens;
pub mod mapper;
pub mod cleaner;
pub mod engine;
pub mod laws;
