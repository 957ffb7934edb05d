//! Reading, editing and writing PNG files at the level of their chunks:
//! length-prefixed, type-tagged, checksummed records behind a fixed signature.

pub mod args;
pub mod checksum;
pub mod chunk;
pub mod chunk_type;
pub mod commands;
pub mod error;
pub mod png;
pub mod text;
