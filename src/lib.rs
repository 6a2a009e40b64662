//! Decoder for a section-based bytecode container: an 8-byte header followed by
//! tagged, length-prefixed sections, rebuilt into signatures, functions and exports.

pub mod bytecode;
pub mod error;
pub mod module;
pub mod section;
