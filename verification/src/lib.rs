//! A PNG container engine: chunk type codes, checksummed chunks, and the
//! container that holds them, each with a machine-checked contract.

pub mod error;
pub mod bytes;
pub mod checksum;
pub mod text;
pub mod chunk_type;
pub mod chunk;
pub mod png;
