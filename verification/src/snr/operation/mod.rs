//! Operations of the script format and their elements.
pub mod arena;
pub mod opcode;
pub mod parse;
pub mod repr;
pub mod schema;
pub mod serialize;
