//! The script (SNR) format: reading, writing and rewriting its operations.
pub mod reactor;
pub mod reader;
pub mod text;
pub mod writer;
pub mod operation;
pub mod layout;
pub mod location_painter;
