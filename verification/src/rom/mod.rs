//! The archive (ROM) format: its header, its index entries and the layout of a new archive.
pub mod allocate;
pub mod create;
pub mod extract;
pub mod header;
pub mod index;
pub mod read_back;
pub mod progress;
pub mod write;
