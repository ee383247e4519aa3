//! Message text: its markup and its layout.
pub mod layout_dump;
pub mod layouter;
pub mod message_parser;
