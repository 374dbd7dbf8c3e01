//! Sessions and their JSONL conversation files.

pub mod entry;
pub mod file_laws;
pub mod groups;
pub mod listing;
pub mod metadata;
pub mod pages;
pub mod reading_laws;
pub mod session;
pub mod since;
pub mod tail;
pub mod writer;
