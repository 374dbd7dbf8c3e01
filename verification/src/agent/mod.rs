//! What an agent session remembers and how it runs.

pub mod agent_core;
pub mod compaction;
pub mod core_laws;
pub mod history;
pub mod history_laws;
pub mod sanitize;
pub mod sanitize_laws;
pub mod session;
pub mod session_core;
pub mod session_state;
pub mod streaming;
pub mod trim_laws;
