//! Agent runtime: the rules by which an agent session keeps its history,
//! persists and replays a conversation, talks to a language model and is
//! steered by the gateway.

pub mod agent;
pub mod bytes;
pub mod cli;
pub mod conversation;
pub mod error;
pub mod gateway;
pub mod ids;
pub mod json;
pub mod list;
pub mod message;
pub mod paths;
pub mod prompt;
pub mod providers;
pub mod start_laws;
pub mod text;
pub mod text_laws;
pub mod view_laws;
