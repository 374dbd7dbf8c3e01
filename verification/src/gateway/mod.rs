//! What the gateway asks of the agent, and what it is answered.

pub mod config;
pub mod intent_laws;
pub mod intents;
pub mod memory;
pub mod memory_laws;
pub mod plans;
pub mod replies;
pub mod reply_laws;
