//! What a session does between one message and the next.

pub mod attachments;
pub mod messages;
pub mod restorer;
pub mod restorer_laws;
pub mod session_task;
pub mod task_laws;
