//! Model providers.

pub mod failures;
pub mod openai;
pub mod plan;
pub mod provider_laws;
pub mod reliable;
pub mod reliable_laws;
pub mod request;
pub mod request_laws;
pub mod sse;
pub mod sse_laws;
pub mod stream;
pub mod stream_laws;
pub mod think_tag;
pub mod types;
