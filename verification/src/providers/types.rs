//! What is asked of a model provider, and what it answers.

use crate::json::{Json, JsonNumber};
use crate::json;
use crate::message::{ChatMessage, ToolCall};
use crate::message;
use crate::text;
use vstd::prelude::*;

verus! {

/// How much a model is to think.
#[derive(Clone, Copy, Debug, PartialEq, Eq, Structural)]
pub enum ReasoningEffort {
    Auto,
    Off,
    Low,
    Medium,
    High,
    Max,
}

/// The name of a reasoning effort.
pub open spec fn effort_text(effort: ReasoningEffort) -> Seq<char> {
    match effort {
        ReasoningEffort::Auto => "auto"@,
        ReasoningEffort::Off => "off"@,
        ReasoningEffort::Low => "low"@,
        ReasoningEffort::Medium => "medium"@,
        ReasoningEffort::High => "high"@,
        ReasoningEffort::Max => "max"@,
    }
}

impl ReasoningEffort {
    /// The name of the reasoning effort.
    pub fn name(&self) -> (r: &'static str)
        ensures
            r@ == effort_text(*self),
    {
        match self {
            ReasoningEffort::Auto => "auto",
            ReasoningEffort::Off => "off",
            ReasoningEffort::Low => "low",
            ReasoningEffort::Medium => "medium",
            ReasoningEffort::High => "high",
            ReasoningEffort::Max => "max",
        }
    }
}

/// A request to a model. The temperature is a JSON number, a tool a JSON
/// object.
#[derive(Debug, PartialEq, Eq)]
pub struct ChatRequest {
    pub model: String,
    pub messages: Vec<ChatMessage>,
    pub temperature: Option<JsonNumber>,
    pub max_tokens: Option<u32>,
    pub tools: Option<Vec<Json>>,
    pub reasoning_effort: Option<ReasoningEffort>,
}

/// The tokens that a request took.
#[derive(Clone, Copy, Debug, PartialEq, Eq, Structural)]
pub struct UsageInfo {
    pub prompt_tokens: u64,
    pub completion_tokens: u64,
    pub total_tokens: u64,
    pub cache_read_tokens: u64,
    pub cache_write_tokens: u64,
    pub reasoning_tokens: u64,
}

/// The reply of a model.
#[derive(Debug, PartialEq, Eq)]
pub struct ChatResponse {
    pub content: String,
    pub reasoning_content: Option<String>,
    pub tool_calls: Option<Vec<ToolCall>>,
    pub usage: Option<UsageInfo>,
    pub finish_reason: Option<String>,
}

/// What a reply holds.
pub struct ResponseView {
    pub content: Seq<char>,
    pub reasoning_content: Option<Seq<char>>,
    pub tool_calls: Option<Seq<message::ToolCallView>>,
    pub usage: Option<UsageInfo>,
    pub finish_reason: Option<Seq<char>>,
}

impl View for ChatResponse {
    type V = ResponseView;

    open spec fn view(&self) -> ResponseView {
        ResponseView {
            content: self.content@,
            reasoning_content: text::opt_text(self.reasoning_content),
            tool_calls: message::opt_calls(self.tool_calls),
            usage: self.usage,
            finish_reason: text::opt_text(self.finish_reason),
        }
    }
}

/// Why a stream broke off.
#[derive(Debug, PartialEq, Eq)]
pub enum StreamError {
    /// Nothing came for so many seconds.
    Silence(u64),
    /// The connection failed.
    Transport(String),
}

/// An event of a streamed reply.
#[derive(Debug, PartialEq, Eq)]
pub enum StreamEvent {
    Content(String),
    ReasoningContent(String),
    ToolCallStart(ToolCall),
    ToolCallChunk { index: u64, arguments: String },
    Finished(ChatResponse),
    Error(StreamError),
}

/// What an event holds.
pub enum StreamEventView {
    Content(Seq<char>),
    ReasoningContent(Seq<char>),
    ToolCallStart(message::ToolCallView),
    ToolCallChunk(u64, Seq<char>),
    Finished(ResponseView),
    Silence(u64),
    Transport(Seq<char>),
}

impl View for StreamEvent {
    type V = StreamEventView;

    open spec fn view(&self) -> StreamEventView {
        match *self {
            StreamEvent::Content(s) => StreamEventView::Content(s@),
            StreamEvent::ReasoningContent(s) => StreamEventView::ReasoningContent(s@),
            StreamEvent::ToolCallStart(c) => StreamEventView::ToolCallStart(c@),
            StreamEvent::ToolCallChunk { index, arguments } => StreamEventView::ToolCallChunk(
                index,
                arguments@,
            ),
            StreamEvent::Finished(r) => StreamEventView::Finished(r@),
            StreamEvent::Error(StreamError::Silence(n)) => StreamEventView::Silence(n),
            StreamEvent::Error(StreamError::Transport(s)) => StreamEventView::Transport(s@),
        }
    }
}

/// What each event of a sequence holds.
pub open spec fn event_views(events: Seq<StreamEvent>) -> Seq<StreamEventView> {
    events.map_values(|e: StreamEvent| e@)
}

/// The view of a sequence that one event is added to.
pub proof fn lemma_event_push(events: Seq<StreamEvent>, e: StreamEvent)
    ensures
        event_views(events.push(e)) == event_views(events).push(e@),
{
    assert(event_views(events.push(e)) =~= event_views(events).push(e@));
}

} // verus!
