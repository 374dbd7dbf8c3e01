//! The compaction of a history: what the model is asked, and what is made of its
//! reply.

use crate::error::RuntimeError;
use crate::json::JsonNumber;
use crate::message::{ChatMessage, MessageRole};
use crate::message;
use crate::prompt;
use crate::providers::types::ChatRequest;
use crate::text;
use vstd::prelude::*;

verus! {

/// How freely the model writes a summary.
pub const COMPACTION_TEMPERATURE: &'static str = "0.3";

/// How long a summary may be.
pub const COMPACTION_MAX_TOKENS: u32 = 2048;

/// What stands for the conversation in the prompt.
pub const MESSAGES_PLACE: &'static str = "{messages_text}";

/// The request for a summary of the conversation `messages_text`. An empty
/// conversation cannot be summarized.
pub fn compaction_request(
    messages_text: &str,
    model_name: &str,
    system_prompt: &str,
    identity_context: Option<&str>,
) -> (r: Result<ChatRequest, RuntimeError>)
    ensures
        if messages_text@.len() == 0 {
            r matches Err(RuntimeError::Tool(e)) && e@ == "Cannot compact empty history"@
        } else {
            r matches Ok(q) && q.model@ == model_name@ && message::message_views(q.messages@)
                == seq![
                message::plain_message(
                    MessageRole::System,
                    prompt::compaction_system_prompt(
                        system_prompt@,
                        match identity_context {
                            Some(c) => Some(c@),
                            None => None,
                        },
                    ),
                ),
                message::plain_message(
                    MessageRole::User,
                    text::replaced(prompt::COMPACT_PROMPT@, MESSAGES_PLACE@, messages_text@),
                ),
            ] && (q.temperature matches Some(t) && t.unsigned is None && t.literal@
                == COMPACTION_TEMPERATURE@) && q.max_tokens == Some(COMPACTION_MAX_TOKENS)
                && q.tools is None && q.reasoning_effort is None
        },
{
    if messages_text.is_empty() {
        return Err(RuntimeError::Tool("Cannot compact empty history".to_string()));
    }
    let system: String = prompt::build_compaction_system_prompt(system_prompt, identity_context);
    proof {
        reveal_strlit("{messages_text}");
    }
    let asked: String = text::replace_all(prompt::COMPACT_PROMPT, MESSAGES_PLACE, messages_text);
    let mut messages: Vec<ChatMessage> = Vec::new();
    messages.push(ChatMessage::of_role(MessageRole::System, system));
    messages.push(ChatMessage::user(asked));
    proof {
        assert(message::message_views(messages@) =~= seq![messages@[0]@, messages@[1]@]);
    }
    Ok(
        ChatRequest {
            model: model_name.to_string(),
            messages,
            temperature: Some(
                JsonNumber { unsigned: None, literal: COMPACTION_TEMPERATURE.to_string() },
            ),
            max_tokens: Some(COMPACTION_MAX_TOKENS),
            tools: None,
            reasoning_effort: None,
        },
    )
}

/// The summary that a model replied with, without white space at either end. One
/// with nothing in it is an error.
pub fn compaction_summary(reply: &str) -> (r: Result<String, RuntimeError>)
    ensures
        if text::trimmed(reply@).len() == 0 {
            r matches Err(RuntimeError::Tool(e)) && e@ == "Compact model returned empty response"@
        } else {
            r matches Ok(s) && s@ == text::trimmed(reply@)
        },
{
    let summary: String = text::trim(reply);
    if summary.as_str().is_empty() {
        Err(RuntimeError::Tool("Compact model returned empty response".to_string()))
    } else {
        Ok(summary)
    }
}

} // verus!
