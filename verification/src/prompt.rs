//! The prompts of the runtime.

use crate::text;
use vstd::prelude::*;
use vstd::string::*;

verus! {

/// System prompt of an agent whose package holds no prompt files.
pub const PROMPT_BUILDER_FALLBACK: &'static str = "You are a helpful AI assistant.";

/// System prompt for context compaction by a language model. It stands in for
/// the agent's own, so that the model summarizes and uses no tools.
pub const COMPACTION_SYSTEM_PROMPT: &'static str =
    "You are an AI assistant that summarizes conversations.";

/// System prompt for the Perplexity (Sonar) web search.
pub const SEARCH_SYSTEM_PROMPT: &'static str =
    "You are a web search assistant. Search the web and return results with citations. Be concise.";

/// Prompt for context compaction and episode distillation: a plain-text
/// summary, followed by entities and triples. `{messages_text}` stands for the
/// conversation.
pub const COMPACT_PROMPT: &'static str = r#"You are a conversation summarization assistant. Your task is to produce a comprehensive natural-language summary of the conversation below, then extract key entities and knowledge triples.

Instructions:
- Write a concise but complete summary covering all key topics discussed, decisions made, problems solved, and code written.
- Include technical details that would be needed to resume work later.
- Preserve the chronological flow of the conversation.
- After the summary, append entity and triple sections using the exact format below.

Output format (plain text):
<summary>
Your natural-language summary text goes here...
</summary>
<entities>
Entity1, Entity2, Entity3
</entities>
<triples>
subject | predicate | object
subject | predicate | object
</triples>

Entities: core people, places, technologies, projects, or concepts that persist across the conversation (max 10, comma-separated).
Triples: factual knowledge expressed as subject|predicate|object. One per line. Only extract explicit facts — do not invent or speculate.

Conversation:
{messages_text}

Output:"#;

/// The system prompt for compaction: `base`, and where the identity of the
/// user is known, that identity and the directive to write in their language.
pub open spec fn compaction_system_prompt(
    base: Seq<char>,
    identity_context: Option<Seq<char>>,
) -> Seq<char> {
    match identity_context {
        Some(ctx) if text::trimmed(ctx).len() > 0 => base
            + "\n\nUser identity context (use the Language field to determine what language to write the summary in):\n"@
            + text::trimmed(ctx)
            + "\n\nWrite the summary, entities list, and knowledge triples in the user's preferred language as indicated above."@,
        _ => base,
    }
}

/// The system prompt for compaction, see `compaction_system_prompt`.
pub fn build_compaction_system_prompt(base: &str, identity_context: Option<&str>) -> (r: String)
    ensures
        r@ == compaction_system_prompt(
            base@,
            match identity_context {
                Some(ctx) => Some(ctx@),
                None => None,
            },
        ),
{
    let mut out: String = base.to_string();
    if let Some(raw) = identity_context {
        let ctx: String = text::trim(raw);
        if !ctx.as_str().is_empty() {
            out.append(
                "\n\nUser identity context (use the Language field to determine what language to write the summary in):\n",
            );
            out.append(ctx.as_str());
            out.append(
                "\n\nWrite the summary, entities list, and knowledge triples in the user's preferred language as indicated above.",
            );
        }
    }
    out
}

} // verus!
