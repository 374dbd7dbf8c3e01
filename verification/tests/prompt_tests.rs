use acowork_runtime::agent::compaction::{compaction_request, compaction_summary};
use acowork_runtime::error::RuntimeError;
use acowork_runtime::message::MessageRole;
use acowork_runtime::prompt::{build_compaction_system_prompt, COMPACTION_SYSTEM_PROMPT};

#[test]
fn build_compaction_system_prompt_none_identity_returns_base_unchanged() {
    let base = "You are a summarizer.";
    assert_eq!(build_compaction_system_prompt(base, None), base);
}

#[test]
fn build_compaction_system_prompt_empty_identity_returns_base_unchanged() {
    let base = "You are a summarizer.";
    assert_eq!(build_compaction_system_prompt(base, Some("")), base);
}

#[test]
fn build_compaction_system_prompt_whitespace_identity_returns_base_unchanged() {
    let base = "You are a summarizer.";
    assert_eq!(build_compaction_system_prompt(base, Some("   \n\t  ")), base);
}

#[test]
fn build_compaction_system_prompt_with_identity_includes_directive_and_context() {
    let base = "You are a summarizer.";
    let identity = "- Display Name: Alice\n- Language: zh-CN\n- Timezone: Asia/Shanghai";
    let out = build_compaction_system_prompt(base, Some(identity));
    assert!(out.starts_with(base), "base must be preserved at the start");
    assert!(out.contains(identity), "identity text must be embedded verbatim");
    assert!(out.contains("User identity context"), "must label the identity block");
    assert!(out.contains("Language field"), "must point the LLM at the Language field");
    assert!(out.contains("preferred language"), "must include a language directive");
}

#[test]
fn build_compaction_system_prompt_trims_surrounding_whitespace() {
    let base = "base";
    let out = build_compaction_system_prompt(base, Some("  - Language: en-US  \n"));
    assert!(out.contains("- Language: en-US"));
}

const CONVERSATION: &str = "User: 你好\nAssistant: 你好！有什么可以帮你的吗？";

#[test]
fn compact_via_llm_without_identity_keeps_system_prompt_unchanged() {
    let req = compaction_request(CONVERSATION, "compact-model", COMPACTION_SYSTEM_PROMPT, None)
        .unwrap();
    assert!(compaction_summary("<summary>hello</summary>").is_ok());
    assert_eq!(req.messages.len(), 2);
    assert_eq!(req.messages[0].role, MessageRole::System);
    assert_eq!(
        req.messages[0].content, COMPACTION_SYSTEM_PROMPT,
        "with identity=None, system prompt must be the base prompt unchanged"
    );
    assert!(req.messages[1].content.contains("<summary>"));
}

#[test]
fn compact_via_llm_with_identity_embeds_language_directive_into_system() {
    let identity =
        "- Display Name: 大鱼\n- Language: zh-CN\n- Timezone: Asia/Shanghai\n- City: 上海";
    let req = compaction_request(
        CONVERSATION,
        "compact-model",
        COMPACTION_SYSTEM_PROMPT,
        Some(identity),
    )
    .unwrap();
    assert!(compaction_summary("<summary>summary text</summary>").is_ok());
    assert_eq!(req.messages.len(), 2);
    let system = &req.messages[0].content;
    assert_eq!(
        system[0..COMPACTION_SYSTEM_PROMPT.len()].to_string(),
        COMPACTION_SYSTEM_PROMPT,
        "system prompt must start with the original base prompt"
    );
    assert!(system.contains(identity), "identity text must be embedded verbatim");
    assert!(system.contains("Language"), "language directive must be present");
    assert!(system.contains("preferred language"), "language directive must be present");
    assert!(req.messages[1]
        .content
        .contains("You are a conversation summarization assistant"));
    assert!(
        !req.messages[0]
            .content
            .contains("You are a conversation summarization assistant"),
        "the inner COMPACT_PROMPT instructions must remain in the user message"
    );
}

#[test]
fn compact_via_llm_with_empty_identity_keeps_system_prompt_unchanged() {
    let req = compaction_request(
        CONVERSATION,
        "compact-model",
        COMPACTION_SYSTEM_PROMPT,
        Some("   \n\t  "),
    )
    .unwrap();
    assert!(compaction_summary("ok").is_ok());
    assert_eq!(
        req.messages[0].content, COMPACTION_SYSTEM_PROMPT,
        "whitespace-only identity must not append the directive"
    );
}

#[test]
fn compaction_request_carries_the_conversation_and_the_limits() {
    let req = compaction_request(CONVERSATION, "m", "base", None).unwrap();
    assert_eq!(req.model, "m");
    assert!(req.messages[1].content.contains(CONVERSATION));
    assert!(!req.messages[1].content.contains("{messages_text}"));
    assert_eq!(req.max_tokens, Some(2048));
    assert_eq!(req.temperature.unwrap().literal, "0.3");
    assert!(req.tools.is_none());
}

#[test]
fn compaction_of_nothing_is_an_error() {
    assert_eq!(
        compaction_request("", "m", "base", None).err(),
        Some(RuntimeError::Tool("Cannot compact empty history".to_string()))
    );
    assert_eq!(
        compaction_summary("  \n").err(),
        Some(RuntimeError::Tool("Compact model returned empty response".to_string()))
    );
    assert_eq!(compaction_summary("  short  "), Ok("short".to_string()));
}
