use acowork_runtime::agent::history::HistoryManager;
use acowork_runtime::message::{ChatMessage, FunctionCall, MessageRole, ToolCall};

fn make_message(role: MessageRole, content: &str) -> ChatMessage {
    ChatMessage::of_role(role, content.to_string())
}

fn tokens(m: &ChatMessage) -> u64 {
    (m.content.len() as u64) / 4 + 4
}

fn counts(hm: &HistoryManager) -> Vec<u64> {
    hm.messages().iter().map(tokens).collect()
}

fn push(hm: &mut HistoryManager, m: ChatMessage) {
    let t = tokens(&m);
    hm.append(m, t);
}

#[test]
fn test_append_and_count() {
    let mut hm = HistoryManager::new(1000);
    push(&mut hm, make_message(MessageRole::User, "Hello world"));
    assert_eq!(hm.len(), 1);
    assert!(hm.token_count() > 0);
}

#[test]
fn test_fifo_trim() {
    let mut hm = HistoryManager::new(50);
    push(&mut hm, make_message(MessageRole::System, "System prompt"));
    for i in 0..10 {
        push(
            &mut hm,
            make_message(
                MessageRole::User,
                &format!("Message {i} with some content to fill tokens"),
            ),
        );
    }
    let c = counts(&hm);
    let removed = hm.trim_fifo(&c);
    assert!(removed > 0);
    assert!(hm
        .messages()
        .iter()
        .any(|m| matches!(m.role, MessageRole::System)));
}

#[test]
fn test_emergency_trim() {
    let mut hm = HistoryManager::new(10000);
    push(&mut hm, make_message(MessageRole::System, "System"));
    for i in 0..10 {
        push(&mut hm, make_message(MessageRole::User, &format!("Msg {i}")));
    }
    let c = counts(&hm);
    let removed = hm.emergency_trim(&c);
    assert_eq!(removed, 6);
    assert_eq!(hm.len(), 5);
}

fn marker(content: &str) -> ChatMessage {
    let mut m = ChatMessage::assistant(content.to_string());
    m.name = Some("compaction_summary".to_string());
    m
}

#[test]
fn test_emergency_trim_protects_compaction_markers() {
    let mut hm = HistoryManager::new(10000);
    push(&mut hm, make_message(MessageRole::System, "System"));
    push(&mut hm, marker("Compaction summary"));
    for i in 0..10 {
        push(&mut hm, make_message(MessageRole::User, &format!("Msg {i}")));
    }
    let c = counts(&hm);
    let removed = hm.emergency_trim(&c);
    assert_eq!(removed, 6);
    let has_marker = hm
        .messages()
        .iter()
        .any(|m| m.name.as_deref() == Some("compaction_summary"));
    assert!(has_marker, "Compaction marker should survive emergency trim");
}

#[test]
fn test_fit_to_budget_lossless_drops_oldest_rounds() {
    let mut hm = HistoryManager::new(100);
    push(&mut hm, make_message(MessageRole::System, "Sys"));
    for i in 0..5 {
        push(
            &mut hm,
            make_message(
                MessageRole::User,
                &format!("user msg number {i} with some padding text"),
            ),
        );
        push(
            &mut hm,
            make_message(
                MessageRole::Assistant,
                &format!("assistant reply number {i} with padding"),
            ),
        );
    }
    assert!(hm.token_count() > 80, "precondition: should overflow 80% of 100");

    let c = counts(&hm);
    let dropped = hm.fit_to_budget_lossless(&c);
    assert!(dropped > 0, "should have dropped at least one round");
    assert!(matches!(hm.messages()[0].role, MessageRole::System));
    assert!(
        hm.messages()
            .iter()
            .any(|m| matches!(m.role, MessageRole::User)),
        "at least one User message must survive"
    );
    assert!(
        hm.token_count() <= 80,
        "after trim, current_tokens ({}) must be ≤ 80",
        hm.token_count()
    );
}

#[test]
fn test_fit_to_budget_lossless_preserves_compaction_marker() {
    let mut hm = HistoryManager::new(100);
    push(&mut hm, make_message(MessageRole::System, "Sys"));
    push(
        &mut hm,
        marker("summary of earlier conversation that we want to keep"),
    );
    for i in 0..6 {
        push(
            &mut hm,
            make_message(
                MessageRole::User,
                &format!("user message {i} with some additional text padding"),
            ),
        );
        push(
            &mut hm,
            make_message(
                MessageRole::Assistant,
                &format!("assistant reply {i} with extra padding"),
            ),
        );
    }

    let c = counts(&hm);
    let _ = hm.fit_to_budget_lossless(&c);

    let has_marker = hm
        .messages()
        .iter()
        .any(|m| m.name.as_deref() == Some("compaction_summary"));
    assert!(has_marker, "compaction marker must survive lossless trim");
    assert!(matches!(hm.messages()[0].role, MessageRole::System));
}

#[test]
fn test_fit_to_budget_lossless_noop_when_under_budget() {
    let mut hm = HistoryManager::new(10000);
    push(&mut hm, make_message(MessageRole::System, "Sys"));
    push(&mut hm, make_message(MessageRole::User, "hi"));
    push(&mut hm, make_message(MessageRole::Assistant, "hello"));
    let before = hm.len();
    let c = counts(&hm);
    let dropped = hm.fit_to_budget_lossless(&c);
    assert_eq!(dropped, 0);
    assert_eq!(hm.len(), before);
}

#[test]
fn test_load_restored_replaces_and_recounts() {
    let mut hm = HistoryManager::new(10000);
    push(&mut hm, make_message(MessageRole::User, "old data"));
    let before_tokens = hm.token_count();
    assert!(before_tokens > 0);

    let new_msgs = vec![
        make_message(MessageRole::System, "Sys"),
        make_message(MessageRole::User, "fresh"),
        make_message(MessageRole::Assistant, "fresh reply"),
    ];
    let c: Vec<u64> = new_msgs.iter().map(tokens).collect();
    hm.load_restored(new_msgs, &c);
    assert_eq!(hm.len(), 3);
    assert!(matches!(hm.messages()[0].role, MessageRole::System));
    let recomputed = hm.token_count();
    assert!(recomputed > 0);
    assert_eq!(recomputed, c.iter().sum::<u64>());
}

#[test]
fn test_truncate_large_messages() {
    let mut hm = HistoryManager::new(100000);
    push(&mut hm, make_message(MessageRole::System, "System prompt"));
    let long_content: String = "x".repeat(100_000);
    push(&mut hm, make_message(MessageRole::Tool, &long_content));
    push(&mut hm, make_message(MessageRole::User, "Short message"));

    let old = counts(&hm);
    let new: Vec<u64> = (0..hm.len())
        .map(|i| match hm.shortened_message(i, 1000) {
            Some(m) => tokens(&m),
            None => old[i],
        })
        .collect();
    let truncated = hm.truncate_large_messages(1000, &old, &new);
    assert_eq!(truncated, 1);
    assert_eq!(hm.len(), 3);

    let tool_msg = hm
        .messages()
        .iter()
        .find(|m| matches!(m.role, MessageRole::Tool))
        .unwrap();
    assert!(tool_msg.content.len() < long_content.len());
    assert!(tool_msg.content.contains("[...truncated"));

    let sys_msg = hm
        .messages()
        .iter()
        .find(|m| matches!(m.role, MessageRole::System))
        .unwrap();
    assert_eq!(sys_msg.content, "System prompt");
}

#[test]
fn messages_are_cut_between_characters() {
    let mut hm = HistoryManager::new(1000);
    push(&mut hm, make_message(MessageRole::User, "a\u{e9}\u{e9}"));
    let old = counts(&hm);
    let cut = hm.shortened_message(0, 1).unwrap();
    assert_eq!(
        cut.content,
        "a\u{e9}\n\n[...truncated: original 5 chars, showing first 4 chars]"
    );
    let truncated = hm.truncate_large_messages(1, &old, &vec![tokens(&cut)]);
    assert_eq!(truncated, 1);
    assert_eq!(hm.len(), 1);
    assert!(hm.messages()[0].content.contains("[...truncated"));
}

fn make_tool_call(id: &str, name: &str, arguments: &str) -> ToolCall {
    ToolCall {
        id: id.to_string(),
        call_type: "function".to_string(),
        function: FunctionCall {
            name: name.to_string(),
            arguments: arguments.to_string(),
        },
    }
}

fn make_tool_result(tool_call_id: &str, content: &str) -> ChatMessage {
    ChatMessage::tool(tool_call_id.to_string(), content.to_string())
}

fn with_tools(content: &str, calls: Vec<ToolCall>) -> ChatMessage {
    ChatMessage::assistant_with_tools(content.to_string(), calls)
}

#[test]
fn test_sanitize_fixes_invalid_arguments() {
    let mut messages = vec![
        with_tools(
            "",
            vec![
                make_tool_call("tc_1", "read_file", "not valid json{{"),
                make_tool_call("tc_2", "write_file", r#"{"path":"/tmp"}"#),
            ],
        ),
        make_tool_result("tc_1", "result 1"),
        make_tool_result("tc_2", "result 2"),
    ];

    HistoryManager::sanitize_messages(&mut messages);

    let assistant = &messages[0];
    let tool_calls = assistant.tool_calls.as_ref().unwrap();
    assert_eq!(tool_calls[0].function.arguments, "{}");
    assert_eq!(tool_calls[1].function.arguments, r#"{"path":"/tmp"}"#);
}

#[test]
fn test_sanitize_removes_orphaned_tool_result() {
    let mut messages = vec![
        with_tools(
            "I'll help you",
            vec![make_tool_call("tc_1", "read_file", "{}")],
        ),
        make_tool_result("tc_1", "result 1"),
        make_tool_result("tc_orphan", "orphaned result"),
    ];

    HistoryManager::sanitize_messages(&mut messages);

    assert_eq!(messages.len(), 2);
    assert_eq!(messages[1].tool_call_id, Some("tc_1".to_string()));
}

#[test]
fn test_sanitize_removes_orphaned_tool_call() {
    let mut messages = vec![
        with_tools(
            "",
            vec![
                make_tool_call("tc_1", "read_file", "{}"),
                make_tool_call("tc_2", "write_file", "{}"),
            ],
        ),
        make_tool_result("tc_1", "result 1"),
    ];

    HistoryManager::sanitize_messages(&mut messages);

    let assistant = &messages[0];
    let tool_calls = assistant.tool_calls.as_ref().unwrap();
    assert_eq!(tool_calls.len(), 1);
    assert_eq!(tool_calls[0].id, "tc_1");
}

#[test]
fn test_sanitize_removes_empty_assistant_message() {
    let mut messages = vec![
        make_message(MessageRole::User, "Hello"),
        ChatMessage::assistant("".to_string()),
        make_message(MessageRole::User, "World"),
    ];

    HistoryManager::sanitize_messages(&mut messages);

    assert_eq!(messages.len(), 2);
    assert_eq!(messages[0].role, MessageRole::User);
    assert_eq!(messages[1].role, MessageRole::User);
}

#[test]
fn test_sanitize_preserves_order() {
    let mut messages = vec![
        make_message(MessageRole::System, "System"),
        make_message(MessageRole::User, "Hello"),
        with_tools("Let me check", vec![make_tool_call("tc_1", "search", "{}")]),
        make_tool_result("tc_1", "Found it"),
        make_message(MessageRole::Assistant, "Here's the answer"),
    ];

    HistoryManager::sanitize_messages(&mut messages);

    assert_eq!(messages.len(), 5);
    assert!(matches!(messages[0].role, MessageRole::System));
    assert!(matches!(messages[1].role, MessageRole::User));
    assert!(matches!(messages[2].role, MessageRole::Assistant));
    assert!(matches!(messages[3].role, MessageRole::Tool));
    assert!(matches!(messages[4].role, MessageRole::Assistant));
}

#[test]
fn test_sanitize_is_idempotent() {
    let mut messages = vec![
        with_tools("", vec![make_tool_call("tc_1", "read_file", "not json")]),
        make_tool_result("tc_1", "result 1"),
    ];

    HistoryManager::sanitize_messages(&mut messages);
    let first_result = messages.clone();

    HistoryManager::sanitize_messages(&mut messages);

    assert_eq!(messages.len(), first_result.len());
    for (a, b) in messages.iter().zip(first_result.iter()) {
        assert_eq!(a.role, b.role);
        assert_eq!(a.content, b.content);
    }
}

#[test]
fn test_sanitize_clears_tool_calls_when_all_orphaned() {
    let mut messages = vec![with_tools(
        "Let me check",
        vec![
            make_tool_call("tc_1", "search", "{}"),
            make_tool_call("tc_2", "read", "{}"),
        ],
    )];

    HistoryManager::sanitize_messages(&mut messages);

    let assistant = &messages[0];
    assert!(assistant.tool_calls.is_none());
    assert_eq!(assistant.content, "Let me check");
}

fn has_call(messages: &[ChatMessage], id: &str) -> bool {
    messages.iter().any(|m| {
        m.tool_calls
            .as_ref()
            .is_some_and(|tcs| tcs.iter().any(|tc| tc.id == id))
    })
}

fn has_result(messages: &[ChatMessage], id: &str) -> bool {
    messages.iter().any(|m| m.tool_call_id.as_deref() == Some(id))
}

#[test]
fn test_replace_middle_keeps_complete_tool_call_rounds() {
    let mut hm = HistoryManager::new(100000);
    push(&mut hm, make_message(MessageRole::System, "System prompt"));
    let said = [
        ("Question 1", "Searching", "tc_1", "Result for Q1", "Answer 1"),
        ("Question 2", "Searching again", "tc_2", "Result for Q2", "Answer 2"),
        ("Question 3", "Searching third", "tc_3", "Result for Q3", "Answer 3"),
        ("Question 4", "Searching fourth", "tc_4", "Result for Q4", "Answer 4"),
    ];
    for (question, searching, id, result, answer) in said {
        push(&mut hm, make_message(MessageRole::User, question));
        push(
            &mut hm,
            with_tools(searching, vec![make_tool_call(id, "search", "{}")]),
        );
        push(&mut hm, make_tool_result(id, result));
        push(&mut hm, make_message(MessageRole::Assistant, answer));
    }

    let c = counts(&hm);
    let removed = hm.replace_middle_with_summary("Summary Q1", 3, &c, 5);
    assert!(removed > 0, "Should compact some messages");

    let messages = hm.messages();
    assert!(!has_call(messages, "tc_1"), "Q1 should be compacted");
    assert!(has_call(messages, "tc_4"), "Q4 tool_call should be preserved");
    assert!(has_result(messages, "tc_4"), "Q4 tool result should be preserved");

    let mut messages_clone = messages.to_vec();
    let len_before = messages_clone.len();
    HistoryManager::sanitize_messages(&mut messages_clone);
    assert_eq!(messages_clone.len(), len_before, "No orphans after fix");

    for msg in &messages_clone {
        if msg.role == MessageRole::Tool {
            if let Some(tcid) = &msg.tool_call_id {
                assert!(
                    has_call(&messages_clone, tcid),
                    "Tool result {tcid} has matching Assistant"
                );
            }
        }
    }
}

#[test]
fn test_replace_middle_single_user_many_tools() {
    let mut hm = HistoryManager::new(100000);
    push(&mut hm, make_message(MessageRole::System, "System"));
    push(&mut hm, make_message(MessageRole::User, "Complex task"));
    for i in 1..=5 {
        push(
            &mut hm,
            with_tools(
                &format!("Round {i}"),
                vec![make_tool_call(&format!("tc_{i}"), "tool", "{}")],
            ),
        );
        push(
            &mut hm,
            make_tool_result(&format!("tc_{i}"), &format!("Result {i}")),
        );
    }

    let c = counts(&hm);
    let removed = hm.replace_middle_with_summary("Summary of rounds 1-3", 2, &c, 5);
    assert!(removed > 0);

    let messages = hm.messages();
    let has_summary = messages.iter().any(|m| {
        m.role == MessageRole::Assistant && m.name.as_deref() == Some("compaction_summary")
    });
    assert!(has_summary, "Compaction summary should be present");

    for i in 4..=5 {
        let tc_id = format!("tc_{i}");
        assert!(has_call(messages, &tc_id), "Tool call {tc_id} should be preserved");
        assert!(has_result(messages, &tc_id), "Tool result {tc_id} should be preserved");
    }
    for i in 1..=3 {
        let tc_id = format!("tc_{i}");
        assert!(!has_call(messages, &tc_id), "Tool call {tc_id} should be compacted");
    }

    let mut messages_clone = messages.to_vec();
    let len_before = messages_clone.len();
    HistoryManager::sanitize_messages(&mut messages_clone);
    assert_eq!(messages_clone.len(), len_before, "No orphans after fix");
}

#[test]
fn last_summary_is_found_after_a_compaction() {
    let mut hm = HistoryManager::new(1000);
    push(&mut hm, make_message(MessageRole::System, "S"));
    for i in 0..4 {
        push(&mut hm, make_message(MessageRole::User, &format!("u{i}")));
        push(&mut hm, make_message(MessageRole::Assistant, &format!("a{i}")));
    }
    assert_eq!(hm.last_compaction_index(), None);
    let c = counts(&hm);
    assert_eq!(hm.replace_middle_with_summary("sum", 1, &c, 2), 6);
    assert_eq!(hm.last_compaction_index(), Some(1));
    assert_eq!(hm.messages()[1].content, "sum");
    assert_eq!(hm.messages()[2].content, "u3");
    assert_eq!(hm.len(), 4);
}

#[test]
fn a_compaction_that_keeps_no_round_leaves_the_summary_alone() {
    let mut hm = HistoryManager::new(1000);
    push(&mut hm, make_message(MessageRole::System, "S"));
    push(&mut hm, make_message(MessageRole::User, "u"));
    let c = counts(&hm);
    assert_eq!(hm.replace_middle_with_summary("sum", 0, &c, 2), 1);
    assert_eq!(hm.len(), 2);
    assert_eq!(hm.messages()[1].content, "sum");
}

#[test]
fn fifo_keeps_system_messages_and_the_last_message() {
    let mut hm = HistoryManager::new(1);
    push(&mut hm, make_message(MessageRole::User, "u1"));
    push(&mut hm, make_message(MessageRole::System, "s"));
    push(&mut hm, make_message(MessageRole::User, "u2"));
    let c = counts(&hm);
    assert_eq!(hm.trim_fifo(&c), 1);
    assert_eq!(hm.len(), 2);
    assert_eq!(hm.messages()[0].content, "s");
    assert_eq!(hm.messages()[1].content, "u2");
    let mut none = HistoryManager::new(1);
    assert_eq!(none.trim_fifo(&Vec::new()), 0);
}

#[test]
fn histories_are_cut_and_cleared() {
    let mut hm = HistoryManager::new(100);
    let msgs = vec![
        make_message(MessageRole::User, "a"),
        make_message(MessageRole::User, "b"),
        make_message(MessageRole::User, "c"),
    ];
    hm.extend(msgs, &vec![1, 2, 3]);
    assert_eq!(hm.token_count(), 6);
    hm.truncate_to(1, &vec![1, 2, 3]);
    assert_eq!(hm.len(), 1);
    assert_eq!(hm.token_count(), 1);
    hm.clear();
    assert!(hm.is_empty());
    assert_eq!(hm.token_count(), 0);
}
