use acowork_runtime::agent::agent_core::{
    bootstrap_entries, starts_consolidation, AgentCore, AutobioCategory, DeclaredCapability,
    ManifestIdentity, ModelCapabilities, ModelItem, ProviderKey, ProviderListItem,
    SharedProviders, ShellApprovalThreshold,
};
use acowork_runtime::agent::history::ProtocolType;
use acowork_runtime::agent::session::attachments::{
    build_attached_context_blocks, build_document_blocks, documents_to_extract, enrich_message,
    unsupported_format, AttachedContextItem, Extraction,
};
use acowork_runtime::agent::session::messages::{SessionMessage, SummaryValue};
use acowork_runtime::agent::session::session_task::{
    DebugState, Readings, RuntimeConfigOverrides, SessionTask, TaskStep,
};
use acowork_runtime::agent::session_core::SessionCore;
use acowork_runtime::agent::session_state::{
    RetryPauseInfo, SessionState, SessionStatus, TodoItem, TodoStatus,
};
use acowork_runtime::agent::streaming::StreamingStateMap;
use acowork_runtime::conversation::entry::ConversationEntry;
use acowork_runtime::conversation::session::{ConversationSession, SessionConfig};
use acowork_runtime::conversation::since::StreamingLine;
use acowork_runtime::ids::Moment;
use acowork_runtime::json::{json_text, parse_json, JsonNumber};
use acowork_runtime::message::{ChatMessage, MessageRole};
use acowork_runtime::providers::types::ReasoningEffort;

fn item(path: &str, kind: &str, start: Option<u32>, end: Option<u32>) -> AttachedContextItem {
    AttachedContextItem {
        abs_path: path.to_string(),
        context_type: kind.to_string(),
        start_line: start,
        end_line: end,
    }
}

#[test]
fn test_attached_context_file_reference() {
    let items = vec![item("/project/src/main.rs", "file", None, None)];
    let hints = build_attached_context_blocks(&items);
    assert_eq!(hints.len(), 1);
    assert!(hints[0].contains("/project/src/main.rs"));
    assert!(hints[0].contains("read_file"));
    assert!(!hints[0].contains("doc_reader"));
}

#[test]
fn test_attached_context_selection_with_line_range() {
    let items = vec![item("/project/src/lib.rs", "selection", Some(2), Some(5))];
    let hints = build_attached_context_blocks(&items);
    assert_eq!(hints.len(), 1);
    assert!(hints[0].contains("/project/src/lib.rs"));
    assert!(hints[0].contains("lines 2–5"));
    assert!(hints[0].contains("read_file"));
}

#[test]
fn test_attached_context_selection_single_line() {
    let items = vec![item("/project/src/main.rs", "selection", Some(42), Some(42))];
    let hints = build_attached_context_blocks(&items);
    assert_eq!(hints.len(), 1);
    assert!(hints[0].contains("line 42"));
    assert!(hints[0].contains("read_file"));
    assert!(!hints[0].contains("line range"));
}

#[test]
fn test_attached_context_selection_without_line_range_falls_back() {
    let items = vec![item("/project/src/lib.rs", "selection", None, None)];
    let hints = build_attached_context_blocks(&items);
    assert_eq!(hints.len(), 1);
    assert!(hints[0].contains("/project/src/lib.rs"));
    assert!(hints[0].contains("read_file"));
    assert!(!hints[0].contains("lines"));
    assert!(!hints[0].contains("line "));
}

#[test]
fn test_attached_context_binary_document_uses_doc_reader() {
    for ext in &["pdf", "docx", "pptx", "xlsx"] {
        let items = vec![item(&format!("/docs/report.{}", ext), "file", None, None)];
        let hints = build_attached_context_blocks(&items);
        assert_eq!(hints.len(), 1, "failed for extension: {}", ext);
        assert!(
            hints[0].contains("doc_reader"),
            "expected doc_reader hint for {}, got: {}",
            ext,
            hints[0]
        );
        assert!(
            !hints[0].contains("read_file"),
            "should not mention read_file for {}, got: {}",
            ext,
            hints[0]
        );
    }
}

#[test]
fn test_attached_context_binary_document_ignores_line_range() {
    let items = vec![item("/docs/spec.pdf", "selection", Some(1), Some(10))];
    let hints = build_attached_context_blocks(&items);
    assert_eq!(hints.len(), 1);
    assert!(hints[0].contains("doc_reader"));
    assert!(!hints[0].contains("read_file"));
    assert!(!hints[0].contains("lines"));
}

#[test]
fn test_attached_context_directory_skipped() {
    let items = vec![item("/some/dir", "directory", None, None)];
    let hints = build_attached_context_blocks(&items);
    assert!(hints.is_empty());
}

#[test]
fn test_attached_context_multiple_files() {
    let items = vec![
        item("/project/src/main.rs", "file", None, None),
        item("/project/src/lib.rs", "selection", Some(10), Some(20)),
        item("/docs/guide.pdf", "file", None, None),
    ];
    let hints = build_attached_context_blocks(&items);
    assert_eq!(hints.len(), 3);
    assert!(hints[0].contains("read_file") && hints[0].contains("main.rs"));
    assert!(hints[1].contains("read_file") && hints[1].contains("lines 10–20"));
    assert!(hints[2].contains("doc_reader") && hints[2].contains("guide.pdf"));
}

#[test]
fn documents_become_blocks() {
    let records = vec![
        parse_json(r#"{"abs_path":"/d/a.pdf","filename":"a.pdf","format":"pdf"}"#).unwrap(),
        parse_json(r#"{"filename":"no path"}"#).unwrap(),
        parse_json(r#"{"abs_path":"/d/b"}"#).unwrap(),
    ];
    let docs = documents_to_extract(&records);
    assert_eq!(docs.len(), 2);
    assert_eq!(docs[1].filename, "document");
    assert_eq!(docs[1].format, "unknown");
    let blocks = build_document_blocks(
        &docs,
        &vec![
            Extraction::Text("text".to_string()),
            Extraction::Failed("bad".to_string()),
        ],
    );
    assert_eq!(
        blocks[0],
        "<attached_document filename=\"a.pdf\" format=\"pdf\">\ntext\n</attached_document>"
    );
    assert!(blocks[1].contains("[Document extraction failed: bad]"));
    let empty = build_document_blocks(&docs[..1].iter().map(|d| acowork_runtime::agent::session::attachments::DocumentRef {
        abs_path: d.abs_path.clone(),
        filename: d.filename.clone(),
        format: d.format.clone(),
    }).collect(), &vec![Extraction::Text(" \n".to_string())]);
    assert!(empty[0].contains("[Document is empty or contains no extractable text]"));
    let m = enrich_message("look", &blocks, &vec!["- hint".to_string()]);
    assert!(m.starts_with("look\n\nThe following documents"));
    assert!(m.ends_with("contents.\n\n- hint"));
    assert_eq!(enrich_message("only", &Vec::new(), &Vec::new()), "only");
    assert_eq!(unsupported_format("/a/b.odt"), "Unsupported document format: odt");
    assert_eq!(unsupported_format("/a/b"), "Unsupported document format: (none)");
}

fn now(millis: i64) -> Moment {
    Moment {
        text: "2026-05-03T10:00:00+00:00".to_string(),
        millis,
        seconds: millis / 1000,
    }
}

fn make_core_with_notify(enabled: bool) -> (SessionCore, StreamingStateMap) {
    let mut core = SessionCore::new("s1".to_string(), 0, 500, None);
    core.notify_enabled = enabled;
    let mut map = StreamingStateMap::new();
    map.insert(
        "s1",
        StreamingLine {
            line_number: 1,
            accumulated_content: String::new(),
            role: "assistant".to_string(),
            started_at: String::new(),
            started_at_ms: 0,
        },
    );
    (core, map)
}

#[test]
fn test_notify_disabled_suppresses_new_data_available() {
    let (mut core, map) = make_core_with_notify(false);
    assert!(core
        .notify_new_data_available(&map, 0, Moment::now().millis)
        .is_none());
}

#[test]
fn test_notify_enabled_sends_new_data_available() {
    let (mut core, map) = make_core_with_notify(true);
    let at = Moment::now().millis;
    let news = core.notify_new_data_available(&map, 3, at).unwrap();
    assert_eq!(news.session_id, "s1");
    assert_eq!(news.total_lines, 3);
    assert_eq!(news.streaming_line, 1);
    assert_eq!(news.interval_ms, 500);
    assert!(core.notify_new_data_available(&map, 3, at + 499).is_none());
    assert!(core.notify_new_data_available(&map, 3, at + 500).is_some());
}

#[test]
fn test_retry_ux_initial_status_is_streaming() {
    let (core, _map) = make_core_with_notify(false);
    assert!(
        matches!(core.retry_session_status, SessionStatus::Streaming { .. }),
        "Initial retry status should be Streaming, got {:?}",
        core.retry_session_status
    );
}

#[test]
fn test_retry_ux_session_status_writable() {
    let (mut core, _map) = make_core_with_notify(false);
    core.retry_session_status = SessionStatus::Paused {
        iteration: None,
        max_iterations: None,
        retry_info: Some(RetryPauseInfo {
            wait_ms: 10_500,
            attempt: 1,
            max_attempts: 3,
            provider: "mock-provider".to_string(),
        }),
    };
    assert!(
        matches!(core.retry_session_status, SessionStatus::Paused { .. }),
        "Status should be Paused after emit_retry_pause simulation"
    );
}

fn make_session_core_with_session(id: &str) -> (SessionCore, StreamingStateMap, ConversationSession) {
    let (session, _) = ConversationSession::new(
        id,
        SessionConfig {
            agent_id: "com.test.adr022".to_string(),
            workspace_id: None,
            model: None,
            provider: None,
        },
    );
    let mut core = SessionCore::new(id.to_string(), 0, 500, Some("/w".to_string()));
    core.notify_enabled = true;
    (core, StreamingStateMap::new(), session)
}

#[test]
fn test_adr022_role_transition_produces_single_role_lines() {
    let (mut core, mut map, session) = make_session_core_with_session("adr022-transition");
    let mut entries: Vec<ConversationEntry> = Vec::new();
    let t = now(1000);

    entries.extend(core.flush_and_new_streaming_line(&mut map, "assistant", Some(&session), 1, &t));
    core.append_streaming_delta(&mut map, "assistant", "我先看一下", 1, &t);

    entries.extend(core.flush_and_new_streaming_line(&mut map, "thought", Some(&session), 1, &t));
    core.append_streaming_delta(&mut map, "thought", "分析路径", 1, &t);

    entries.extend(core.flush_and_new_streaming_line(
        &mut map,
        "assistant",
        Some(&session),
        1,
        &now(2500),
    ));
    core.append_streaming_delta(&mut map, "assistant", "然后搜索", 1, &t);

    entries.extend(core.flush_streaming_line(&mut map, Some(&session), &t).1);

    assert_eq!(
        entries.len(),
        3,
        "Should have 3 single-role lines: assistant, thought, assistant"
    );
    assert_eq!(entries[0].role, "assistant");
    assert_eq!(entries[0].content, "我先看一下");
    assert_eq!(entries[1].role, "thought");
    assert_eq!(entries[1].content, "分析路径");
    assert_eq!(entries[2].role, "assistant");
    assert_eq!(entries[2].content, "然后搜索");
    assert_eq!(
        json_text(entries[1].metadata.as_ref().unwrap()),
        r#"{"startTime":1000,"endTime":2500}"#
    );
    assert_eq!(core.streaming_flush_count, 3);
}

#[test]
fn test_adr022_assistant_text_then_tool_call_preserves_order() {
    let (mut core, mut map, session) = make_session_core_with_session("adr022-text-tool");
    let mut entries: Vec<ConversationEntry> = Vec::new();
    let t = now(0);
    entries.extend(core.flush_and_new_streaming_line(&mut map, "assistant", Some(&session), 1, &t));
    core.append_streaming_delta(&mut map, "assistant", "我来查一下", 1, &t);
    entries.extend(core.flush_streaming_line(&mut map, Some(&session), &t).1);
    entries.push(session.append_message(
        "tool_call",
        r#"{"name":"grep","arguments":{"pattern":"foo"}}"#,
        None,
    ));

    assert_eq!(entries.len(), 2, "assistant text + tool_call = 2 lines");
    assert_eq!(entries[0].role, "assistant");
    assert_eq!(entries[0].content, "我来查一下");
    assert_eq!(entries[1].role, "tool_call");
}

#[test]
fn test_adr022_finished_with_tool_calls_flushes_text_first() {
    let (mut core, mut map, session) = make_session_core_with_session("adr022-finished-tool");
    let mut entries: Vec<ConversationEntry> = Vec::new();
    let t = now(0);
    entries.extend(core.flush_and_new_streaming_line(&mut map, "assistant", Some(&session), 1, &t));
    core.append_streaming_delta(&mut map, "assistant", "开始搜索", 1, &t);
    entries.extend(core.flush_streaming_line(&mut map, Some(&session), &t).1);
    entries.push(session.append_message(
        "tool_call",
        r#"{"name":"search","arguments":{"q":"test"}}"#,
        None,
    ));

    assert_eq!(entries.len(), 2);
    assert_eq!(entries[0].role, "assistant");
    assert_eq!(entries[0].content, "开始搜索");
    assert_eq!(entries[1].role, "tool_call");
}

#[test]
fn roles_of_a_streamed_line_have_to_fit() {
    let (mut core, mut map, _session) = make_session_core_with_session("adr022-no-overwrite");
    core.append_streaming_delta(&mut map, "assistant", "hello", 1, &now(0));
    assert!(core.role_fits(&map, "assistant"));
    assert!(!core.role_fits(&map, "thought"));
    assert_eq!(map.get("adr022-no-overwrite").unwrap().role, "assistant");
}

#[test]
fn sessions_do_not_touch_the_lines_of_others() {
    let (mut a, mut map, _) = make_session_core_with_session("a");
    let (mut b, _, _) = make_session_core_with_session("b");
    a.append_streaming_delta(&mut map, "assistant", "x", 1, &now(0));
    b.append_streaming_delta(&mut map, "thought", "y", 2, &now(0));
    a.append_streaming_delta(&mut map, "assistant", "z", 1, &now(0));
    assert_eq!(map.get("a").unwrap().accumulated_content, "xz");
    assert_eq!(map.get("b").unwrap().accumulated_content, "y");
    assert_eq!(map.get("b").unwrap().line_number, 2);
    a.remove_streaming_line(&mut map);
    assert!(map.get("a").is_none());
    assert!(map.get("b").is_some());
    let (said, entry) = b.flush_streaming_line(&mut map, None, &now(0));
    assert_eq!(said.as_deref(), Some("y"));
    assert!(entry.is_none());
    b.reset_streaming_flush_count();
    assert_eq!(b.streaming_flush_count, 0);
}

#[test]
fn moments_follow_the_clock() {
    let a = Moment::now();
    assert!(a.millis > 1_600_000_000_000);
    assert!((a.millis / 1000 - a.seconds).abs() <= 1);
    assert!(a.text.len() > 20);
}

fn todo(id: &str, content: &str, status: TodoStatus) -> TodoItem {
    TodoItem {
        id: id.to_string(),
        content: content.to_string(),
        status,
    }
}

#[test]
fn todos_are_replaced_or_brought_up_to_date() {
    let mut s = SessionState::new(100, None);
    assert_eq!(s.format_todos(), None);
    s.update_todos(
        vec![
            todo("1", "one", TodoStatus::Pending),
            todo("2", "two", TodoStatus::InProgress),
        ],
        true,
    );
    assert_eq!(s.format_todos().as_deref(), Some("- [ ] one (1)\n- [-] two (2)"));
    s.update_todos(
        vec![
            todo("2", "two!", TodoStatus::Completed),
            todo("3", "three", TodoStatus::Pending),
        ],
        false,
    );
    assert_eq!(s.format_todos().as_deref(), Some("- [x] two! (2)\n- [ ] three (3)"));
}

#[test]
fn a_status_changes_once() {
    let mut s = SessionState::new(100, None);
    let streaming = || SessionStatus::Streaming {
        message_id: Some("m".to_string()),
    };
    assert!(s.set_status(streaming()));
    assert!(!s.set_status(streaming()));
    assert!(s.status().is_active());
    assert!(s.set_status(SessionStatus::Idle));
    assert!(!s.status().is_active());
    assert_eq!(json_text(&SessionStatus::Idle.to_json()), r#"{"status":"idle"}"#);
    assert_eq!(
        json_text(&streaming().to_json()),
        r#"{"status":"streaming","detail":{"message_id":"m"}}"#
    );
    assert_eq!(
        json_text(
            &SessionStatus::Paused {
                iteration: Some(1),
                max_iterations: None,
                retry_info: None
            }
            .to_json()
        ),
        r#"{"status":"paused","detail":{"iteration":1,"max_iterations":null}}"#
    );
}

fn caps(effort: Option<ReasoningEffort>, reasoning: Option<bool>) -> ModelCapabilities {
    ModelCapabilities {
        context_window: 1000,
        max_input_tokens: None,
        max_output_tokens: 100,
        supports_tool_calling: true,
        supports_reasoning: reasoning,
        default_reasoning_effort: effort,
    }
}

fn model(id: &str, limit: u64, c: ModelCapabilities) -> ModelItem {
    ModelItem {
        id: id.to_string(),
        capabilities: c,
        max_output_tokens_limit: limit,
    }
}

fn agent() -> AgentCore {
    AgentCore::new(
        vec!["read_file".to_string()],
        50,
        4000,
        ShellApprovalThreshold::Medium,
    )
}

fn providers() -> SharedProviders {
    let mut a = SharedProviders::new();
    a.global_provider_list = vec![
        ProviderListItem {
            id: "p1".to_string(),
            protocol_type: ProtocolType::OpenAI,
            base_url: String::new(),
            models: vec![model("m1", 11, caps(None, Some(true)))],
            compact_model: None,
        },
        ProviderListItem {
            id: "p2".to_string(),
            protocol_type: ProtocolType::Anthropic,
            base_url: "http://p2".to_string(),
            models: vec![
                model("m2", 22, caps(Some(ReasoningEffort::High), None)),
                model("m1", 33, caps(None, None)),
            ],
            compact_model: None,
        },
    ];
    a.provider_key_vault = vec![ProviderKey {
        provider_id: "p2".to_string(),
        api_key: "key".to_string(),
    }];
    a
}

#[test]
fn models_and_providers_are_found() {
    let mut a = agent();
    let mut s = providers();
    assert_eq!(a.max_output_tokens_limit_for_model(&s, "m1"), 11);
    assert_eq!(a.max_output_tokens_limit_for_model(&s, "none"), 32_768);
    assert_eq!(a.context_trim_budget(&s, "m2", 900), 900);
    assert_eq!(a.context_trim_budget(&s, "none", 900), 4000);
    assert_eq!(a.consolidation_model(&s), "m1");
    let p = a.build_provider_for(&s, "p2").unwrap();
    assert_eq!(p.api_key.as_deref(), Some("key"));
    assert_eq!(p.base_url.as_deref(), Some("http://p2"));
    let p = a.build_provider_for(&s, "p1").unwrap();
    assert_eq!(p.api_key, None);
    assert_eq!(p.base_url, None);
    assert!(a.build_provider_for(&s, "p3").is_none());
    let all = a.gateway_model_capabilities(&s);
    assert_eq!(all.len(), 2);
    assert_eq!(all[1].id, "m1");
    assert_eq!(all[1].capabilities.supports_reasoning, None);
    a.update_gateway_model_capabilities(&mut s, "m1", caps(None, Some(false)));
    assert_eq!(a.get_model_capabilities(&s, "m1").unwrap().supports_reasoning, Some(false));
    a.update_max_output_tokens_limit(&mut s, 5);
    assert_eq!(a.max_output_tokens_limit_for_model(&s, "m2"), 5);
    a.update_mcp_tools(Some(vec!["mcp__x".to_string()]));
    assert_eq!(a.all_tools, vec!["read_file", "mcp__x"]);
    a.update_mcp_tools(None);
    assert_eq!(a.all_tools, vec!["read_file"]);
    assert!(starts_consolidation(true, true, false));
    assert!(!starts_consolidation(true, false, false));
}

#[test]
fn runtime_config_keeps_what_is_not_given() {
    let mut a = agent();
    let mut s = providers();
    a.apply_runtime_config(&mut s, None, Some(7), None, Some("p".to_string()), None);
    assert_eq!(a.max_iterations, 7);
    assert_eq!(a.system_prompt_override.as_deref(), Some("p"));
    assert_eq!(a.shell_approval_threshold, ShellApprovalThreshold::Medium);
    a.apply_runtime_config(&mut s, Some(1), None, None, None, Some(ShellApprovalThreshold::Never));
    assert_eq!(a.max_output_tokens_limit_for_model(&s, "m2"), 1);
    assert_eq!(a.max_iterations, 7);
    assert_eq!(a.system_prompt_override.as_deref(), Some("p"));
    assert_eq!(a.shell_approval_threshold, ShellApprovalThreshold::Never);
}

#[test]
fn agents_start_with_memories_of_themselves() {
    let m = ManifestIdentity {
        agent_id: "id".to_string(),
        name: "n".to_string(),
        description: "d".to_string(),
        display_name: None,
        role: Some("helper".to_string()),
        capabilities: vec![DeclaredCapability {
            key: "search".to_string(),
            description: "finds".to_string(),
        }],
    };
    let all = bootstrap_entries(&m, None);
    assert_eq!(all.len(), 5);
    assert_eq!(all[3].key, "role");
    assert_eq!(all[3].value, "helper");
    assert_eq!(all[4].category, AutobioCategory::Capability);
    assert_eq!(bootstrap_entries(&m, Some(0)).len(), 5);
    assert!(bootstrap_entries(&m, Some(1)).is_empty());
}

fn overrides() -> RuntimeConfigOverrides {
    RuntimeConfigOverrides {
        max_output_tokens: None,
        max_iterations: None,
        temperature: None,
        system_prompt_override: None,
        shell_approval_threshold: None,
    }
}

fn readings() -> Readings {
    Readings {
        effort: None,
        threshold: ShellApprovalThreshold::High,
        store_dimension: Some(384),
        notification_tokens: 3,
    }
}

fn task() -> (SessionTask, SharedProviders) {
    let (conversation, _) = ConversationSession::new(
        "s",
        SessionConfig {
            agent_id: "a".to_string(),
            workspace_id: None,
            model: None,
            provider: None,
        },
    );
    let mut o = overrides();
    o.temperature = Some(JsonNumber {
        unsigned: None,
        literal: "0.9".to_string(),
    });
    let core = SessionCore::new("s".to_string(), 0, 500, None);
    let mut shared = providers();
    let (t, provider) = SessionTask::new(
        agent(),
        &mut shared,
        core,
        SessionState::new(100, Some(conversation)),
        Some(vec!["mcp".to_string()]),
        o,
        Some("/w".to_string()),
    );
    assert!(provider.is_none());
    (t, shared)
}

fn chat(content: &str) -> SessionMessage {
    SessionMessage::ChatMessage {
        content: content.to_string(),
        message_id: "m1".to_string(),
        skill_instructions: None,
        documents: None,
        content_parts: None,
        attached_context: None,
    }
}

#[test]
fn sessions_start_with_what_was_configured() {
    let (mut t, shared) = task();
    assert_eq!(t.core.all_tools, vec!["read_file", "mcp"]);
    assert_eq!(t.session.temperature().unwrap().literal, "0.9");
    assert_eq!(t.session_core.current_work_dir.as_deref(), Some("/w"));
    assert!(t.start(&shared, Some("me".to_string()), ProtocolType::Anthropic).is_none());
    assert_eq!(t.session.identity_context(), Some("me"));
    assert_eq!(*t.session.history().protocol_type(), ProtocolType::Anthropic);
    t.session.set_model("m2".to_string());
    t.session
        .conversation_mut()
        .as_mut()
        .unwrap()
        .update_last_tokens(10, 20);
    let seed = t.start(&shared, None, ProtocolType::OpenAI).unwrap();
    assert_eq!(seed.input_tokens, 10);
    assert_eq!(seed.max_output_tokens, 22);
    assert_eq!(t.context.override_model.as_deref(), Some("m2"));
}

#[test]
fn chat_messages_are_taken_up_or_ignored() {
    let (mut t, mut shared) = task();
    assert!(matches!(t.on_message(&mut shared, Some(chat("  \n")), &readings()), TaskStep::Rest));
    assert!(t.on_debug_resume(DebugState::Running).is_none());
    match t.on_message(&mut shared, Some(chat("hi")), &readings()) {
        TaskStep::Answer { content, message_id, documents, .. } => {
            assert_eq!(content, "hi");
            assert_eq!(message_id, "m1");
            assert!(documents.is_empty());
        }
        _ => panic!("the message is to be answered"),
    }
    assert_eq!(t.on_debug_resume(DebugState::Stepping).unwrap().content, "hi");
    assert!(t.on_debug_resume(DebugState::Paused).is_none());
    assert_eq!(SessionTask::auto_resumed(DebugState::Paused), Some(DebugState::Running));
    assert_eq!(SessionTask::auto_resumed(DebugState::Stepping), None);
    let said = t.prepare_turn(
        "hi",
        &Vec::new(),
        &Vec::new(),
        &Some(vec![item("/a.rs", "file", None, None)]),
        Some("skill".to_string()),
    );
    assert!(said.starts_with("hi\n\nThe following workspace files"));
    assert_eq!(t.context.skill_instructions.as_deref(), Some("skill"));
    t.prepare_turn("hi", &Vec::new(), &Vec::new(), &None, None);
    assert_eq!(t.context.skill_instructions, None);
}

#[test]
fn a_model_switch_resets_the_effort() {
    let (mut t, mut shared) = task();
    let step = t.on_message(
        &mut shared,
        Some(SessionMessage::ModelSwitch {
            model: "m2".to_string(),
            provider: Some("p2".to_string()),
        }),
        &readings(),
    );
    match step {
        TaskStep::UseModel(s) => {
            assert_eq!(s.effort, Some(ReasoningEffort::High));
            assert_eq!(s.provider.unwrap().id, "p2");
            let metadata = s.metadata.unwrap();
            assert_eq!(metadata.model.as_deref(), Some("m2"));
            assert_eq!(metadata.reasoning_effort.as_deref(), Some("high"));
        }
        _ => panic!("the model is to be switched"),
    }
    assert_eq!(t.session.model(), Some("m2"));
    assert_eq!(t.session.provider(), Some("p2"));
    assert_eq!(t.session.history().model_for_counting(), "m2");
    assert_eq!(t.session.reasoning_effort(), Some(ReasoningEffort::High));
    match t.on_message(
        &mut shared,
        Some(SessionMessage::ModelSwitch {
            model: "m1".to_string(),
            provider: None,
        }),
        &readings(),
    ) {
        TaskStep::UseModel(s) => {
            assert_eq!(s.effort, Some(ReasoningEffort::Auto));
            assert!(s.provider.is_none());
            assert_eq!(s.metadata.unwrap().reasoning_effort.as_deref(), Some("auto"));
        }
        _ => panic!("the model is to be switched"),
    }
    assert_eq!(t.session.provider(), Some("p2"));
    t.on_message(
        &mut shared,
        Some(SessionMessage::ReasoningEffort { effort: "high".to_string() }),
        &readings(),
    );
    match t.on_message(
        &mut shared,
        Some(SessionMessage::ModelSwitch {
            model: "unheard of".to_string(),
            provider: None,
        }),
        &readings(),
    ) {
        TaskStep::UseModel(s) => {
            assert_eq!(s.effort, None);
            assert_eq!(s.metadata.unwrap().reasoning_effort, None);
        }
        _ => panic!("the model is to be switched"),
    }
    assert_eq!(ReasoningEffort::Off.name(), "off");
}

#[test]
fn each_message_has_its_step() {
    let (mut t, mut shared) = task();
    let r = readings();
    assert!(matches!(
        t.on_message(&mut shared, Some(SessionMessage::ContinueExecution), &r),
        TaskStep::GoOn { reason } if reason == "user_requested"
    ));
    assert!(matches!(
        t.on_message(&mut shared, Some(SessionMessage::UpdateSessionTitle { title: "T".to_string() }), &r),
        TaskStep::Write(m) if m.title.as_deref() == Some("T")
    ));
    assert!(matches!(
        t.on_message(&mut shared, Some(SessionMessage::UpdateSessionTitle { title: "T".to_string() }), &r),
        TaskStep::Rest
    ));
    assert!(matches!(
        t.on_message(&mut shared, Some(SessionMessage::SetWorkspaceId { workspace_id: "w".to_string() }), &r),
        TaskStep::Write(_)
    ));
    assert_eq!(t.session.workspace_id().as_deref(), Some("w"));
    assert!(matches!(
        t.on_message(&mut shared, Some(SessionMessage::SetWorkDir { path: "/x".to_string() }), &r),
        TaskStep::Rest
    ));
    assert_eq!(t.session_core.current_work_dir.as_deref(), Some("/x"));
    assert!(matches!(
        t.on_message(&mut shared, Some(SessionMessage::EnablePush), &r),
        TaskStep::EmitState
    ));
    assert!(t.session_core.notify_enabled);
    t.on_message(&mut shared, Some(SessionMessage::DisablePush), &r);
    assert!(!t.session_core.notify_enabled);
    assert!(matches!(
        t.on_message(&mut shared, Some(SessionMessage::CompactContext), &r),
        TaskStep::Compact { model } if model == "default"
    ));
    assert!(matches!(
        t.on_message(
            &mut shared,
            Some(SessionMessage::UpdateEmbedConfig {
                embed_endpoint: "e".to_string(),
                embed_model_id: "m".to_string(),
                embed_dimension: 768,
            }),
            &r
        ),
        TaskStep::Embed { migrate: true, dimension: 768, .. }
    ));
    assert!(matches!(
        t.on_message(&mut shared, Some(SessionMessage::Stop { reason: "x".to_string() }), &r),
        TaskStep::StopLoop { .. }
    ));
    t.on_message(
        &mut shared,
        Some(SessionMessage::UpdateIdentityContext {
            identity_context: Some(String::new()),
        }),
        &r,
    );
    assert_eq!(t.session.identity_context(), None);
    assert!(matches!(
        t.on_message(
            &mut shared,
            Some(SessionMessage::ReasoningEffort { effort: "high".to_string() }),
            &Readings { effort: Some(ReasoningEffort::High), ..readings() }
        ),
        TaskStep::Write(m) if m.reasoning_effort.as_deref() == Some("high")
    ));
    assert!(matches!(t.on_message(&mut shared, Some(SessionMessage::Close), &r), TaskStep::Close));
    assert!(matches!(t.on_message(&mut shared, None, &r), TaskStep::Close));
}

#[test]
fn sessions_share_their_providers() {
    let (mut t, mut shared) = task();
    let (mut other, _) = task();
    other.session.set_model("m2".to_string());
    other
        .session
        .conversation_mut()
        .as_mut()
        .unwrap()
        .update_last_tokens(1, 2);
    let config = |limit: Option<u64>, threshold: Option<&str>| SessionMessage::UpdateRuntimeConfig {
        max_output_tokens: limit,
        max_iterations: None,
        temperature: None,
        system_prompt_override: None,
        shell_approval_threshold: threshold.map(|s| s.to_string()),
    };
    t.on_message(&mut shared, Some(config(Some(7), None)), &readings());
    assert_eq!(t.core.shell_approval_threshold, ShellApprovalThreshold::Medium);
    let seed = other.start(&shared, None, ProtocolType::OpenAI).unwrap();
    assert_eq!(seed.max_output_tokens, 7);
    t.on_message(&mut shared, Some(config(None, Some("?"))), &readings());
    assert_eq!(t.core.shell_approval_threshold, ShellApprovalThreshold::High);
    shared.global_provider_list.clear();
    assert!(matches!(
        other.on_message(&mut shared, Some(SessionMessage::ProviderListUpdated), &readings()),
        TaskStep::EmitState
    ));
    assert!(other.start(&shared, None, ProtocolType::OpenAI).is_none());
}

#[test]
fn notifications_wait_for_a_conversation() {
    let (mut t, mut shared) = task();
    let note = || SessionMessage::SystemNotification {
        content: "server down".to_string(),
    };
    t.on_message(&mut shared, Some(note()), &readings());
    assert!(t.session.history().is_empty());
    t.session
        .history_mut()
        .append(ChatMessage::user("hi".to_string()), 1);
    t.on_message(&mut shared, Some(note()), &readings());
    let last = t.session.history().messages().last().unwrap();
    assert_eq!(last.role, MessageRole::User);
    assert_eq!(last.content, "[System Notification] server down");
    assert_eq!(t.session.history().token_count(), 4);
}

#[test]
fn summaries_of_messages_are_short() {
    let m = chat(&"x".repeat(100));
    assert_eq!(m.name(), "ChatMessage");
    let fields = m.describe();
    assert_eq!(fields.len(), 6);
    assert_eq!(fields[0].value, SummaryValue::Text("x".repeat(64)));
    assert_eq!(fields[2].value, SummaryValue::Flag(false));
    assert_eq!(fields[5].value, SummaryValue::Count(0));
    let fields = SessionMessage::UpdateWorkspaceContext {
        context_text: "é".to_string(),
    }
    .describe();
    assert_eq!(fields[0].value, SummaryValue::Count(2));
    assert!(SessionMessage::Close.describe().is_empty());
}
