use acowork_runtime::agent::session::restorer::{restore_history_from_jsonl, RestoreError};
use acowork_runtime::conversation::entry::{
    read_entry, CompactionEventMeta, ConversationEntry, ENTRY_KIND_COMPACTION,
};
use acowork_runtime::conversation::groups::{
    count_display_groups, trim_newest_display_groups, trim_oldest_display_groups,
};
use acowork_runtime::conversation::listing::{
    find_latest_session, names_session, read_session_metadata, session_page, SessionInfo,
};
use acowork_runtime::conversation::metadata::{metadata_of_line, SessionMetadata};
use acowork_runtime::conversation::pages::{
    page_backward, page_forward, parse_offset_cursor, read_messages_paginated, PlacedEntries,
};
use acowork_runtime::conversation::session::{
    generate_session_id, session_id_from, title_text, ConversationSession, SessionConfig,
};
use acowork_runtime::conversation::since::{
    count_jsonl_lines, read_messages_since, StreamingLine,
};
use acowork_runtime::conversation::tail::{page_end, Tail, BACKWARD_READ_CHUNK};
use acowork_runtime::conversation::writer::ConversationWriter;
use acowork_runtime::error::RuntimeError;
use acowork_runtime::json::{json_text, parse_json, Json, JsonNumber};
use acowork_runtime::message::MessageRole;

#[test]
fn test_generate_session_id() {
    let id = generate_session_id();
    let parts: Vec<&str> = id.split('_').collect();
    assert_eq!(
        parts.len(),
        3,
        "Session ID should have 3 parts separated by underscores"
    );
    assert_eq!(parts[0].len(), 8, "Date part should be 8 chars (YYYYMMDD)");
    assert_eq!(parts[1].len(), 6, "Time part should be 6 chars (HHMMSS)");
    assert_eq!(parts[2].len(), 6, "Short UUID should be 6 chars");
    assert!(
        parts[0].chars().all(|c| c.is_ascii_digit()),
        "Date should be digits"
    );
    assert!(
        parts[1].chars().all(|c| c.is_ascii_digit()),
        "Time should be digits"
    );
}

fn config(agent_id: &str) -> SessionConfig {
    SessionConfig {
        agent_id: agent_id.to_string(),
        workspace_id: None,
        model: None,
        provider: None,
    }
}

/// A file in memory, written as the writer of a conversation writes it.
struct Log {
    bytes: Vec<u8>,
    writer: ConversationWriter,
}

impl Log {
    fn new(meta: &SessionMetadata) -> Log {
        let mut line = meta.to_text();
        line.push('\n');
        let bytes = line.into_bytes();
        let writer = ConversationWriter::new(bytes.len() as u64);
        Log { bytes, writer }
    }

    fn append(&mut self, entry: &ConversationEntry) {
        let at = self.bytes.len() as u64;
        self.bytes
            .extend_from_slice(ConversationWriter::write_entry(entry).as_bytes());
        self.writer.entry_written(entry, at);
    }

    fn update(&mut self, meta: SessionMetadata) {
        let stamped = self.writer.stamped(meta);
        let text = String::from_utf8(self.bytes.clone()).unwrap();
        self.bytes = self.writer.rewrite_metadata(&stamped, &text).into_bytes();
    }

    fn lines(&self) -> Vec<String> {
        String::from_utf8(self.bytes.clone())
            .unwrap()
            .lines()
            .map(|s| s.to_string())
            .collect()
    }
}

#[test]
fn test_conversation_writer_basic() {
    let session_id = generate_session_id();
    let agent_id = "com.test.agent";
    let (session, meta) = ConversationSession::new(&session_id, config(agent_id));
    let mut log = Log::new(&meta);
    log.append(&session.append_message("user", "Hello", None));
    log.append(&session.append_message(
        "assistant",
        "Hi there!",
        parse_json(r#"{"model": "test-model"}"#),
    ));
    log.append(&session.append_message("tool_call", r#"{"path": "test.txt"}"#, None));

    let lines = log.lines();
    assert_eq!(lines.len(), 4, "Should have 4 lines: metadata + 3 messages");

    let meta = metadata_of_line(&lines[0], "x");
    assert_eq!(meta.version, 2);
    assert_eq!(meta.session_id, session_id);
    assert_eq!(meta.agent_id, agent_id);

    let entry = read_entry(&lines[1]).unwrap();
    assert_eq!(entry.role, "user");
    assert_eq!(entry.content, "Hello");
    assert!(entry.metadata.is_none());

    let entry = read_entry(&lines[2]).unwrap();
    assert_eq!(entry.role, "assistant");
    assert_eq!(entry.content, "Hi there!");
    assert_eq!(entry.metadata, parse_json(r#"{"model": "test-model"}"#));

    let entry = read_entry(&lines[3]).unwrap();
    assert_eq!(entry.role, "tool_call");
    assert_eq!(entry.content, r#"{"path": "test.txt"}"#);
}

fn metadata(version: u32, session_id: &str, title: Option<&str>, count: u32) -> SessionMetadata {
    SessionMetadata {
        version,
        session_id: session_id.to_string(),
        created_at: "2026-05-03T10:00:00Z".to_string(),
        agent_id: "com.test".to_string(),
        title: title.map(|s| s.to_string()),
        updated_at: None,
        message_count: Some(count),
        corrupted: false,
        workspace_id: None,
        model: None,
        provider: None,
        reasoning_effort: None,
        temperature: None,
        last_input_tokens: None,
        last_output_tokens: None,
        last_compaction_offset: None,
    }
}

#[test]
fn test_find_latest_session() {
    let ids = vec![
        "20260503_100000_aaaaaa",
        "20260503_120000_bbbbbb",
        "20260503_110000_cccccc",
    ];
    let names: Vec<String> = ids.iter().map(|id| format!("{}.jsonl", id)).collect();
    let latest = find_latest_session(&names);
    assert_eq!(latest, Some("20260503_120000_bbbbbb".to_string()));
    assert_eq!(find_latest_session(&vec!["z.txt".to_string()]), None);
}

#[test]
fn test_read_messages_paginated() {
    let mut log = Log::new(&metadata(1, "20260503_100000_test01", None, 5));
    for i in 0..5 {
        log.append(&ConversationEntry {
            id: format!("msg-{}", i),
            ts: "2026-05-03T10:00:00Z".to_string(),
            role: if i % 2 == 0 { "user" } else { "assistant" }.to_string(),
            content: format!("Message {}", i),
            metadata: None,
            kind: None,
        });
    }
    let file = &log.bytes;

    let page = read_messages_paginated(file, None, 10, "backward").unwrap();
    assert_eq!(page.messages.len(), 5);
    assert!(!page.has_more);

    let page = read_messages_paginated(file, None, 2, "backward").unwrap();
    assert_eq!(page.messages.len(), 2);
    assert!(page.has_more);
    assert_eq!(page.messages[0].content, "Message 3");
    assert_eq!(page.messages[1].content, "Message 4");

    let cursor = page.cursor.unwrap();
    assert!(
        cursor.starts_with("offset:"),
        "Cursor should be offset format, got: {}",
        cursor
    );

    let page2 = read_messages_paginated(file, Some(cursor), 2, "backward").unwrap();
    assert_eq!(page2.messages.len(), 2);
    assert!(page2.has_more);
    assert_eq!(page2.messages[0].content, "Message 1");
    assert_eq!(page2.messages[1].content, "Message 2");

    let cursor2 = page2.cursor.unwrap();
    assert!(cursor2.starts_with("offset:"));
    let page3 = read_messages_paginated(file, Some(cursor2), 2, "backward").unwrap();
    assert_eq!(page3.messages.len(), 1);
    assert!(
        !page3.has_more,
        "No more messages after reaching the beginning"
    );
    assert_eq!(page3.messages[0].content, "Message 0");

    let fwd = read_messages_paginated(file, None, 3, "forward").unwrap();
    assert_eq!(fwd.messages.len(), 3);
    assert!(fwd.has_more);
    assert_eq!(fwd.messages[0].content, "Message 0");
    assert_eq!(fwd.messages[1].content, "Message 1");
    assert_eq!(fwd.messages[2].content, "Message 2");

    let fwd_cursor = fwd.cursor.unwrap();
    assert!(fwd_cursor.starts_with("offset:"));
    let fwd2 = read_messages_paginated(file, Some(fwd_cursor), 10, "forward").unwrap();
    assert_eq!(fwd2.messages.len(), 2);
    assert!(!fwd2.has_more);
    assert_eq!(fwd2.messages[0].content, "Message 3");
    assert_eq!(fwd2.messages[1].content, "Message 4");
}

#[test]
fn test_session_resume() {
    let session_id = "20260503_100000_resume";
    let agent_id = "com.test.resume";
    let (session, meta) = ConversationSession::new(session_id, config(agent_id));
    let mut log = Log::new(&meta);
    log.append(&session.append_message("user", "First message", None));

    let read = read_session_metadata(&log.bytes, Some(session_id)).unwrap();
    let resumed = ConversationSession::resume(session_id, &read);
    assert_eq!(resumed.session_id(), session_id);
    assert_eq!(resumed.agent_id(), agent_id);
    log.append(&resumed.append_message("assistant", "Resumed response", None));

    let lines = log.lines();
    assert_eq!(lines.len(), 3, "Should have metadata + 2 messages");
    assert_eq!(read_entry(&lines[1]).unwrap().content, "First message");
    assert_eq!(read_entry(&lines[2]).unwrap().content, "Resumed response");
}

#[test]
fn test_read_session_metadata_corrupted_recovery() {
    let session_id = "20260503_100000_corrupt1";
    let mut bytes = b"THIS IS NOT VALID JSON!!!\n".to_vec();
    let entry = ConversationEntry {
        id: "msg-1".to_string(),
        ts: "2026-05-03T10:00:00Z".to_string(),
        role: "user".to_string(),
        content: "Hello".to_string(),
        metadata: None,
        kind: None,
    };
    bytes.extend_from_slice(ConversationWriter::write_entry(&entry).as_bytes());

    let meta = read_session_metadata(&bytes, Some(session_id)).unwrap();
    assert!(
        meta.corrupted,
        "corrupted flag should be true for degraded metadata"
    );
    assert_eq!(
        meta.session_id, session_id,
        "session_id should be recovered from filename"
    );
    assert_eq!(meta.title, Some("(corrupted session)".to_string()));
    assert!(meta.created_at.is_empty());
    assert!(meta.agent_id.is_empty());

    let page = read_messages_paginated(&bytes, None, 10, "backward").unwrap();
    assert_eq!(
        page.messages.len(),
        1,
        "Should recover the valid message entry"
    );
    assert_eq!(page.messages[0].content, "Hello");
}

#[test]
fn test_read_session_metadata_valid_not_corrupted() {
    let session_id = "20260503_100000_valid01";
    let log = Log::new(&metadata(1, session_id, Some("Valid session"), 3));
    let read_meta = read_session_metadata(&log.bytes, Some(session_id)).unwrap();
    assert!(
        !read_meta.corrupted,
        "valid metadata should not be marked as corrupted"
    );
    assert_eq!(read_meta.session_id, session_id);
    assert_eq!(read_meta.title, Some("Valid session".to_string()));
}

#[test]
fn test_scan_sessions_includes_corrupted() {
    let valid_id = "20260503_100000_valid";
    let corrupt_id = "20260503_110000_corrupt";
    let files = vec![
        (
            format!("{}.jsonl", valid_id),
            Log::new(&metadata(1, valid_id, Some("Valid"), 0)).bytes,
        ),
        (
            format!("{}.jsonl", corrupt_id),
            b"BROKEN METADATA LINE\n".to_vec(),
        ),
    ];
    let names: Vec<String> = files.iter().map(|f| f.0.clone()).collect();
    let (listed, total) = session_page(&names, None, None);
    assert_eq!(total, 2);
    let sessions: Vec<SessionInfo> = listed
        .iter()
        .map(|n| {
            let bytes = &files.iter().find(|f| &f.0 == n).unwrap().1;
            let stem = n.strip_suffix(".jsonl");
            SessionInfo::of(read_session_metadata(bytes, stem).unwrap())
        })
        .collect();

    assert_eq!(
        sessions.len(),
        2,
        "Should find both valid and corrupted sessions"
    );
    let valid_session = sessions.iter().find(|s| s.session_id == valid_id).unwrap();
    assert!(!valid_session.corrupted);
    let corrupt_session = sessions
        .iter()
        .find(|s| s.session_id == corrupt_id)
        .unwrap();
    assert!(corrupt_session.corrupted);
    assert_eq!(
        corrupt_session.title,
        Some("(corrupted session)".to_string())
    );
}

#[test]
fn test_session_metadata_serde_backward_compatible() {
    let old_json = r#"{"version":1,"session_id":"test","created_at":"2026-01-01T00:00:00Z","agent_id":"com.test","title":null,"updated_at":null,"message_count":0}"#;
    let meta = SessionMetadata::from_json(&parse_json(old_json).unwrap()).unwrap();
    assert!(
        !meta.corrupted,
        "Missing 'corrupted' field should default to false"
    );
    assert_eq!(meta.session_id, "test");
}

#[test]
fn test_session_metadata_last_tokens_roundtrip() {
    let mut meta = metadata(2, "roundtrip_test", Some("Test session"), 5);
    meta.model = Some("gpt-4".to_string());
    meta.provider = Some("openai".to_string());
    meta.temperature = Some(JsonNumber {
        unsigned: None,
        literal: "0.7".to_string(),
    });
    meta.last_input_tokens = Some(45_000);
    meta.last_output_tokens = Some(1_200);
    let json = meta.to_text();
    let parsed = SessionMetadata::from_json(&parse_json(&json).unwrap()).unwrap();
    assert_eq!(parsed.last_input_tokens, Some(45_000));
    assert_eq!(parsed.last_output_tokens, Some(1_200));
    assert_eq!(
        parsed.last_compaction_offset, None,
        "field should default to None"
    );
    assert_eq!(parsed.version, 2);
    assert_eq!(parsed.model.as_deref(), Some("gpt-4"));
    assert_eq!(parsed, meta);
}

#[test]
fn test_session_metadata_last_tokens_missing_defaults_to_none() {
    let old_json = r#"{"version":1,"session_id":"old","created_at":"2026-01-01T00:00:00Z","agent_id":"com.test","title":null,"updated_at":null,"message_count":0}"#;
    let meta = SessionMetadata::from_json(&parse_json(old_json).unwrap()).unwrap();
    assert_eq!(meta.last_input_tokens, None, "should default to None");
    assert_eq!(meta.last_output_tokens, None, "should default to None");
}

fn write_test_jsonl(session_id: &str, entries: &[ConversationEntry]) -> Vec<u8> {
    let mut log = Log::new(&metadata(2, session_id, None, entries.len() as u32));
    for e in entries {
        log.append(e);
    }
    log.bytes
}

fn make_entry(id: &str, role: &str, content: &str) -> ConversationEntry {
    ConversationEntry {
        id: id.to_string(),
        ts: "2026-05-03T10:00:00Z".to_string(),
        role: role.to_string(),
        content: content.to_string(),
        metadata: None,
        kind: None,
    }
}

#[test]
fn display_group_count_plain_messages() {
    let entries = vec![
        make_entry("1", "user", "u1"),
        make_entry("2", "assistant", "a1"),
    ];
    assert_eq!(count_display_groups(&entries), 2);
}

#[test]
fn display_group_collapses_tool_sequence() {
    let entries = vec![
        make_entry("1", "user", "u1"),
        make_entry("2", "thought", "thinking…"),
        make_entry("3", "tool_call", "{…}"),
        make_entry("4", "tool_result", "result"),
        make_entry("5", "assistant", "done"),
    ];
    assert_eq!(count_display_groups(&entries), 3);
}

#[test]
fn display_group_multiple_tool_bursts() {
    let entries = vec![
        make_entry("1", "user", "u1"),
        make_entry("2", "thought", "t1"),
        make_entry("3", "tool_call", "tc1"),
        make_entry("4", "tool_result", "tr1"),
        make_entry("5", "thought", "t2"),
        make_entry("6", "tool_call", "tc2"),
        make_entry("7", "tool_result", "tr2"),
        make_entry("8", "assistant", "a1"),
        make_entry("9", "user", "u2"),
        make_entry("10", "thought", "t3"),
        make_entry("11", "tool_call", "tc3"),
        make_entry("12", "tool_result", "tr3"),
        make_entry("13", "assistant", "a2"),
    ];
    assert_eq!(count_display_groups(&entries), 6);
}

#[test]
fn backward_limit_respects_display_groups() {
    let entries = vec![
        make_entry("1", "user", "u1"),
        make_entry("2", "thought", "t1"),
        make_entry("3", "tool_call", "tc1"),
        make_entry("4", "tool_result", "tr1"),
        make_entry("5", "assistant", "a1"),
        make_entry("6", "user", "u2"),
        make_entry("7", "thought", "t2"),
        make_entry("8", "tool_call", "tc2"),
        make_entry("9", "tool_result", "tr2"),
        make_entry("10", "assistant", "a2"),
    ];
    let file = write_test_jsonl("sess-groups", &entries);

    let page = read_messages_paginated(&file, None, 6, "backward").unwrap();
    assert_eq!(page.messages.len(), 10, "6 groups → all entries");
    assert!(!page.has_more);

    let page = read_messages_paginated(&file, None, 2, "backward").unwrap();
    assert_eq!(page.messages.len(), 4, "2 groups → 4 entries");
    assert!(page.has_more);
    assert_eq!(page.messages[0].content, "t2");
    assert_eq!(page.messages[3].content, "a2");
}

#[test]
fn user_message_visible_with_tool_heavy_conversation() {
    let mut entries = vec![make_entry("1", "user", "user-msg")];
    for i in 0..20 {
        entries.push(make_entry(
            &format!("t{}", i * 3 + 2),
            "thought",
            &format!("think-{}", i),
        ));
        entries.push(make_entry(
            &format!("t{}", i * 3 + 3),
            "tool_call",
            &format!("call-{}", i),
        ));
        entries.push(make_entry(
            &format!("t{}", i * 3 + 4),
            "tool_result",
            &format!("result-{}", i),
        ));
    }
    entries.push(make_entry("last", "assistant", "final-reply"));
    let file = write_test_jsonl("sess-heavy", &entries);

    let page = read_messages_paginated(&file, None, 50, "backward").unwrap();
    assert_eq!(page.messages.len(), 62, "all entries should be in one page");
    assert!(!page.has_more);
    assert!(
        page.messages
            .iter()
            .any(|m| m.role == "user" && m.content == "user-msg"),
        "user message must be visible"
    );
}

#[test]
fn trim_oldest_keeps_exact_groups() {
    let entries = vec![
        make_entry("1", "user", "u1"),
        make_entry("2", "thought", "t1"),
        make_entry("3", "tool_call", "tc1"),
        make_entry("4", "tool_result", "tr1"),
        make_entry("5", "assistant", "a1"),
        make_entry("6", "user", "u2"),
    ];
    let split = trim_oldest_display_groups(&entries, 2);
    assert_eq!(split, 4);
    assert_eq!(entries[split].content, "a1");
}

fn make_compaction_entry(id: &str, summary: &str) -> ConversationEntry {
    ConversationEntry {
        id: id.to_string(),
        ts: "2026-05-03T10:00:00Z".to_string(),
        role: "system".to_string(),
        content: summary.to_string(),
        metadata: parse_json(
            r#"{"compacted_from_id":"first-id","compacted_to_id":"last-id","keep_last_rounds":3,"model":"test-model","before_tokens":1000,"after_tokens":200}"#,
        ),
        kind: Some(ENTRY_KIND_COMPACTION.to_string()),
    }
}

#[test]
fn display_group_compaction_is_standalone() {
    let entries = vec![
        make_entry("1", "user", "u1"),
        make_entry("2", "thought", "t1"),
        make_entry("3", "tool_call", "tc1"),
        make_compaction_entry("4", "<summary>compacted u1..tc1</summary>"),
        make_entry("5", "tool_result", "tr1"),
        make_entry("6", "assistant", "a1"),
    ];
    assert_eq!(count_display_groups(&entries), 5);

    let entries = vec![
        make_entry("1", "user", "u1"),
        make_entry("2", "assistant", "a1"),
        make_compaction_entry("3", "<summary>...</summary>"),
        make_entry("4", "user", "u2"),
        make_entry("5", "assistant", "a2"),
    ];
    assert_eq!(count_display_groups(&entries), 5);
}

fn is_marker(e: &ConversationEntry) -> bool {
    e.kind.as_deref() == Some(ENTRY_KIND_COMPACTION)
}

#[test]
fn pagination_shows_full_history_with_compaction() {
    let entries = vec![
        make_entry("1", "user", "old-u1"),
        make_entry("2", "assistant", "old-a1"),
        make_entry("3", "user", "old-u2"),
        make_entry("4", "assistant", "old-a2"),
        make_compaction_entry("5", "<summary>compacted old-u1..old-a2</summary>"),
        make_entry("6", "user", "new-u3"),
        make_entry("7", "assistant", "new-a3"),
    ];
    let file = write_test_jsonl("sess-compaction", &entries);

    let page = read_messages_paginated(&file, None, 50, "backward").unwrap();
    assert_eq!(page.messages.len(), 7, "display path must show full history");
    assert!(!page.has_more, "no more pages — entire file consumed");
    assert!(
        page.messages.iter().any(|m| m.content == "old-u1"),
        "pre-compaction history must be visible in display path"
    );
    assert_eq!(
        page.messages[4].kind.as_deref(),
        Some(ENTRY_KIND_COMPACTION),
        "compaction marker must be at index 4"
    );
    assert_eq!(page.messages[5].content, "new-u3");
    assert_eq!(page.messages[6].content, "new-a3");
}

#[test]
fn pagination_has_more_true_at_compaction_boundary() {
    let entries = vec![
        make_entry("1", "user", "old-u1"),
        make_entry("2", "assistant", "old-a1"),
        make_compaction_entry("3", "<summary>...</summary>"),
        make_entry("4", "user", "new-u2"),
        make_entry("5", "assistant", "new-a2"),
        make_entry("6", "user", "new-u3"),
        make_entry("7", "assistant", "new-a3"),
    ];
    let file = write_test_jsonl("sess-cap-boundary", &entries);

    let page1 = read_messages_paginated(&file, None, 2, "backward").unwrap();
    assert_eq!(page1.messages.len(), 2);
    assert_eq!(page1.messages[0].content, "new-u3");
    assert_eq!(page1.messages[1].content, "new-a3");
    assert!(page1.has_more, "more entries ahead (compaction + pre-compaction)");

    let page2 = read_messages_paginated(&file, page1.cursor.clone(), 50, "backward").unwrap();
    assert!(
        page2.messages.iter().any(is_marker),
        "page 2 must have the compaction marker"
    );
    assert!(
        page2.messages.iter().any(|m| m.content.starts_with("old-")),
        "page 2 must have pre-compaction history"
    );
    assert!(!page2.has_more, "no more pages — reached data section start");
}

#[test]
fn forward_pagination_with_stale_cursor() {
    let entries = vec![
        make_entry("1", "user", "old-u1"),
        make_entry("2", "assistant", "old-a1"),
        make_compaction_entry("3", "<summary>...</summary>"),
        make_entry("4", "user", "new-u2"),
        make_entry("5", "assistant", "new-a2"),
    ];
    let file = write_test_jsonl("sess-forward-clamp", &entries);

    let stale_cursor = Some("offset:0".to_string());
    let page = read_messages_paginated(&file, stale_cursor, 50, "forward").unwrap();
    assert_eq!(page.messages.len(), 5, "forward pagination must show full history");
    assert!(
        page.messages.iter().any(is_marker),
        "compaction marker must appear"
    );
    assert!(
        page.messages.iter().any(|m| m.content.starts_with("old-")),
        "pre-compaction history must be visible in forward pagination"
    );
}

#[test]
fn pagination_without_compaction_is_unchanged() {
    let entries = vec![
        make_entry("1", "user", "u1"),
        make_entry("2", "assistant", "a1"),
        make_entry("3", "user", "u2"),
        make_entry("4", "assistant", "a2"),
    ];
    let file = write_test_jsonl("sess-no-compaction", &entries);

    let page = read_messages_paginated(&file, None, 50, "backward").unwrap();
    assert_eq!(page.messages.len(), 4);
    assert!(!page.has_more);
}

#[test]
fn newest_groups_are_cut_off_whole() {
    let entries = vec![
        make_entry("1", "user", "u1"),
        make_entry("2", "thought", "t1"),
        make_entry("3", "tool_call", "tc1"),
        make_entry("4", "assistant", "a1"),
    ];
    assert_eq!(trim_newest_display_groups(&entries, 1), 1);
    assert_eq!(trim_newest_display_groups(&entries, 2), 3);
    assert_eq!(trim_newest_display_groups(&entries, 9), 4);
    assert_eq!(trim_newest_display_groups(&entries, 0), 0);
    assert_eq!(trim_oldest_display_groups(&entries, 0), 4);
}

#[test]
fn cursors_are_numbers_of_bytes() {
    assert_eq!(parse_offset_cursor("offset:42"), Some(42));
    assert_eq!(parse_offset_cursor("offset:18446744073709551615"), Some(u64::MAX));
    assert_eq!(parse_offset_cursor("offset:18446744073709551616"), None);
    assert_eq!(parse_offset_cursor("offset:"), None);
    assert_eq!(parse_offset_cursor("offset:4x"), None);
    assert_eq!(parse_offset_cursor("42"), None);
}

#[test]
fn pages_begin_where_a_line_begins_whatever_its_characters() {
    let entries: Vec<ConversationEntry> = (0..300)
        .map(|i| make_entry(&format!("{}", i), "user", &"多字节字符".repeat(40)))
        .collect();
    let file = write_test_jsonl("sess-wide", &entries);
    let mut ids: Vec<String> = Vec::new();
    let mut cursor: Option<String> = None;
    loop {
        let page = read_messages_paginated(&file, cursor, 7, "backward").unwrap();
        let mut older: Vec<String> = page.messages.iter().map(|m| m.id.clone()).collect();
        older.extend(ids);
        ids = older;
        if !page.has_more {
            break;
        }
        cursor = page.cursor;
    }
    let all: Vec<String> = entries.iter().map(|e| e.id.clone()).collect();
    assert_eq!(ids, all);
}

#[test]
fn entries_with_any_metadata_are_shown() {
    let mut e = make_entry("1", "user", "hi");
    e.metadata = parse_json(r#"{"version":1,"session_id":"x"}"#);
    let file = write_test_jsonl("sess-meta", &[e]);
    let page = read_messages_paginated(&file, None, 5, "backward").unwrap();
    assert_eq!(page.messages.len(), 1);
}

#[test]
fn pages_of_broken_files() {
    let mut file = write_test_jsonl("sess-broken", &[make_entry("1", "user", "a")]);
    file.extend_from_slice(&[0xff, 0xfe, b'\n']);
    assert_eq!(
        read_messages_paginated(&file, None, 5, "forward").err(),
        Some(RuntimeError::Io("stream did not contain valid UTF-8".to_string()))
    );
    let page = read_messages_paginated(&file, None, 5, "backward").unwrap();
    assert_eq!(page.messages.len(), 1);
    let bad = vec![0xff, b'\n', b'x'];
    assert!(read_messages_paginated(&bad, None, 5, "backward").is_err());
    assert!(read_session_metadata(&bad, None).is_err());
    let only = Log::new(&metadata(2, "s", None, 0)).bytes;
    let page = read_messages_paginated(&only, None, 5, "backward").unwrap();
    assert!(page.messages.is_empty());
    assert!(!page.has_more);
}

#[test]
fn a_page_of_placed_entries() {
    let placed = PlacedEntries {
        entries: vec![make_entry("1", "user", "a"), make_entry("2", "user", "b")],
        offsets: vec![10, 20],
        ends: vec![19, 29],
    };
    let page = page_backward(placed, 1, 10, false);
    assert_eq!(page.messages.len(), 1);
    assert_eq!(page.messages[0].id, "2");
    assert_eq!(page.cursor.as_deref(), Some("offset:20"));
    assert!(page.has_more);
}

#[test]
fn the_end_of_a_file_is_enough_for_its_last_page() {
    let mut entries = Vec::new();
    for i in 0..400 {
        let said = format!("message {i} é {}", "x".repeat(i % 97));
        entries.push(make_entry(&format!("{i}"), "user", &said));
    }
    let file = write_test_jsonl("sess-tail", &entries);
    let data = file.iter().position(|b| *b == b'\n').unwrap() as u64 + 1;
    let len = file.len() as u64;
    assert!(len > 4 * BACKWARD_READ_CHUNK);
    for limit in [0u32, 1, 5, 20, 60] {
        let mut cursor: Option<String> = None;
        let mut pages = 0;
        while pages < 4 {
            let whole = read_messages_paginated(&file, cursor.clone(), limit, "backward").unwrap();
            let end = page_end(&cursor, data, len).unwrap();
            let mut tail = Tail::new(data, end);
            while let Some((from, to)) = tail.missing(limit.min(50) as usize * 10) {
                tail = tail.with_chunk(file[from as usize..to as usize].to_vec());
            }
            if limit == 1 {
                assert!(tail.bytes.len() as u64 <= BACKWARD_READ_CHUNK);
            }
            assert_eq!(tail.page(limit), whole);
            if whole.cursor.is_none() {
                break;
            }
            cursor = whole.cursor;
            pages += 1;
        }
    }
    assert_eq!(page_end(&Some("offset:3".to_string()), data, len), None);
    assert_eq!(page_end(&None, data, len), Some(len));
    assert_eq!(page_end(&Some(format!("offset:{}", len + 9)), data, len), Some(len));
    assert_eq!(Tail::new(data, data).missing(10), None);
    assert_eq!(
        Tail::new(data, len).missing(10),
        Some((len - BACKWARD_READ_CHUNK, len))
    );
}

#[test]
fn a_page_ahead_goes_on_behind_its_last_line() {
    let placed = PlacedEntries {
        entries: vec![make_entry("1", "user", "a"), make_entry("2", "user", "b")],
        offsets: vec![10, 20],
        ends: vec![19, 29],
    };
    let page = page_forward(placed, 1, 30, false, 30);
    assert_eq!(page.cursor.as_deref(), Some("offset:20"));
    assert!(page.has_more);
    let placed = PlacedEntries {
        entries: vec![make_entry("2", "user", "b")],
        offsets: vec![20],
        ends: vec![29],
    };
    let page = page_forward(placed, 1, 29, false, 29);
    assert_eq!(page.cursor, None);
    assert!(!page.has_more);
    let none = || PlacedEntries { entries: vec![], offsets: vec![], ends: vec![] };
    assert_eq!(page_forward(none(), 1, 30, true, 90).cursor.as_deref(), Some("offset:30"));
    assert_eq!(page_backward(none(), 1, 30, true).cursor.as_deref(), Some("offset:30"));
    assert!(!page_backward(none(), 1, 30, false).has_more);
}

#[test]
fn there_is_no_more_where_nothing_can_be_read() {
    let mut file = write_test_jsonl("sess-bad", &[make_entry("1", "user", "u1")]);
    file.extend_from_slice(b"{bad");
    let page = read_messages_paginated(&file, None, 10, "forward").unwrap();
    assert_eq!(page.messages.len(), 1);
    assert_eq!(page.messages[0].content, "u1");
    assert!(!page.has_more);
    assert_eq!(page.cursor, None);
    let mut file = write_test_jsonl("sess-bad", &[]);
    file.extend_from_slice(b"{bad\n");
    let line = ConversationWriter::write_entry(&make_entry("1", "user", "u1"));
    file.extend_from_slice(line.as_bytes());
    let page = read_messages_paginated(&file, None, 10, "backward").unwrap();
    assert_eq!(page.messages.len(), 1);
    assert!(!page.has_more);
    assert_eq!(page.cursor, None);
}

fn read_all(file: &Vec<u8>, limit: u32, direction: &str) -> Vec<String> {
    let mut ids: Vec<String> = Vec::new();
    let mut cursor: Option<String> = None;
    loop {
        let page = read_messages_paginated(file, cursor, limit, direction).unwrap();
        assert_eq!(page.has_more, page.cursor.is_some());
        assert!(count_display_groups(&page.messages) <= limit as usize);
        let read: Vec<String> = page.messages.iter().map(|e| e.id.clone()).collect();
        if direction == "forward" {
            ids.extend(read);
        } else {
            ids.splice(0..0, read);
        }
        if !page.has_more {
            return ids;
        }
        cursor = page.cursor;
    }
}

#[test]
fn whoever_follows_the_cursors_reads_every_entry_once() {
    let mut file = write_test_jsonl("sess-all", &[]);
    let mut expected: Vec<String> = Vec::new();
    for i in 0..60 {
        let role = ["user", "thought", "tool_call", "tool_result", "assistant"][i % 5];
        let entry = make_entry(&i.to_string(), role, "x");
        file.extend_from_slice(ConversationWriter::write_entry(&entry).as_bytes());
        expected.push(entry.id);
        if i % 7 == 0 {
            file.extend_from_slice("{bad\n".repeat(i).as_bytes());
        }
    }
    for limit in [1, 2, 3, 50] {
        assert_eq!(read_all(&file, limit, "backward"), expected);
        assert_eq!(read_all(&file, limit, "forward"), expected);
    }
}

#[test]
fn a_resumed_writer_keeps_the_place_of_the_compaction() {
    let writer = ConversationWriter::resumed(100, Some(42));
    assert_eq!(writer.meta_end(), 100);
    let stamped = writer.stamped(metadata(1, "s", None, 1));
    assert_eq!(stamped.last_compaction_offset, Some(42));
    let fresh = ConversationWriter::new(100).stamped(metadata(1, "s", None, 1));
    assert_eq!(fresh.last_compaction_offset, None);
}

#[test]
fn members_may_be_written_as_an_array() {
    let e = read_entry(r#"["1","t","user","hi",null]"#).unwrap();
    assert_eq!((e.id.as_str(), e.content.as_str()), ("1", "hi"));
    assert_eq!((e.metadata, e.kind), (None, None));
    let e = read_entry(r#"["1","t","user","hi",{"a":1},"compaction"]"#).unwrap();
    assert!(e.is_compaction());
    assert!(read_entry(r#"["1","t","user","hi"]"#).is_none());
    assert!(read_entry(r#"["1","t","user","hi",null,null,null]"#).is_none());
    let line = r#"[1,"s","c","a",null,null,3,false,null,"m",null]"#;
    let read = metadata_of_line(line, "stem");
    assert_eq!(read.session_id, "s");
    assert_eq!(read.message_count, Some(3));
    assert_eq!(read.model.as_deref(), Some("m"));
    assert!(metadata_of_line(r#"[1,"s","c","a"]"#, "stem").corrupted);
}

#[test]
fn numbers_are_read_back() {
    for literal in ["0.7", "-1.5", "1e-7", "-3", "-9223372036854775808", "1e+20"] {
        let mut m = metadata(1, "s", Some("t"), 1);
        m.temperature = Some(JsonNumber { unsigned: None, literal: literal.to_string() });
        let read = metadata_of_line(&m.to_text(), "s");
        assert_eq!(read, m);
        let mut e = make_entry("1", "user", "x");
        e.metadata = Some(Json::Array(vec![Json::Number(JsonNumber {
            unsigned: None,
            literal: literal.to_string(),
        })]));
        assert_eq!(read_entry(&e.to_text()), Some(e));
    }
}

#[test]
fn news_since_a_line() {
    let entries = vec![
        make_entry("1", "user", "a"),
        make_entry("2", "assistant", "b"),
        make_entry("3", "user", "c"),
    ];
    let file = write_test_jsonl("sess-since", &entries);
    assert_eq!(count_jsonl_lines(&file), 4);
    assert_eq!(count_jsonl_lines(&Vec::new()), 0);
    let r = read_messages_since(&file, 1, 0, None, 0);
    assert_eq!(r.total_lines, 4);
    assert_eq!(r.messages.len(), 2);
    assert_eq!(r.messages[0].content, "b");
    assert!(r.streaming.is_none());
    let line = StreamingLine {
        line_number: 4,
        role: "assistant".to_string(),
        accumulated_content: "héllo".to_string(),
        started_at: String::new(),
        started_at_ms: 0,
    };
    let r = read_messages_since(&file, 9, 2, Some(&line), 4);
    assert!(r.messages.is_empty());
    let d = r.streaming.unwrap();
    assert_eq!(d.content, "llo");
    assert_eq!(d.char_offset, 5);
    assert_eq!(d.line, 4);
    let r = read_messages_since(&file, 9, 7, Some(&line), 4);
    assert_eq!(r.streaming.unwrap().content, "héllo");
}

#[test]
fn metadata_updates_keep_the_entries_and_their_places() {
    let (mut session, meta) = ConversationSession::new("s1", config("agent"));
    let mut log = Log::new(&meta);
    log.append(&session.append_message("user", "hello", None));
    let mark = session.append_compaction_event(
        "sum",
        &CompactionEventMeta {
            compacted_from_id: String::new(),
            compacted_to_id: "z".to_string(),
            keep_last_rounds: 3,
            model: "m".to_string(),
            before_tokens: 9,
            after_tokens: 1,
        },
    );
    let at = log.bytes.len() as u64;
    log.append(&mark);
    let relative = at - log.writer.meta_end();
    assert_eq!(log.writer.last_compaction_offset(), Some(relative));
    log.update(session.set_title("A long enough title, and more of it than fits").unwrap());
    let read = read_session_metadata(&log.bytes, Some("s1")).unwrap();
    assert_eq!(read.last_compaction_offset, Some(relative));
    assert_eq!(read.title.as_deref(), Some("A long enough title,"));
    let start = (log.writer.meta_end() + relative) as usize;
    let line = String::from_utf8(log.bytes[start..].to_vec()).unwrap();
    assert_eq!(read_entry(line.trim()).unwrap(), mark);
    assert_eq!(
        json_text(mark.metadata.as_ref().unwrap()),
        r#"{"compacted_to_id":"z","keep_last_rounds":3,"model":"m","before_tokens":9,"after_tokens":1}"#
    );
    let page = read_messages_paginated(&log.bytes, None, 9, "backward").unwrap();
    assert_eq!(page.messages.len(), 2);
}

#[test]
fn sessions_remember_what_was_chosen() {
    let (mut s, first) = ConversationSession::new("id", config("agent"));
    assert_eq!(first.message_count, Some(0));
    assert!(s.set_title("Hi").is_some());
    assert!(s.set_title("Other").is_none());
    assert!(s.update_title_force("Hi").is_none());
    let m = s
        .update_title_force("a title that is longer than thirty characters")
        .unwrap();
    assert_eq!(m.title.as_deref(), Some("a title that is longer than th..."));
    s.update_workspace_id("w");
    s.update_model_provider("m", Some("p"));
    s.update_reasoning_effort(Some("high".to_string()));
    s.update_temperature(Some(JsonNumber {
        unsigned: None,
        literal: "0.5".to_string(),
    }));
    let m = s.update_last_tokens(7, 8);
    assert_eq!(m.workspace_id.as_deref(), Some("w"));
    assert_eq!(m.model.as_deref(), Some("m"));
    assert_eq!(m.provider.as_deref(), Some("p"));
    assert_eq!(m.reasoning_effort.as_deref(), Some("high"));
    assert_eq!(m.last_input_tokens, Some(7));
    assert!(m.updated_at.is_some());
    let mut file = m.to_text().into_bytes();
    file.push(b'\n');
    let read = read_session_metadata(&file, None).unwrap();
    let again = ConversationSession::resume("id", &read);
    assert_eq!(again, s);
    let mut half = read;
    half.last_output_tokens = None;
    assert_eq!(ConversationSession::resume("id", &half).last_tokens(), Some((7, 0)));
}

#[test]
fn titles_are_cut_at_a_break() {
    assert_eq!(title_text("short"), "short");
    let exact = "123456789012345678901234567890";
    assert_eq!(title_text(exact), exact);
    assert_eq!(title_text("Hello there. This goes on and on and on"), "Hello there.");
    assert_eq!(
        title_text("abcdefghijklmnopqrstuvwxyzabcdefghij"),
        "abcdefghijklmnopqrstuvwxyzabcd..."
    );
    assert_eq!(
        title_text("abcdefghijklmnopqrstuvwxyzabc,efghij"),
        "abcdefghijklmnopqrstuvwxyzabc,..."
    );
    assert_eq!(title_text("你好，这是一个非常非常非常非常非常非常非常非常长的标题没有结尾"), "你好，");
    assert_eq!(session_id_from("20260503_100000", "a1b2c3d4-x"), "20260503_100000_a1b2c3");
}

#[test]
fn listings_are_sorted_and_paged() {
    let names: Vec<String> = ["b.jsonl", "a.JSONL", "c.txt", "d.jsonl", ".jsonl"]
        .iter()
        .map(|s| s.to_string())
        .collect();
    let (listed, total) = session_page(&names, None, None);
    assert_eq!(listed, vec!["d.jsonl", "b.jsonl", "a.JSONL"]);
    assert_eq!(total, 5);
    let (listed, _) = session_page(&names, Some(1), Some(2));
    assert_eq!(listed, vec!["d.jsonl"]);
    let (listed, _) = session_page(&names, Some(2), Some(2));
    assert_eq!(listed, vec!["b.jsonl", "a.JSONL"]);
    let many: Vec<String> = (0..60).map(|i| format!("{i:03}.jsonl")).collect();
    let (listed, _) = session_page(&many, Some(2), None);
    assert_eq!(listed.len(), 40);
    assert_eq!(listed[0], "039.jsonl");
    let (listed, _) = session_page(&many, Some(1), None);
    assert_eq!(listed.len(), 20);
    let (listed, _) = session_page(&names, Some(9), Some(2));
    assert!(listed.is_empty());
    assert!(names_session("x.jsonl"));
    assert!(!names_session("x.json"));
}

fn empty_config() -> SessionConfig {
    config("test")
}

#[test]
fn restore_simple_user_assistant_roundtrip() {
    let (session, meta) = ConversationSession::new("sess-simple", empty_config());
    let mut log = Log::new(&meta);
    log.append(&session.append_message("user", "hi", None));
    log.append(&session.append_message("assistant", "hello", None));

    let outcome = restore_history_from_jsonl(&log.bytes).unwrap();
    assert!(!outcome.had_compaction);
    assert_eq!(outcome.messages.len(), 2);
    assert!(matches!(outcome.messages[0].role, MessageRole::User));
    assert_eq!(outcome.messages[0].content, "hi");
    assert!(matches!(outcome.messages[1].role, MessageRole::Assistant));
    assert_eq!(outcome.messages[1].content, "hello");
}

#[test]
fn restore_drops_thought_lines() {
    let (session, meta) = ConversationSession::new("sess-thought", empty_config());
    let mut log = Log::new(&meta);
    log.append(&session.append_message("user", "q", None));
    log.append(&session.append_message("thought", "internal monologue", None));
    log.append(&session.append_message("assistant", "a", None));

    let outcome = restore_history_from_jsonl(&log.bytes).unwrap();
    assert_eq!(outcome.messages.len(), 2, "thought should not enter context");
    assert!(outcome
        .messages
        .iter()
        .all(|m| !matches!(m.role, MessageRole::System)));
    assert!(outcome.skipped_entry_count >= 1);
}

fn tool_meta(name: &str, id: &str) -> Option<Json> {
    parse_json(&format!(
        "{{\"tool_name\":\"{}\",\"tool_call_id\":\"{}\"}}",
        name, id
    ))
}

#[test]
fn restore_merges_tool_calls_onto_assistant() {
    let (session, meta) = ConversationSession::new("sess-tools", empty_config());
    let mut log = Log::new(&meta);
    log.append(&session.append_message("user", "list files", None));
    log.append(&session.append_message("assistant", "", None));
    log.append(&session.append_message(
        "tool_call",
        r#"{"path":"."}"#,
        tool_meta("glob_search", "tc_1"),
    ));
    log.append(&session.append_message(
        "tool_call",
        r#"{"path":"./src"}"#,
        tool_meta("glob_search", "tc_2"),
    ));
    log.append(&session.append_message(
        "tool_result",
        "a.rs\nb.rs",
        tool_meta("glob_search", "tc_1"),
    ));
    log.append(&session.append_message(
        "tool_result",
        "main.rs",
        tool_meta("glob_search", "tc_2"),
    ));

    let outcome = restore_history_from_jsonl(&log.bytes).unwrap();
    assert_eq!(outcome.messages.len(), 4);
    assert!(matches!(outcome.messages[0].role, MessageRole::User));
    assert!(matches!(outcome.messages[1].role, MessageRole::Assistant));
    let calls = outcome.messages[1].tool_calls.as_ref().unwrap();
    assert_eq!(calls.len(), 2);
    assert_eq!(calls[0].id, "tc_1");
    assert_eq!(calls[1].id, "tc_2");
    assert!(matches!(outcome.messages[2].role, MessageRole::Tool));
    assert_eq!(outcome.messages[2].tool_call_id.as_deref(), Some("tc_1"));
    assert!(matches!(outcome.messages[3].role, MessageRole::Tool));
    assert_eq!(outcome.messages[3].tool_call_id.as_deref(), Some("tc_2"));
}

#[test]
fn restore_drops_orphan_tool_result() {
    let (session, meta) = ConversationSession::new("sess-orphan", empty_config());
    let mut log = Log::new(&meta);
    log.append(&session.append_message("user", "q", None));
    log.append(&session.append_message("tool_result", "stale", tool_meta("x", "missing")));
    log.append(&session.append_message("assistant", "ok", None));

    let outcome = restore_history_from_jsonl(&log.bytes).unwrap();
    assert_eq!(outcome.messages.len(), 2);
    assert!(outcome.skipped_entry_count >= 1);
}

#[test]
fn restore_anchors_at_last_compaction() {
    let (session, meta) = ConversationSession::new("sess-compact", empty_config());
    let mut log = Log::new(&meta);
    for (role, content) in [
        ("user", "u1"),
        ("assistant", "a1"),
        ("user", "u2"),
        ("assistant", "a2"),
    ] {
        log.append(&session.append_message(role, content, None));
    }
    log.append(&session.append_compaction_event(
        "<summary>compacted u1..a2</summary>",
        &CompactionEventMeta {
            compacted_from_id: String::new(),
            compacted_to_id: String::new(),
            keep_last_rounds: 3,
            model: "test-model".into(),
            before_tokens: 1000,
            after_tokens: 100,
        },
    ));
    log.append(&session.append_message("user", "u3", None));
    log.append(&session.append_message("assistant", "a3", None));

    let outcome = restore_history_from_jsonl(&log.bytes).unwrap();
    assert!(outcome.had_compaction);
    assert_eq!(outcome.messages.len(), 3);
    assert!(matches!(outcome.messages[0].role, MessageRole::Assistant));
    assert_eq!(
        outcome.messages[0].name.as_deref(),
        Some("compaction_summary")
    );
    assert!(outcome.messages[0].content.contains("compacted u1..a2"));
    assert!(matches!(outcome.messages[1].role, MessageRole::User));
    assert_eq!(outcome.messages[1].content, "u3");
    assert!(matches!(outcome.messages[2].role, MessageRole::Assistant));
    assert_eq!(outcome.messages[2].content, "a3");
    assert_eq!(outcome.replayed_entry_count, 3);
    assert_eq!(outcome.skipped_entry_count, 4);
}

#[test]
fn restore_skips_corrupt_lines() {
    let (session, meta) = ConversationSession::new("sess-corrupt", empty_config());
    let mut log = Log::new(&meta);
    log.append(&session.append_message("user", "ok1", None));
    log.bytes.extend_from_slice(b"{not valid json\n");
    log.append(&session.append_message("user", "ok2", None));

    let outcome = restore_history_from_jsonl(&log.bytes).unwrap();
    assert_eq!(outcome.messages.len(), 2);
    assert!(outcome.skipped_entry_count >= 1);
}

#[test]
fn restore_honors_only_the_last_of_two_compactions() {
    let (session, meta) = ConversationSession::new("sess-two", empty_config());
    let mut log = Log::new(&meta);
    let mark = CompactionEventMeta {
        compacted_from_id: String::new(),
        compacted_to_id: String::new(),
        keep_last_rounds: 1,
        model: String::new(),
        before_tokens: 2,
        after_tokens: 1,
    };
    log.append(&session.append_message("system", "rules", None));
    log.append(&session.append_message("user", "u1", None));
    log.append(&session.append_compaction_event("first", &mark));
    log.append(&session.append_message("user", "u2", None));
    log.append(&session.append_compaction_event("second", &mark));
    log.append(&session.append_message("user", "u3", None));
    log.update(session.metadata_at("now".to_string()));
    let outcome = restore_history_from_jsonl(&log.bytes).unwrap();
    let said: Vec<&str> = outcome.messages.iter().map(|m| m.content.as_str()).collect();
    assert_eq!(said, vec!["rules", "second", "u3"]);
    assert_eq!(outcome.replayed_entry_count + outcome.skipped_entry_count, 6);
}

#[test]
fn a_file_that_is_not_text_is_not_restored() {
    let e = restore_history_from_jsonl(&vec![0xff, b'\n']).err().unwrap();
    assert_eq!(
        e,
        RestoreError::Io("stream did not contain valid UTF-8".to_string())
    );
    assert_eq!(e.message(), "io error: stream did not contain valid UTF-8");
}
