use acowork_runtime::conversation::entry::ConversationEntry;
use acowork_runtime::conversation::listing::SessionInfo;
use acowork_runtime::conversation::pages::PaginatedMessages;
use acowork_runtime::conversation::since::{ReadMessagesSinceResult, StreamingLineDelta};
use acowork_runtime::gateway::config::{
    choose_workspace, is_log_file, migration_progress, migration_report, next_action,
    read_chat_line, resolve_skill_mode, resource_cache_path, search_config_step, update_picture,
    ChatLine, EmbedConfig, LoopAction, MigrationOutcome, RecvOutcome, RuntimeResourceCache,
    SearchConfigStep, SkillMode,
};
use acowork_runtime::gateway::intents::{route_intent, IntentRoute, MessagesRequest};
use acowork_runtime::gateway::memory::{
    consolidation_age, extract_node_content, handle_memory_consolidate_query,
    handle_memory_delete_query, handle_memory_nodes_query, handle_memory_stats_query, memory_labels,
    CollectedStats, ConsolidationOutcome, DeleteOutcome, LabelCount, LabelledNodes,
    MemoryNodesQuery, RawNode, StatsOutcome,
};
use acowork_runtime::gateway::plans::{
    plan_intent, updated_agent_config, AgentConfig, ConfiguredOverrides, InboundMessage,
};
use acowork_runtime::gateway::replies::{
    activated_reply, agent_error, budget_refusal, chat_to_session, closed_reply, created_reply, deleted_reply,
    list_item, page_reply, plan_messages, read_failure, relay_intent, relay_target, session_response,
    since_reply, state_result, title_reply, total_pages, MessagesPlan,
};
use acowork_runtime::agent::session::messages::SessionMessage;
use acowork_runtime::ids::Moment;
use acowork_runtime::json::{json_text, parse_json, Json};

fn json(s: &str) -> Json {
    parse_json(s).unwrap()
}

#[test]
fn session_intents_are_routed() {
    let p = json(r#"{"request_id":"r","session_id":"s","page":2,"size":5}"#);
    assert_eq!(
        route_intent("list_sessions", &p),
        IntentRoute::ListSessions {
            request_id: "r".to_string(),
            page: Some(2),
            size: Some(5)
        }
    );
    assert_eq!(
        route_intent("close_session", &p),
        IntentRoute::CloseSession {
            request_id: "r".to_string(),
            session_id: "s".to_string()
        }
    );
    let none = json(r#"{"request_id":"r","session_id":""}"#);
    assert_eq!(
        route_intent("delete_session", &none),
        IntentRoute::Refuse {
            request_id: "r".to_string(),
            error: "Missing or empty session_id parameter".to_string()
        }
    );
    assert_eq!(route_intent("deactivate_session", &none), IntentRoute::Ignore);
    assert_eq!(route_intent("interrupt", &none), IntentRoute::Ignore);
    assert_eq!(
        route_intent("update_session_title", &json(r#"{"session_id":"s","title":"  "}"#)),
        IntentRoute::Refuse {
            request_id: String::new(),
            error: "Missing or empty title parameter".to_string()
        }
    );
    assert_eq!(
        route_intent("update_session_title", &json(r#"{"session_id":"s","title":" T "}"#)),
        IntentRoute::UpdateTitle {
            request_id: String::new(),
            session_id: "s".to_string(),
            title: "T".to_string()
        }
    );
    match route_intent("get_session_messages", &json(r#"{"session_id":"s"}"#)) {
        IntentRoute::GetMessages(r) => {
            assert_eq!(r.limit, 50);
            assert_eq!(r.direction, "backward");
            assert_eq!(r.line_number, None);
        }
        other => panic!("unexpected route {:?}", other),
    }
}

#[test]
fn intents_for_a_session_are_routed() {
    let p = json(r#"{"session_id":"s","model":"m","effort":"low","approved":true}"#);
    assert_eq!(
        route_intent("model_switch", &p),
        IntentRoute::SwitchModel {
            session_id: "s".to_string(),
            model: "m".to_string(),
            provider: None
        }
    );
    assert_eq!(
        route_intent("reasoning_effort", &p),
        IntentRoute::SetEffort {
            session_id: "s".to_string(),
            effort: "low".to_string()
        }
    );
    assert_eq!(
        route_intent("interrupt", &p),
        IntentRoute::Interrupt {
            session_id: "s".to_string(),
            reason: "unknown".to_string()
        }
    );
    assert_eq!(
        route_intent("continue_execution", &p),
        IntentRoute::ContinueExecution {
            session_id: "s".to_string(),
            reason: "user_requested".to_string()
        }
    );
    assert_eq!(
        route_intent("approval_decision", &p),
        IntentRoute::ApprovalDecision {
            session_id: "s".to_string(),
            request_id: String::new(),
            approved: true,
            allow_all_session: false,
            reason: None
        }
    );
    assert_eq!(
        route_intent("compact_context", &p),
        IntentRoute::CompactContext {
            session_id: "s".to_string()
        }
    );
    assert_eq!(
        route_intent("model_switch", &json(r#"{"session_id":"s"}"#)),
        IntentRoute::Ignore
    );
}

#[test]
fn other_intents_are_messages_of_the_user() {
    let p = json(r#"{"session_id":"s","content":"hi","documents":[{"abs_path":"/x"}]}"#);
    let chat = match route_intent("chat_message", &p) {
        IntentRoute::Chat(c) => c,
        other => panic!("unexpected route {:?}", other),
    };
    assert_eq!(chat.content, "hi");
    assert_eq!(chat.documents.as_ref().unwrap().len(), 1);
    assert!(budget_refusal(None, &chat).is_none());
    assert!(budget_refusal(Some(1), &chat).is_none());
    assert_eq!(
        json_text(&budget_refusal(Some(0), &chat).unwrap()),
        r#"{"content":"Budget exhausted — cannot process this message","message_id":"unknown"}"#
    );
    let now = Moment {
        text: String::new(),
        millis: 42,
        seconds: 0,
    };
    match chat_to_session(chat, &now, Some("skill".to_string()), None, None) {
        SessionMessage::ChatMessage {
            content,
            message_id,
            skill_instructions,
            ..
        } => {
            assert_eq!(content, "hi");
            assert_eq!(message_id, "msg-42");
            assert_eq!(skill_instructions.as_deref(), Some("skill"));
        }
        _ => panic!("unexpected message"),
    }
}

#[test]
fn replies_say_what_became_of_a_session() {
    assert_eq!(json_text(&created_reply("s", None)), r#"{"session_id":"s"}"#);
    assert_eq!(
        json_text(&created_reply("s", Some("full"))),
        r#"{"error":"Failed to create session: full"}"#
    );
    assert_eq!(
        json_text(&activated_reply("s", true, &None)),
        r#"{"session_id":"s","activated":true,"model":null,"provider":null,"workspace_id":null}"#
    );
    assert_eq!(
        json_text(&activated_reply("s", false, &None)),
        r#"{"error":"Session not found: s"}"#
    );
    assert_eq!(json_text(&closed_reply("s")), r#"{"closed":true,"session_id":"s"}"#);
    assert_eq!(
        json_text(&deleted_reply("s", None)),
        r#"{"deleted":true,"session_id":"s"}"#
    );
    assert_eq!(
        json_text(&deleted_reply("s", Some("busy"))),
        r#"{"error":"Failed to delete session: busy"}"#
    );
    assert_eq!(
        json_text(&title_reply("s", "T", true)),
        r#"{"session_id":"s","title":"T","updated":true}"#
    );
    assert_eq!(
        json_text(&session_response("r", closed_reply("s")).params),
        r#"{"request_id":"r","data":{"closed":true,"session_id":"s"}}"#
    );
    let reply = session_response("r", Json::Null);
    assert_eq!((reply.target.as_str(), reply.action.as_str()), ("http-api", "session_response"));
    assert!(reply.is_async);
    let told = agent_error("http-ws", Json::Null);
    assert_eq!((told.target.as_str(), told.action.as_str()), ("http-ws", "agent_error"));
    let asked = relay_intent("tool_approval_needed", Json::Null);
    assert_eq!(asked.target, "http-api");
    assert_eq!(relay_intent("agent_response", Json::Null).target, "http-ws");
    assert_eq!(
        json_text(&read_failure("x")),
        r#"{"error":"Failed to read messages: x"}"#
    );
    assert_eq!(relay_target("tool_approval_needed"), "http-api");
    assert_eq!(relay_target("agent_chunk"), "http-ws");
}

fn request(session_id: &str, line: Option<u64>) -> MessagesRequest {
    MessagesRequest {
        request_id: String::new(),
        session_id: session_id.to_string(),
        cursor: None,
        limit: 50,
        direction: "backward".to_string(),
        line_number: line,
        line_char_offset: None,
    }
}

#[test]
fn requests_for_messages_are_planned() {
    assert_eq!(
        plan_messages(&request("", None), true),
        MessagesPlan::Refuse("session_id is required".to_string())
    );
    assert_eq!(
        plan_messages(&request("s", None), false),
        MessagesPlan::Refuse("Session s not found".to_string())
    );
    assert_eq!(plan_messages(&request("s", None), true), MessagesPlan::Page);
    assert_eq!(
        plan_messages(&request("s", Some(4)), true),
        MessagesPlan::Since {
            line_number: 4,
            line_char_offset: 0
        }
    );
}

fn entry() -> ConversationEntry {
    ConversationEntry {
        id: "1".to_string(),
        ts: "t".to_string(),
        role: "user".to_string(),
        content: "hi".to_string(),
        metadata: None,
        kind: None,
    }
}

#[test]
fn messages_are_replied() {
    let r = ReadMessagesSinceResult {
        messages: vec![entry()],
        streaming: Some(StreamingLineDelta {
            line: 3,
            role: "assistant".to_string(),
            content: "x".to_string(),
            char_offset: 1,
        }),
        total_lines: 2,
    };
    assert_eq!(
        json_text(&since_reply(&r)),
        r#"{"messages":[{"id":"1","ts":"t","role":"user","content":"hi"}],"streaming":{"line":3,"role":"assistant","content":"x","char_offset":1},"total_lines":2}"#
    );
    let p = PaginatedMessages {
        messages: Vec::new(),
        cursor: Some("offset:9".to_string()),
        has_more: true,
    };
    assert_eq!(
        json_text(&page_reply(&p, 5)),
        r#"{"messages":[],"cursor":"offset:9","has_more":true,"total_lines":5}"#
    );
}

#[test]
fn listings_are_counted() {
    assert_eq!(total_pages(0, Some(0)), 1);
    assert_eq!(total_pages(20, None), 1);
    assert_eq!(total_pages(21, None), 2);
    assert_eq!(total_pages(6, Some(3)), 2);
    let info = SessionInfo {
        session_id: "s".to_string(),
        created_at: "c".to_string(),
        message_count: 1,
        title: None,
        corrupted: false,
        model: None,
        provider: None,
        workspace_id: Some("old".to_string()),
    };
    let item = list_item(info, None, "__agent_home__".to_string());
    assert_eq!(item.workspace_id, None);
    let none = state_result("r", "s", &None);
    assert!(!none.found);
    assert_eq!(none.session_id, "s");
}

fn node(id: u64, content: &str, created_at: i64) -> RawNode {
    RawNode {
        node_id: id,
        role: Some("user".to_string()),
        content: Some(content.to_string()),
        subject: None,
        predicate: None,
        object: None,
        name: None,
        action_pattern: None,
        key: None,
        value: None,
        created_at: Some(created_at),
        last_accessed_at: None,
        access_count: None,
        confidence: None,
        decay_score: None,
        status: None,
    }
}

fn query(keyword: &str, time_range: &str, page: u32, size: u32) -> MemoryNodesQuery {
    MemoryNodesQuery {
        page,
        size,
        node_type: String::new(),
        keyword: keyword.to_string(),
        time_range: time_range.to_string(),
    }
}

#[test]
fn memories_are_found_and_paged() {
    let now = Moment {
        text: String::new(),
        millis: 0,
        seconds: 100_000,
    };
    let groups = Some(vec![
        LabelledNodes {
            label: "Episodic".to_string(),
            nodes: vec![node(1, "Über Alles", 0), node(2, "other", 99_000), node(3, "more", 99_999)],
        },
        LabelledNodes {
            label: "Knowledge".to_string(),
            nodes: vec![node(4, "x", 0)],
        },
    ]);
    let r = handle_memory_nodes_query(&groups, &query("über", "", 1, 10), &now);
    assert_eq!(r.total, 1);
    assert_eq!(r.nodes[0].content, "[user] Über Alles");
    assert_eq!(r.nodes[0].status, "Active");
    assert_eq!(r.nodes[0].decay_score.literal, "1.0");
    let r = handle_memory_nodes_query(&groups, &query("", "1h", 0, 1), &now);
    assert_eq!(r.total, 2);
    assert_eq!(r.page, 1);
    assert_eq!(r.nodes.len(), 1);
    assert_eq!(r.nodes[0].node_id, 2);
    let r = handle_memory_nodes_query(&groups, &query("", "1h", 2, 1), &now);
    assert_eq!(r.nodes[0].node_id, 3);
    let r = handle_memory_nodes_query(&groups, &query("", "all", 1, 500), &now);
    assert_eq!(r.total, 4);
    assert_eq!(r.size, 100);
    let mut q = query("", "", 1, 10);
    q.node_type = "Knowledge".to_string();
    assert_eq!(handle_memory_nodes_query(&groups, &q, &now).total, 1);
    let r = handle_memory_nodes_query(&None, &query("", "", 3, 4), &now);
    assert_eq!((r.total, r.page, r.size), (0, 3, 4));
    assert_eq!(extract_node_content("Other", &node(1, "a", 0)), "Unknown");
}

#[test]
fn too_many_memories_are_not_listed() {
    let now = Moment {
        text: String::new(),
        millis: 0,
        seconds: 0,
    };
    let nodes: Vec<RawNode> = (0..10_001).map(|i| node(i, "a", 0)).collect();
    let groups = Some(vec![LabelledNodes {
        label: "Episodic".to_string(),
        nodes,
    }]);
    let r = handle_memory_nodes_query(&groups, &query("", "", 1, 10), &now);
    assert_eq!(r.total, 10_001);
    assert!(r.nodes.is_empty());
    let r = handle_memory_nodes_query(&groups, &query("a", "", 1, 10), &now);
    assert_eq!(r.nodes.len(), 10);
}

#[test]
fn memory_counts_and_deletions() {
    let r = handle_memory_stats_query(StatsOutcome::Collected(CollectedStats {
        label_counts: vec![
            LabelCount { label: "Episodic".to_string(), count: 3 },
            LabelCount { label: "Knowledge".to_string(), count: 4 },
        ],
        dormant_count: 1,
        purged_count: 2,
    }));
    assert_eq!(r.total_nodes, 7);
    assert_eq!(r.by_status[1].count, 2);
    assert_eq!(r.index_health, "healthy");
    assert_eq!(handle_memory_stats_query(StatsOutcome::NoStore).index_health, "no_store");
    assert_eq!(
        handle_memory_stats_query(StatsOutcome::Failed("io".to_string())).index_health,
        "error: io"
    );
    let d = handle_memory_delete_query(5, DeleteOutcome::Deleted(true));
    assert!(d.deleted);
    assert_eq!(d.message, "Node deleted");
    assert_eq!(
        handle_memory_delete_query(5, DeleteOutcome::Deleted(false)).message,
        "Node not found"
    );
    assert_eq!(
        handle_memory_delete_query(5, DeleteOutcome::NoStore).message,
        "Memory store not available"
    );
    assert_eq!(
        handle_memory_delete_query(5, DeleteOutcome::Failed("x".to_string())).message,
        "Error: x"
    );
    let c = handle_memory_consolidate_query(ConsolidationOutcome::Done {
        duration_ms: 9,
        upgraded: 1,
        kept_pending: 2,
        marked_dormant: 3,
    });
    assert!(c.started);
    assert_eq!(c.message, "Upgraded: 1, Kept pending: 2, Marked dormant: 3");
    assert!(!handle_memory_consolidate_query(ConsolidationOutcome::NoStore).started);
    assert_eq!(consolidation_age(true), 0);
    assert_eq!(consolidation_age(false), 1);
}

#[test]
fn the_cache_is_kept() {
    let mut c = RuntimeResourceCache::from_text(r#"{"mcp_list_version":3,"other":1}"#);
    assert_eq!(c.mcp_list_version, 3);
    assert_eq!(c.provider_list_version, 0);
    c.update_providers(7, json(r#"[{"id":"p"}]"#));
    c.update_search(8);
    c.update_user_profile(9);
    assert_eq!(
        json_text(&c.to_json()),
        r#"{"provider_list_version":7,"mcp_list_version":3,"search_list_version":8,"user_profile_version":9,"providers":[{"id":"p"}]}"#
    );
    assert_eq!(RuntimeResourceCache::from_json(&c.to_json()), c);
    assert_eq!(
        RuntimeResourceCache::from_text(r#"{"mcp_list_version":"x"}"#),
        RuntimeResourceCache::default()
    );
    assert_eq!(RuntimeResourceCache::from_text("no"), RuntimeResourceCache::default());
    assert_eq!(resource_cache_path("/w"), "/w/config/resource_cache.json");
    assert_eq!(resource_cache_path("/w/"), "/w/config/resource_cache.json");
}

#[test]
fn workspaces_and_pictures() {
    let known = vec!["a".to_string()];
    assert_eq!(choose_workspace("a", &known).workspace_id, "a");
    let pending = choose_workspace("b", &known);
    assert_eq!(pending.workspace_id, "__agent_home__");
    assert_eq!(pending.pending.as_deref(), Some("b"));
    assert_eq!(choose_workspace("__agent_home__", &known).pending, None);
    assert_eq!(update_picture(Some("x".to_string()), &None).as_deref(), Some("x"));
    assert_eq!(update_picture(Some("x".to_string()), &Some(String::new())), None);
    assert_eq!(
        update_picture(None, &Some("y".to_string())).as_deref(),
        Some("y")
    );
    assert_eq!(search_config_step(None), SearchConfigStep::Keep);
    assert_eq!(search_config_step(Some(String::new())), SearchConfigStep::Remove);
    assert_eq!(
        search_config_step(Some("{}".to_string())),
        SearchConfigStep::Replace("{}".to_string())
    );
    let e = EmbedConfig::from_text(
        r#"{"embed_endpoint":"http://e","embed_model_id":"m","embed_dimension":384}"#,
    )
    .unwrap();
    assert_eq!(e.embed_dimension, 384);
    assert!(EmbedConfig::from_text(r#"{"embed_endpoint":"e"}"#).is_none());
    assert!(is_log_file("20260503.log"));
    assert!(!is_log_file("x.LOG"));
}

#[test]
fn the_loop_ends_when_the_connection_is_lost() {
    assert_eq!(next_action(RecvOutcome::Handled), LoopAction::Continue);
    assert_eq!(next_action(RecvOutcome::Reconnected), LoopAction::Continue);
    assert_eq!(next_action(RecvOutcome::Lost), LoopAction::Break);
    assert_eq!(next_action(RecvOutcome::Failed), LoopAction::ContinueAfter(100));
    assert_eq!(
        resolve_skill_mode(SkillMode::Manual, Some(r#"{"progressive":true}"#)),
        SkillMode::Progressive
    );
    assert_eq!(resolve_skill_mode(SkillMode::Manual, Some("broken")), SkillMode::Manual);
    assert_eq!(
        resolve_skill_mode(SkillMode::Progressive, None),
        SkillMode::Progressive
    );
    assert_eq!(read_chat_line("  "), ChatLine::Nothing);
    assert_eq!(read_chat_line(" /quit \n"), ChatLine::Quit);
    assert_eq!(read_chat_line("/exit"), ChatLine::Quit);
    assert_eq!(read_chat_line(" hi "), ChatLine::Message("hi".to_string()));
}

#[test]
fn migrations_are_reported() {
    assert_eq!(
        json_text(&migration_progress("r", 1, 2)),
        r#"{"request_id":"r","processed":1,"total":2,"phase":"reembed"}"#
    );
    assert_eq!(
        json_text(&migration_report("r", &MigrationOutcome::Failed("x".to_string()))),
        r#"{"request_id":"r","success":false,"error":"x"}"#
    );
    assert_eq!(
        json_text(&migration_report(
            "r",
            &MigrationOutcome::Done {
                old_dim: 1,
                new_dim: 2,
                rebuilt: 3,
                skipped: 4,
                errors: 5
            }
        )),
        r#"{"request_id":"r","success":true,"old_dim":1,"new_dim":2,"rebuilt":3,"skipped":4,"errors":5}"#
    );
}

#[test]
fn intents_have_their_plans() {
    let p = json(r#"{"session_id":"s","model":"m","title":"T","reason":"why"}"#);
    let plan = plan_intent(route_intent("interrupt", &p));
    assert!(plan.urgent_stop);
    assert!(!plan.ensure_in_memory);
    assert_eq!(
        plan.inbound,
        Some(InboundMessage::Stop {
            reason: "why".to_string()
        })
    );
    let plan = plan_intent(route_intent("model_switch", &p));
    assert!(plan.ensure_in_memory);
    assert!(matches!(plan.message, Some(SessionMessage::ModelSwitch { .. })));
    let plan = plan_intent(route_intent("delete_session", &p));
    assert!(plan.close && plan.delete_file);
    assert!(matches!(plan.message, Some(SessionMessage::DisablePush)));
    let plan = plan_intent(route_intent("close_session", &p));
    assert!(plan.close && !plan.delete_file);
    let plan = plan_intent(route_intent("activate_session", &p));
    assert!(plan.ensure_in_memory);
    assert!(matches!(plan.message, Some(SessionMessage::EnablePush)));
    let plan = plan_intent(route_intent("question_answer", &p));
    assert!(plan.ensure_in_memory);
    assert!(matches!(plan.inbound, Some(InboundMessage::QuestionAnswer { .. })));
    let plan = plan_intent(route_intent("chat_message", &p));
    assert!(plan.ensure_in_memory);
    assert!(plan.message.is_none() && plan.inbound.is_none());
}

#[test]
fn the_agents_own_configuration_follows_the_gateway() {
    let current = AgentConfig {
        max_output_tokens: Some(1),
        max_iterations: None,
        temperature: None,
        system_prompt_override: None,
        shell_approval_threshold: None,
        avatar: Some("old".to_string()),
        builtin_avatar: Some("cat".to_string()),
    };
    let overrides = ConfiguredOverrides {
        max_output_tokens: None,
        max_iterations: Some(9),
        temperature: None,
        system_prompt_override: Some("p".to_string()),
        shell_approval_threshold: None,
    };
    let c = updated_agent_config(current, &overrides, &Some(String::new()), &None);
    assert_eq!(c.max_output_tokens, None);
    assert_eq!(c.max_iterations, Some(9));
    assert_eq!(c.avatar, None);
    assert_eq!(c.builtin_avatar.as_deref(), Some("cat"));
    assert_eq!(c.system_prompt_override.as_deref(), Some("p"));
}

#[test]
fn memories_are_looked_up_by_their_labels() {
    assert_eq!(
        memory_labels(),
        vec!["Episodic", "Knowledge", "Procedural", "Autobiographical"]
    );
}

#[test]
fn configurations_may_be_written_as_arrays() {
    let c = EmbedConfig::from_text(r#"["http://e","m",3]"#).unwrap();
    assert_eq!((c.embed_endpoint.as_str(), c.embed_dimension), ("http://e", 3));
    assert!(EmbedConfig::from_text(r#"["http://e","m"]"#).is_none());
    assert_eq!(RuntimeResourceCache::from_text("[7,8]").mcp_list_version, 8);
    assert_eq!(RuntimeResourceCache::from_text("[7,null]").provider_list_version, 0);
    assert_eq!(
        resolve_skill_mode(SkillMode::Manual, Some("[true]")),
        SkillMode::Progressive
    );
}
