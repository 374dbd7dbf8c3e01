use acowork_runtime::json::{parse_json, Json};
use acowork_runtime::message::{ChatMessage, FunctionCall, MessageRole, ToolCall};
use acowork_runtime::providers::openai::{
    chat_token_count, convert_messages, convert_tools, openai_reasoning_str, parse_response,
    tool_schema, NativeResponseMessage, NativeToolCall, OpenAIProvider,
};
use acowork_runtime::providers::request::{
    api_error_message, build_request, judge_chat, judge_stream, read_reply, tool_value, Attempt,
    ReplyError, Verdict,
};
use acowork_runtime::providers::sse::{try_parse_sse_line, NativeUsage};
use acowork_runtime::providers::stream::SseReader;
use acowork_runtime::providers::types::{
    ChatRequest, ReasoningEffort, StreamError, StreamEvent,
};

fn json(s: &str) -> Json {
    parse_json(s).unwrap()
}

#[test]
fn test_convert_messages_basic() {
    let messages = vec![
        ChatMessage {
            role: MessageRole::System,
            content: "You are helpful.".to_string(),
            content_parts: None,
            reasoning_content: None,
            name: None,
            tool_call_id: None,
            tool_calls: None,
        },
        ChatMessage {
            role: MessageRole::User,
            content: "Hello".to_string(),
            content_parts: None,
            reasoning_content: None,
            name: None,
            tool_call_id: None,
            tool_calls: None,
        },
    ];

    let native = convert_messages(&messages);
    assert_eq!(native.len(), 2);
    assert_eq!(native[0].role, "system");
    assert_eq!(native[1].role, "user");
}

#[test]
fn test_convert_messages_with_tool_calls() {
    let messages = vec![ChatMessage {
        role: MessageRole::Assistant,
        content: "".to_string(),
        content_parts: None,
        reasoning_content: None,
        name: None,
        tool_call_id: None,
        tool_calls: Some(vec![ToolCall {
            id: "call_123".to_string(),
            call_type: "function".to_string(),
            function: FunctionCall {
                name: "weather".to_string(),
                arguments: "{\"city\":\"Shanghai\"}".to_string(),
            },
        }]),
    }];

    let native = convert_messages(&messages);
    assert_eq!(native[0].role, "assistant");
    assert!(native[0].tool_calls.is_some());
}

#[test]
fn test_provider_creation() {
    let provider = OpenAIProvider::new(None);
    assert_eq!(provider.name(), "openai");
    assert_eq!(provider.base_url, "https://api.openai.com/v1");

    let custom =
        OpenAIProvider::with_base_url(Some("https://api.deepseek.com/v1"), Some("sk-test"));
    assert_eq!(custom.base_url, "https://api.deepseek.com/v1");
}

#[test]
fn test_parse_response() {
    let msg = NativeResponseMessage {
        content: Some("Hello!".to_string()),
        reasoning_content: None,
        tool_calls: None,
    };
    let resp = parse_response(msg, None);
    assert_eq!(resp.content, "Hello!");
    assert!(resp.tool_calls.is_none());

    let msg_with_tc = NativeResponseMessage {
        content: None,
        reasoning_content: None,
        tool_calls: Some(vec![NativeToolCall {
            id: Some("call_1".to_string()),
            kind: None,
            function: FunctionCall {
                name: "calculator".to_string(),
                arguments: "{\"expr\":\"2+2\"}".to_string(),
            },
        }]),
    };
    let resp = parse_response(
        msg_with_tc,
        Some(NativeUsage {
            prompt_tokens: Some(10),
            completion_tokens: Some(5),
            prompt_tokens_details: None,
            completion_tokens_details: None,
        }),
    );
    assert!(resp.tool_calls.is_some());
    assert_eq!(resp.usage.as_ref().unwrap().total_tokens, 15);
}

#[test]
fn test_convert_tools_reads_parameters_field() {
    let tool_json = json(
        r#"{
            "name": "shell",
            "description": "Execute shell commands",
            "parameters": {
                "type": "object",
                "properties": {
                    "command": {
                        "type": "string",
                        "description": "The shell command to execute"
                    }
                },
                "required": ["command"]
            }
        }"#,
    );
    let cleaned = vec![tool_schema(&tool_json).unwrap().clone()];
    let tools = vec![tool_json];
    let native = convert_tools(Some(&tools), &cleaned).unwrap();

    assert_eq!(native.len(), 1);
    assert_eq!(native[0].kind, "function");
    assert_eq!(native[0].function.name, "shell");
    assert_eq!(native[0].function.description, "Execute shell commands");

    let params = &native[0].function.parameters;
    assert!(params.get("properties").is_some());
    assert!(params.get("properties").unwrap().get("command").is_some());

    let serialized = tool_value(&native[0]);
    assert_eq!(serialized.str_at("type").unwrap(), "function");
    let function = serialized.get("function").unwrap();
    assert!(function.get("parameters").is_some());
    assert!(function.get("name").is_some());
}

#[test]
fn test_convert_tools_fallback_when_parameters_missing() {
    let tool_json = json(
        r#"{"name": "no_params_tool", "description": "A tool without parameters"}"#,
    );
    assert!(tool_schema(&tool_json).is_none());
    let tools = vec![tool_json];
    let native = convert_tools(Some(&tools), &vec![Json::Null]).unwrap();

    assert_eq!(native.len(), 1);
    assert_eq!(native[0].function.name, "no_params_tool");
    assert_eq!(
        native[0].function.parameters,
        json(r#"{"type": "object", "properties": {}}"#)
    );
}

#[test]
fn addresses_and_efforts() {
    let mut p = OpenAIProvider::with_base_url_and_timeouts(Some("http://x/v1"), None, 1, 2, 3);
    assert_eq!(p.completions_url(), "http://x/v1/chat/completions");
    p.set_api_key("k".to_string());
    assert_eq!(p.api_key.as_deref(), Some("k"));
    assert_eq!(openai_reasoning_str(&ReasoningEffort::Low), Some("low"));
    assert_eq!(openai_reasoning_str(&ReasoningEffort::Off), Some("low"));
    assert_eq!(openai_reasoning_str(&ReasoningEffort::Max), Some("high"));
    assert_eq!(openai_reasoning_str(&ReasoningEffort::Auto), None);
}

#[test]
fn tokens_are_a_quarter_of_the_bytes() {
    let ms = vec![
        ChatMessage::user("abcd".to_string()),
        ChatMessage::user("e".to_string()),
    ];
    assert_eq!(chat_token_count(&ms), 2);
    assert_eq!(chat_token_count(&Vec::new()), 0);
}

fn request() -> ChatRequest {
    ChatRequest {
        model: "m".to_string(),
        messages: vec![ChatMessage::user("hi".to_string())],
        temperature: None,
        max_tokens: Some(7),
        tools: Some(vec![json(r#"{"name":"t","description":"d"}"#)]),
        reasoning_effort: Some(ReasoningEffort::High),
    }
}

#[test]
fn requests_drop_what_is_refused() {
    let native = build_request(request(), &vec![Json::Null], true);
    assert!(native.has_reasoning());
    let full = native.body(Attempt::Full);
    assert_eq!(full.str_at("model").as_deref(), Some("m"));
    assert_eq!(full.u64_at("max_tokens"), Some(7));
    assert!(full.get("tools").is_some());
    assert!(full.get("stream_options").is_some());
    let bare = native.body(Attempt::WithoutTools);
    assert!(bare.get("tools").is_none());
    assert!(bare.get("stream_options").is_none());
    assert_eq!(judge_chat(Attempt::Full, true, 200), Verdict::Accept);
    assert_eq!(judge_stream(Attempt::Full, true, 200), Verdict::Accept);
    assert_eq!(judge_chat(Attempt::Full, true, 401), Verdict::Refuse);
    assert!(matches!(judge_stream(Attempt::Full, true, 400), Verdict::Retry(_)));
    assert!(api_error_message("500", "broken", false).contains("broken"));
}

#[test]
fn replies_are_read() {
    let ok = read_reply(
        r#"{"choices":[{"message":{"content":"hey"},"finish_reason":"stop"}],"usage":{"prompt_tokens":1,"completion_tokens":2}}"#,
    )
    .unwrap();
    assert_eq!(ok.content, "hey");
    assert_eq!(ok.usage.unwrap().total_tokens, 3);
    assert_eq!(read_reply("nonsense").err(), Some(ReplyError::Unreadable));
    assert_eq!(read_reply(r#"{"choices":[]}"#).err(), Some(ReplyError::NoChoices));
    assert_eq!(
        read_reply(
            r#"{"choices":[{"message":{"content":"x"}}],"usage":{"prompt_tokens":18446744073709551615,"completion_tokens":2}}"#
        )
        .err(),
        Some(ReplyError::UsageTooLarge)
    );
}

#[test]
fn lines_of_a_stream_are_read() {
    let (events, usage, finish) =
        try_parse_sse_line(r#"data: {"choices":[{"delta":{"content":"hi"},"finish_reason":null}]}"#)
            .unwrap();
    assert_eq!(events.len(), 1);
    assert!(matches!(&events[0], StreamEvent::Content(t) if t == "hi"));
    assert!(usage.is_none());
    assert!(finish.is_none());
    let (events, _, _) = try_parse_sse_line(": comment").unwrap();
    assert!(events.is_empty());
}

#[test]
fn streams_are_read_across_chunks() {
    let mut r = SseReader::new();
    let first = r.on_bytes(b"data: {\"choices\":[{\"delta\":{\"content\":\"a<think>");
    assert!(first.is_empty());
    let second = r.on_bytes(b"b</think>c\"}}]}\n\n");
    let mut content = String::new();
    let mut reasoning = String::new();
    for e in &second {
        match e {
            StreamEvent::Content(t) => content.push_str(t),
            StreamEvent::ReasoningContent(t) => reasoning.push_str(t),
            _ => {}
        }
    }
    assert_eq!(content, "ac");
    assert_eq!(reasoning, "b");
    assert!(!r.is_done());
    let last = r.on_bytes(b"data: [DONE]\n");
    assert!(last.iter().any(|e| matches!(e, StreamEvent::Finished(_))));
    assert!(r.is_done());
}

#[test]
fn objects_may_be_written_as_arrays() {
    let (events, _, finish) = try_parse_sse_line(r#"data: [[[["hi"]]]]"#).unwrap();
    assert_eq!(events.len(), 1);
    assert!(matches!(&events[0], StreamEvent::Content(t) if t == "hi"));
    assert_eq!(finish, None);
    let (_, usage, finish) = try_parse_sse_line(r#"data: [[[[],"stop"]],[3,4,[1]]]"#).unwrap();
    assert_eq!(usage.unwrap().prompt_tokens, 3);
    assert_eq!(finish.as_deref(), Some("stop"));
    let (events, _, _) = try_parse_sse_line(r#"data: [[[["hi"],"stop",0]]]"#).unwrap();
    assert!(events.is_empty());
    let reply = read_reply(r#"[[[["yes",null,[["c1","function",["f","{}"]]]]]]]"#).unwrap();
    assert_eq!(reply.content, "yes");
    let calls = reply.tool_calls.unwrap();
    assert_eq!(calls[0].id, "c1");
    assert_eq!(calls[0].function.name, "f");
}

#[test]
fn what_is_held_back_comes_before_the_end() {
    let mut r = SseReader::new();
    let mut events =
        r.on_bytes(b"data: {\"choices\":[{\"delta\":{\"content\":\"x<\"}}]}\ndata: [DONE]\n");
    assert!(r.is_done());
    assert_eq!(events.len(), 3);
    assert!(matches!(&events[0], StreamEvent::Content(t) if t == "x"));
    assert!(matches!(&events[1], StreamEvent::Content(t) if t == "<"));
    assert!(matches!(&events[2], StreamEvent::Finished(_)));
    events = r.on_end();
    assert!(events.is_empty());
}

#[test]
fn a_line_that_is_out_of_range_breaks_a_stream_off() {
    let mut r = SseReader::new();
    let events = r.on_bytes(
        b"data: {\"choices\":[],\"usage\":{\"prompt_tokens\":18446744073709551615,\"completion_tokens\":1}}\n",
    );
    assert_eq!(events.len(), 1);
    assert!(matches!(&events[0], StreamEvent::Error(StreamError::Transport(_))));
    assert!(r.is_done());
}

#[test]
fn bytes_that_are_not_text_are_replaced() {
    let mut r = SseReader::new();
    let mut bytes = b"data: {\"choices\":[{\"delta\":{\"content\":\"x".to_vec();
    bytes.push(0xff);
    bytes.extend_from_slice(b"\"}}]}\n");
    let events = r.on_bytes(&bytes);
    assert_eq!(events.len(), 1);
    assert!(matches!(&events[0], StreamEvent::Content(t) if t == "x\u{fffd}"));
}

#[test]
fn broken_streams_end_with_an_error() {
    let mut r = SseReader::new();
    let e = r.on_silence(30);
    assert!(matches!(&e[0], StreamEvent::Error(StreamError::Silence(30))));
    let mut r = SseReader::new();
    let e = r.on_transport_error("reset");
    assert!(matches!(&e[0], StreamEvent::Error(StreamError::Transport(t)) if t.contains("reset")));
}
