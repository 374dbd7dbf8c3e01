//! The OpenAI chat completions protocol: how a request is written and what is
//! tried again when a provider refuses it.

use crate::ids;
use crate::json;
use crate::json::{Json, JsonMember};
use crate::message::{ChatMessage, ContentPart, FunctionCall, MessageRole, ToolCall};
use crate::message;
use crate::providers::sse;
use crate::providers::sse::NativeUsage;
use crate::providers::types::{ChatResponse, ReasoningEffort};
use crate::providers::types;
use crate::text;
use vstd::prelude::*;
use vstd::string::*;

verus! {

/// The default address of the service.
pub const DEFAULT_BASE_URL: &'static str = "https://api.openai.com/v1";

/// An OpenAI-compatible provider: where it is and how long it may take.
pub struct OpenAIProvider {
    pub base_url: String,
    pub api_key: Option<String>,
    pub request_timeout_secs: u64,
    pub connect_timeout_secs: u64,
    pub stream_read_timeout_secs: u64,
}

/// `s` without the slashes at its end.
pub open spec fn without_slashes(s: Seq<char>) -> Seq<char>
    decreases s.len(),
{
    if s.len() > 0 && s.last() == '/' {
        without_slashes(s.drop_last())
    } else {
        s
    }
}

/// What an optional string slice holds.
pub open spec fn opt_str(o: Option<&str>) -> Option<Seq<char>> {
    match o {
        Some(s) => Some(s@),
        None => None,
    }
}

/// The base address that `base_url` stands for.
pub open spec fn base_of(base_url: Option<&str>) -> Seq<char> {
    match base_url {
        Some(u) => without_slashes(u@),
        None => DEFAULT_BASE_URL@,
    }
}

fn cut_slashes(s: &str) -> (r: String)
    ensures
        r@ == without_slashes(s@),
{
    let v: Vec<char> = text::chars_of(s);
    let mut n: usize = v.len();
    proof {
        assert(v@.take(n as int) =~= v@);
    }
    while n > 0 && v[n - 1] == '/'
        invariant
            n <= v@.len(),
            without_slashes(v@) == without_slashes(v@.take(n as int)),
        decreases n,
    {
        proof {
            assert(v@.take(n as int).drop_last() =~= v@.take(n - 1));
        }
        n = n - 1;
    }
    proof {
        assert(v@.subrange(0, n as int) =~= v@.take(n as int));
    }
    text::string_of(&v, 0, n)
}

impl OpenAIProvider {
    /// A provider at the default address, with the default timeouts.
    pub fn new(api_key: Option<&str>) -> (r: OpenAIProvider)
        ensures
            r.base_url@ == DEFAULT_BASE_URL@,
            text::opt_text(r.api_key) == opt_str(api_key),
            r.request_timeout_secs == 600,
            r.connect_timeout_secs == 10,
            r.stream_read_timeout_secs == 45,
    {
        OpenAIProvider::with_base_url(None, api_key)
    }

    /// A provider at `base_url`, with the default timeouts.
    pub fn with_base_url(base_url: Option<&str>, api_key: Option<&str>) -> (r: OpenAIProvider)
        ensures
            r.base_url@ == base_of(base_url),
            text::opt_text(r.api_key) == opt_str(api_key),
            r.request_timeout_secs == 600,
            r.connect_timeout_secs == 10,
            r.stream_read_timeout_secs == 45,
    {
        OpenAIProvider::with_base_url_and_timeouts(base_url, api_key, 600, 10, 45)
    }

    /// A provider at `base_url`, or at the default address. Slashes at the end
    /// of the address are dropped.
    pub fn with_base_url_and_timeouts(
        base_url: Option<&str>,
        api_key: Option<&str>,
        request_timeout_secs: u64,
        connect_timeout_secs: u64,
        stream_read_timeout_secs: u64,
    ) -> (r: OpenAIProvider)
        ensures
            r.base_url@ == base_of(base_url),
            text::opt_text(r.api_key) == opt_str(api_key),
            r.request_timeout_secs == request_timeout_secs,
            r.connect_timeout_secs == connect_timeout_secs,
            r.stream_read_timeout_secs == stream_read_timeout_secs,
    {
        OpenAIProvider {
            base_url: match base_url {
                Some(u) => cut_slashes(u),
                None => DEFAULT_BASE_URL.to_string(),
            },
            api_key: match api_key {
                Some(k) => Some(k.to_string()),
                None => None,
            },
            request_timeout_secs,
            connect_timeout_secs,
            stream_read_timeout_secs,
        }
    }

    /// Sets the API key.
    pub fn set_api_key(&mut self, key: String)
        ensures
            *final(self) == (OpenAIProvider { api_key: Some(key), ..*old(self) }),
    {
        self.api_key = Some(key);
    }

    /// The name of the provider.
    pub fn name(&self) -> (r: &'static str)
        ensures
            r@ == "openai"@,
    {
        "openai"
    }

    /// The address of the chat completions.
    pub fn completions_url(&self) -> (r: String)
        ensures
            r@ == self.base_url@ + "/chat/completions"@,
    {
        let mut u: String = self.base_url.clone();
        u.append("/chat/completions");
        u
    }
}

/// The value of the field `reasoning_effort` for an effort. The protocol has no
/// value to turn thinking off, so the lowest stands for it; for `Auto` the
/// field is left out.
pub open spec fn reasoning_value(effort: ReasoningEffort) -> Option<Seq<char>> {
    match effort {
        ReasoningEffort::Auto => None,
        ReasoningEffort::Off => Some("low"@),
        ReasoningEffort::Low => Some("low"@),
        ReasoningEffort::Medium => Some("medium"@),
        ReasoningEffort::High => Some("high"@),
        ReasoningEffort::Max => Some("high"@),
    }
}

/// See `reasoning_value`.
pub fn openai_reasoning_str(effort: &ReasoningEffort) -> (r: Option<&'static str>)
    ensures
        opt_str(r) == reasoning_value(*effort),
{
    match effort {
        ReasoningEffort::Auto => None,
        ReasoningEffort::Off => Some("low"),
        ReasoningEffort::Low => Some("low"),
        ReasoningEffort::Medium => Some("medium"),
        ReasoningEffort::High => Some("high"),
        ReasoningEffort::Max => Some("high"),
    }
}

/// A tool call as the protocol writes it.
#[derive(Debug, PartialEq, Eq)]
pub struct NativeToolCall {
    pub id: Option<String>,
    pub kind: Option<String>,
    pub function: FunctionCall,
}

/// A message as the protocol writes it.
#[derive(Debug, PartialEq, Eq)]
pub struct NativeMessage {
    pub role: String,
    pub content: Option<Json>,
    pub reasoning_content: Option<String>,
    pub tool_call_id: Option<String>,
    pub tool_calls: Option<Vec<NativeToolCall>>,
}

/// What a tool call of the protocol holds.
pub struct NativeCallView {
    pub id: Option<Seq<char>>,
    pub kind: Option<Seq<char>>,
    pub name: Seq<char>,
    pub arguments: Seq<char>,
}

/// What a message of the protocol holds.
pub struct NativeMessageView {
    pub role: Seq<char>,
    pub content: Option<json::JsonView>,
    pub reasoning_content: Option<Seq<char>>,
    pub tool_call_id: Option<Seq<char>>,
    pub tool_calls: Option<Seq<NativeCallView>>,
}

impl View for NativeToolCall {
    type V = NativeCallView;

    open spec fn view(&self) -> NativeCallView {
        NativeCallView {
            id: text::opt_text(self.id),
            kind: text::opt_text(self.kind),
            name: self.function.name@,
            arguments: self.function.arguments@,
        }
    }
}

pub open spec fn native_calls(cs: Seq<NativeToolCall>) -> Seq<NativeCallView> {
    cs.map_values(|c: NativeToolCall| c@)
}

pub open spec fn opt_native_calls(o: Option<Vec<NativeToolCall>>) -> Option<Seq<NativeCallView>> {
    match o {
        Some(cs) => Some(native_calls(cs@)),
        None => None,
    }
}

impl View for NativeMessage {
    type V = NativeMessageView;

    open spec fn view(&self) -> NativeMessageView {
        NativeMessageView {
            role: self.role@,
            content: json::opt_view(self.content),
            reasoning_content: text::opt_text(self.reasoning_content),
            tool_call_id: text::opt_text(self.tool_call_id),
            tool_calls: opt_native_calls(self.tool_calls),
        }
    }
}

pub open spec fn native_messages(ms: Seq<NativeMessage>) -> Seq<NativeMessageView> {
    ms.map_values(|m: NativeMessage| m@)
}

/// The JSON of a part of a multimodal message.
pub open spec fn part_json(p: message::ContentPartView) -> json::JsonView {
    match p {
        message::ContentPartView::Text(s) => json::JsonView::Object(
            seq![
                ("type"@, json::JsonView::Text("text"@)),
                ("text"@, json::JsonView::Text(s)),
            ],
        ),
        message::ContentPartView::ImageUrl(url, detail) => json::JsonView::Object(
            seq![
                ("type"@, json::JsonView::Text("image_url"@)),
                (
                    "image_url"@,
                    json::JsonView::Object(
                        json::with_opt_text(
                            seq![("url"@, json::JsonView::Text(url))],
                            "detail"@,
                            detail,
                        ),
                    ),
                ),
            ],
        ),
    }
}

/// The content of a message: the array of its parts, or its text where it has
/// no parts.
pub open spec fn content_json(m: message::MessageView) -> json::JsonView {
    match m.content_parts {
        Some(ps) => json::JsonView::Array(ps.map_values(|p: message::ContentPartView| part_json(p))),
        None => json::JsonView::Text(m.content),
    }
}

fn part_value(p: &ContentPart) -> (r: Json)
    ensures
        r@ == part_json(p@),
{
    let mut m: Vec<JsonMember> = json::no_members();
    match p {
        ContentPart::Text { text } => {
            json::add_member(&mut m, "type", json::text_value("text"));
            json::add_member(&mut m, "text", json::text_value(text.as_str()));
        },
        ContentPart::ImageUrl { image_url } => {
            let mut img: Vec<JsonMember> = json::no_members();
            json::add_member(&mut img, "url", json::text_value(image_url.url.as_str()));
            proof {
                assert(json::member_views(img@) =~= seq![
                    ("url"@, json::JsonView::Text(image_url.url@)),
                ]);
            }
            json::add_opt_text(&mut img, "detail", &image_url.detail);
            json::add_member(&mut m, "type", json::text_value("image_url"));
            json::add_member(&mut m, "image_url", json::object_value(img));
        },
    }
    proof {
        assert(json::member_views(m@) =~= part_json(p@)->Object_0);
    }
    json::object_value(m)
}

/// The content of a message as the protocol writes it, see `content_json`.
pub fn build_content_value(m: &ChatMessage) -> (r: Json)
    ensures
        r@ == content_json(m@),
{
    match &m.content_parts {
        Some(parts) => {
            let ghost goal: Seq<json::JsonView> = message::part_views(parts@).map_values(
                |p: message::ContentPartView| part_json(p),
            );
            let mut a: Vec<Json> = Vec::new();
            let mut i: usize = 0;
            proof {
                assert(json::views(a@) =~= goal.take(0));
            }
            while i < parts.len()
                invariant
                    i <= parts@.len(),
                    goal == message::part_views(parts@).map_values(
                        |p: message::ContentPartView| part_json(p),
                    ),
                    json::views(a@) == goal.take(i as int),
                decreases parts@.len() - i,
            {
                json::add_element(&mut a, part_value(&parts[i]));
                proof {
                    assert(json::views(a@) =~= goal.take(i + 1));
                }
                i = i + 1;
            }
            proof {
                assert(goal.take(goal.len() as int) =~= goal);
            }
            json::array_value(a)
        },
        None => json::text_value(m.content.as_str()),
    }
}

/// The name of a role in the protocol.
pub open spec fn role_name(role: MessageRole) -> Seq<char> {
    match role {
        MessageRole::System => "system"@,
        MessageRole::User => "user"@,
        MessageRole::Assistant => "assistant"@,
        MessageRole::Tool => "tool"@,
    }
}

/// A tool result as the protocol writes it, where `legacy` is what its content
/// denotes as JSON. A result without the id of its call may carry that id and
/// its text in a JSON object.
pub open spec fn native_result(
    m: message::MessageView,
    legacy: Option<json::JsonView>,
) -> NativeMessageView {
    NativeMessageView {
        role: role_name(MessageRole::Tool),
        content: Some(
            json::JsonView::Text(
                if m.tool_call_id is Some || legacy is None {
                    m.content
                } else {
                    match legacy->0.str_at("content"@) {
                        Some(s) => s,
                        None => Seq::empty(),
                    }
                },
            ),
        ),
        reasoning_content: None,
        tool_call_id: if m.tool_call_id is Some || legacy is None {
            m.tool_call_id
        } else {
            legacy->0.str_at("tool_call_id"@)
        },
        tool_calls: None,
    }
}

/// A tool call as the protocol writes it.
pub open spec fn native_call(c: message::ToolCallView) -> NativeCallView {
    NativeCallView {
        id: Some(c.id),
        kind: Some(c.call_type),
        name: c.name,
        arguments: c.arguments,
    }
}

/// A message other than a tool result as the protocol writes it. The content
/// of an assistant message with tool calls is left out where it is empty.
pub open spec fn native_turn(m: message::MessageView) -> NativeMessageView {
    let calling = m.role == MessageRole::Assistant && m.tool_calls is Some;
    NativeMessageView {
        role: role_name(m.role),
        content: if calling && m.content.len() == 0 && m.content_parts is None {
            None
        } else {
            Some(content_json(m))
        },
        reasoning_content: m.reasoning_content,
        tool_call_id: None,
        tool_calls: if calling {
            Some(m.tool_calls->0.map_values(|c: message::ToolCallView| native_call(c)))
        } else {
            None
        },
    }
}

/// A message as the protocol writes it.
pub open spec fn native_message(m: message::MessageView) -> NativeMessageView {
    if m.role == MessageRole::Tool {
        native_result(m, json::json_of_text(m.content))
    } else {
        native_turn(m)
    }
}

/// The name of a role in the protocol, see `role_name`.
fn role_str(role: MessageRole) -> (r: &'static str)
    ensures
        r@ == role_name(role),
{
    match role {
        MessageRole::System => "system",
        MessageRole::User => "user",
        MessageRole::Assistant => "assistant",
        MessageRole::Tool => "tool",
    }
}

/// A tool result as the protocol writes it, see `native_result`.
pub fn convert_tool_result(m: &ChatMessage, legacy: Option<&Json>) -> (r: NativeMessage)
    ensures
        r@ == native_result(
            m@,
            match legacy {
                Some(v) => Some(v@),
                None => None,
            },
        ),
{
    let mut content: String = m.content.clone();
    let mut tool_call_id: Option<String> = message::clone_opt(&m.tool_call_id);
    if m.tool_call_id.is_none() {
        if let Some(v) = legacy {
            tool_call_id = v.str_at("tool_call_id");
            content = match v.str_at("content") {
                Some(s) => s,
                None => String::new(),
            };
        }
    }
    NativeMessage {
        role: role_str(MessageRole::Tool).to_string(),
        content: Some(Json::Text(content)),
        reasoning_content: None,
        tool_call_id,
        tool_calls: None,
    }
}

fn convert_calls(calls: &Vec<ToolCall>) -> (r: Vec<NativeToolCall>)
    ensures
        native_calls(r@) == message::call_views(calls@).map_values(
            |c: message::ToolCallView| native_call(c),
        ),
{
    let ghost goal: Seq<NativeCallView> = message::call_views(calls@).map_values(
        |c: message::ToolCallView| native_call(c),
    );
    let mut out: Vec<NativeToolCall> = Vec::new();
    let mut i: usize = 0;
    proof {
        assert(native_calls(out@) =~= goal.take(0));
    }
    while i < calls.len()
        invariant
            i <= calls@.len(),
            goal == message::call_views(calls@).map_values(
                |c: message::ToolCallView| native_call(c),
            ),
            native_calls(out@) == goal.take(i as int),
        decreases calls@.len() - i,
    {
        let c: NativeToolCall = NativeToolCall {
            id: Some(calls[i].id.clone()),
            kind: Some(calls[i].call_type.clone()),
            function: calls[i].function.clone(),
        };
        proof {
            assert(native_calls(out@.push(c)) =~= native_calls(out@).push(c@));
            assert(c@ == goal[i as int]);
        }
        out.push(c);
        proof {
            assert(native_calls(out@) =~= goal.take(i + 1));
        }
        i = i + 1;
    }
    proof {
        assert(goal.take(goal.len() as int) =~= goal);
    }
    out
}

/// A message as the protocol writes it, see `native_message`.
pub fn convert_message(m: &ChatMessage) -> (r: NativeMessage)
    ensures
        r@ == native_message(m@),
{
    if m.role == MessageRole::Tool {
        let legacy: Option<Json> = json::parse_json(m.content.as_str());
        return match &legacy {
            Some(v) => convert_tool_result(m, Some(v)),
            None => convert_tool_result(m, None),
        };
    }
    let mut tool_calls: Option<Vec<NativeToolCall>> = None;
    if m.role == MessageRole::Assistant {
        if let Some(calls) = &m.tool_calls {
            tool_calls = Some(convert_calls(calls));
        }
    }
    let content: Option<Json> = if tool_calls.is_some() && m.content.as_str().is_empty()
        && m.content_parts.is_none() {
        None
    } else {
        Some(build_content_value(m))
    };
    NativeMessage {
        role: role_str(m.role).to_string(),
        content,
        reasoning_content: message::clone_opt(&m.reasoning_content),
        tool_call_id: None,
        tool_calls,
    }
}

/// The messages as the protocol writes them, each by `native_message`.
pub fn convert_messages(messages: &Vec<ChatMessage>) -> (r: Vec<NativeMessage>)
    ensures
        native_messages(r@) == message::message_views(messages@).map_values(
            |m: message::MessageView| native_message(m),
        ),
{
    let ghost goal: Seq<NativeMessageView> = message::message_views(messages@).map_values(
        |m: message::MessageView| native_message(m),
    );
    let mut out: Vec<NativeMessage> = Vec::new();
    let mut i: usize = 0;
    proof {
        assert(native_messages(out@) =~= goal.take(0));
    }
    while i < messages.len()
        invariant
            i <= messages@.len(),
            goal == message::message_views(messages@).map_values(
                |m: message::MessageView| native_message(m),
            ),
            native_messages(out@) == goal.take(i as int),
        decreases messages@.len() - i,
    {
        let m: NativeMessage = convert_message(&messages[i]);
        proof {
            assert(native_messages(out@.push(m)) =~= native_messages(out@).push(m@));
            assert(m@ == goal[i as int]);
        }
        out.push(m);
        proof {
            assert(native_messages(out@) =~= goal.take(i + 1));
        }
        i = i + 1;
    }
    proof {
        assert(goal.take(goal.len() as int) =~= goal);
    }
    out
}

/// A tool as the protocol writes it.
#[derive(Debug, PartialEq, Eq)]
pub struct NativeToolFunctionSpec {
    pub name: String,
    pub description: String,
    pub parameters: Json,
}

/// A tool as the protocol writes it, with its kind.
#[derive(Debug, PartialEq, Eq)]
pub struct NativeToolSpec {
    pub kind: String,
    pub function: NativeToolFunctionSpec,
}

/// What a tool of the protocol holds.
pub struct NativeToolView {
    pub kind: Seq<char>,
    pub name: Seq<char>,
    pub description: Seq<char>,
    pub parameters: json::JsonView,
}

impl View for NativeToolSpec {
    type V = NativeToolView;

    open spec fn view(&self) -> NativeToolView {
        NativeToolView {
            kind: self.kind@,
            name: self.function.name@,
            description: self.function.description@,
            parameters: self.function.parameters@,
        }
    }
}

pub open spec fn native_tools(ts: Seq<NativeToolSpec>) -> Seq<NativeToolView> {
    ts.map_values(|t: NativeToolSpec| t@)
}

pub open spec fn opt_native_tools(o: Option<Vec<NativeToolSpec>>) -> Option<Seq<NativeToolView>> {
    match o {
        Some(ts) => Some(native_tools(ts@)),
        None => None,
    }
}

/// The schema of a tool without parameters.
pub open spec fn empty_schema() -> json::JsonView {
    json::JsonView::Object(
        seq![
            ("type"@, json::JsonView::Text("object"@)),
            ("properties"@, json::JsonView::Object(Seq::empty())),
        ],
    )
}

/// The parameters of a tool definition, where they are an object.
pub open spec fn schema_of(tool: json::JsonView) -> Option<json::JsonView> {
    match tool.get("parameters"@) {
        Some(json::JsonView::Object(m)) => Some(json::JsonView::Object(m)),
        _ => None,
    }
}

/// A tool definition as the protocol writes it, where `cleaned` is its schema
/// as the protocol accepts it. A definition whose parameters are no object gets
/// the empty schema.
pub open spec fn native_tool(tool: json::JsonView, cleaned: json::JsonView) -> NativeToolView {
    NativeToolView {
        kind: "function"@,
        name: match tool.str_at("name"@) {
            Some(s) => s,
            None => "unknown"@,
        },
        description: match tool.str_at("description"@) {
            Some(s) => s,
            None => Seq::empty(),
        },
        parameters: if schema_of(tool) is Some {
            cleaned
        } else {
            empty_schema()
        },
    }
}

/// The parameters of a tool definition, where they are an object: the schema
/// that is to be cleaned.
pub fn tool_schema(tool: &Json) -> (r: Option<&Json>)
    ensures
        match r {
            Some(p) => schema_of(tool@) == Some(p@),
            None => schema_of(tool@) is None,
        },
{
    match tool.get("parameters") {
        Some(p) => match p {
            Json::Object(_) => Some(p),
            _ => None,
        },
        None => None,
    }
}

fn empty_schema_value() -> (r: Json)
    ensures
        r@ == empty_schema(),
{
    let mut m: Vec<JsonMember> = json::no_members();
    json::add_member(&mut m, "type", json::text_value("object"));
    json::add_member(&mut m, "properties", json::object_value(json::no_members()));
    proof {
        assert(json::member_views(m@) =~= empty_schema()->Object_0);
    }
    json::object_value(m)
}

/// A tool definition as the protocol writes it, see `native_tool`.
pub fn convert_tool(tool: &Json, cleaned: &Json) -> (r: NativeToolSpec)
    ensures
        r@ == native_tool(tool@, cleaned@),
{
    NativeToolSpec {
        kind: "function".to_string(),
        function: NativeToolFunctionSpec {
            name: match tool.str_at("name") {
                Some(s) => s,
                None => "unknown".to_string(),
            },
            description: match tool.str_at("description") {
                Some(s) => s,
                None => String::new(),
            },
            parameters: if tool_schema(tool).is_some() {
                cleaned.clone()
            } else {
                empty_schema_value()
            },
        },
    }
}

/// The tool definitions as the protocol writes them.
pub open spec fn native_tools_of(
    tools: Seq<json::JsonView>,
    cleaned: Seq<json::JsonView>,
) -> Seq<NativeToolView> {
    Seq::new(tools.len(), |i: int| native_tool(tools[i], cleaned[i]))
}

/// The tool definitions as the protocol writes them, where `cleaned` holds the
/// cleaned schema of each.
pub fn convert_tools(tools: Option<&Vec<Json>>, cleaned: &Vec<Json>) -> (r: Option<
    Vec<NativeToolSpec>,
>)
    requires
        tools matches Some(ts) ==> ts@.len() == cleaned@.len(),
    ensures
        opt_native_tools(r) == (match tools {
            Some(ts) => Some(native_tools_of(json::views(ts@), json::views(cleaned@))),
            None => None,
        }),
{
    match tools {
        None => None,
        Some(ts) => {
            let ghost goal: Seq<NativeToolView> = native_tools_of(
                json::views(ts@),
                json::views(cleaned@),
            );
            let mut out: Vec<NativeToolSpec> = Vec::new();
            let mut i: usize = 0;
            proof {
                assert(native_tools(out@) =~= goal.take(0));
            }
            while i < ts.len()
                invariant
                    i <= ts@.len(),
                    ts@.len() == cleaned@.len(),
                    goal == native_tools_of(json::views(ts@), json::views(cleaned@)),
                    native_tools(out@) == goal.take(i as int),
                decreases ts@.len() - i,
            {
                let t: NativeToolSpec = convert_tool(&ts[i], &cleaned[i]);
                proof {
                    assert(native_tools(out@.push(t)) =~= native_tools(out@).push(t@));
                    assert(t@ == goal[i as int]);
                }
                out.push(t);
                proof {
                    assert(native_tools(out@) =~= goal.take(i + 1));
                }
                i = i + 1;
            }
            proof {
                assert(goal.take(goal.len() as int) =~= goal);
            }
            Some(out)
        },
    }
}

/// The message of a reply, as the protocol writes it.
#[derive(Debug, PartialEq, Eq)]
pub struct NativeResponseMessage {
    pub content: Option<String>,
    pub reasoning_content: Option<String>,
    pub tool_calls: Option<Vec<NativeToolCall>>,
}

/// What the message of a reply holds.
pub struct NativeResponseView {
    pub content: Option<Seq<char>>,
    pub reasoning_content: Option<Seq<char>>,
    pub tool_calls: Option<Seq<NativeCallView>>,
}

impl View for NativeResponseMessage {
    type V = NativeResponseView;

    open spec fn view(&self) -> NativeResponseView {
        NativeResponseView {
            content: text::opt_text(self.content),
            reasoning_content: text::opt_text(self.reasoning_content),
            tool_calls: opt_native_calls(self.tool_calls),
        }
    }
}

/// The tool calls of a reply.
pub open spec fn calls_of(m: NativeResponseView) -> Seq<NativeCallView> {
    match m.tool_calls {
        Some(cs) => cs,
        None => Seq::empty(),
    }
}

/// The tool calls of a reply, where `fresh` holds the ids of those that have
/// none, at the same places.
pub open spec fn response_calls(
    cs: Seq<NativeCallView>,
    fresh: Seq<Seq<char>>,
) -> Seq<message::ToolCallView> {
    Seq::new(
        cs.len(),
        |i: int|
            message::ToolCallView {
                id: match cs[i].id {
                    Some(id) => id,
                    None => fresh[i],
                },
                call_type: "function"@,
                name: cs[i].name,
                arguments: cs[i].arguments,
            },
    )
}

/// The reply that a message and the usage make.
pub open spec fn response_of(
    m: NativeResponseView,
    usage: Option<NativeUsage>,
    fresh: Seq<Seq<char>>,
) -> types::ResponseView {
    types::ResponseView {
        content: match m.content {
            Some(s) => s,
            None => Seq::empty(),
        },
        reasoning_content: m.reasoning_content,
        tool_calls: if calls_of(m).len() == 0 {
            None
        } else {
            Some(response_calls(calls_of(m), fresh))
        },
        usage: match usage {
            Some(u) => Some(sse::usage_info(u)),
            None => None,
        },
        finish_reason: None,
    }
}

/// The reply that a message and the usage make, see `response_of`. `fresh`
/// holds an id for each tool call, and is used for those that have none.
pub fn read_response(
    msg: NativeResponseMessage,
    usage: Option<NativeUsage>,
    fresh: &Vec<String>,
) -> (r: ChatResponse)
    requires
        calls_of(msg@).len() == fresh@.len(),
        usage matches Some(u) ==> sse::usage_fits(u),
    ensures
        r@ == response_of(msg@, usage, text::texts(fresh@)),
{
    let ghost fv: Seq<Seq<char>> = text::texts(fresh@);
    let mut calls: Vec<ToolCall> = Vec::new();
    if let Some(cs) = &msg.tool_calls {
        let ghost goal: Seq<message::ToolCallView> = response_calls(native_calls(cs@), fv);
        let mut i: usize = 0;
        proof {
            assert(calls_of(msg@) =~= native_calls(cs@));
            assert(message::call_views(calls@) =~= goal.take(0));
        }
        while i < cs.len()
            invariant
                i <= cs@.len(),
                cs@.len() == fresh@.len(),
                fv == text::texts(fresh@),
                goal == response_calls(native_calls(cs@), fv),
                calls@.len() == i,
                message::call_views(calls@) == goal.take(i as int),
            decreases cs@.len() - i,
        {
            let c: ToolCall = ToolCall {
                id: match &cs[i].id {
                    Some(id) => id.clone(),
                    None => fresh[i].clone(),
                },
                call_type: "function".to_string(),
                function: cs[i].function.clone(),
            };
            proof {
                assert(message::call_views(calls@.push(c)) =~= message::call_views(calls@).push(
                    c@,
                ));
                assert(c@ == goal[i as int]);
            }
            calls.push(c);
            proof {
                assert(message::call_views(calls@) =~= goal.take(i + 1));
            }
            i = i + 1;
        }
        proof {
            assert(goal.take(goal.len() as int) =~= goal);
        }
    }
    ChatResponse {
        content: match msg.content {
            Some(s) => s,
            None => String::new(),
        },
        reasoning_content: msg.reasoning_content,
        tool_calls: if calls.len() == 0 {
            None
        } else {
            Some(calls)
        },
        usage: match &usage {
            Some(u) => Some(sse::to_usage_info(u)),
            None => None,
        },
        finish_reason: None,
    }
}

/// The reply that a message and the usage make, with fresh ids for the tool
/// calls that have none.
pub fn parse_response(msg: NativeResponseMessage, usage: Option<NativeUsage>) -> (r: ChatResponse)
    requires
        usage matches Some(u) ==> sse::usage_fits(u),
    ensures
        exists|fresh: Seq<Seq<char>>|
            fresh.len() == calls_of(msg@).len() && (forall|i: int|
                0 <= i < fresh.len() ==> ids::uuid_text(#[trigger] fresh[i])) && r@
                == #[trigger] response_of(msg@, usage, fresh),
{
    let n: usize = match &msg.tool_calls {
        Some(cs) => cs.len(),
        None => 0,
    };
    let mut fresh: Vec<String> = Vec::new();
    while fresh.len() < n
        invariant
            fresh@.len() <= n,
            forall|i: int| 0 <= i < fresh@.len() ==> ids::uuid_text((#[trigger] fresh@[i])@),
        decreases n - fresh@.len(),
    {
        fresh.push(ids::new_uuid());
    }
    let r: ChatResponse = read_response(msg, usage, &fresh);
    proof {
        let f = text::texts(fresh@);
        assert(f.len() == calls_of(msg@).len());
        assert forall|i: int| 0 <= i < f.len() implies ids::uuid_text(#[trigger] f[i]) by {
            assert(f[i] == fresh@[i]@);
        }
        assert(r@ == response_of(msg@, usage, f));
    }
    r
}

/// The bytes of the contents of messages.
pub open spec fn content_bytes(ms: Seq<message::MessageView>) -> nat
    decreases ms.len(),
{
    if ms.len() == 0 {
        0
    } else {
        content_bytes(ms.drop_last()) + text::byte_len(ms.last().content)
    }
}

proof fn lemma_content_bytes(ms: Seq<message::MessageView>, i: int)
    requires
        0 <= i < ms.len(),
    ensures
        content_bytes(ms.take(i + 1)) == content_bytes(ms.take(i)) + text::byte_len(ms[i].content),
        content_bytes(ms.take(i + 1)) <= content_bytes(ms),
    decreases ms.len() - i,
{
    assert(ms.take(i + 1).drop_last() =~= ms.take(i));
    if i + 1 < ms.len() {
        lemma_content_bytes(ms, i + 1);
    } else {
        assert(ms.take(i + 1) =~= ms);
    }
}

/// An estimate of the tokens of messages: one for each four bytes of content,
/// rounded up.
pub fn chat_token_count(messages: &Vec<ChatMessage>) -> (r: u64)
    requires
        content_bytes(message::message_views(messages@)) <= usize::MAX,
    ensures
        r == (content_bytes(message::message_views(messages@)) + 3) / 4,
{
    let ghost ms: Seq<message::MessageView> = message::message_views(messages@);
    let mut total: usize = 0;
    let mut i: usize = 0;
    while i < messages.len()
        invariant
            i <= messages@.len(),
            ms == message::message_views(messages@),
            content_bytes(ms) <= usize::MAX,
            total == content_bytes(ms.take(i as int)),
        decreases messages@.len() - i,
    {
        proof {
            lemma_content_bytes(ms, i as int);
        }
        total = total + messages[i].content.as_str().as_bytes().len();
        i = i + 1;
    }
    proof {
        assert(ms.take(ms.len() as int) =~= ms);
    }
    let q: usize = total / 4;
    if total % 4 == 0 {
        q as u64
    } else {
        q as u64 + 1
    }
}

} // verus!
