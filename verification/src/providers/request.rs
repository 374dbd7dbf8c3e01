//! The body of a chat completions request, what of it is dropped when a
//! provider refuses it, and the body of the reply.

use crate::ids;
use crate::json;
use crate::json::{Json, JsonMember, JsonNumber};
use crate::message::FunctionCall;
use crate::message;
use crate::providers::openai;
use crate::providers::openai::{NativeMessage, NativeResponseMessage, NativeToolCall, NativeToolSpec};
use crate::providers::sse;
use crate::providers::sse::NativeUsage;
use crate::providers::types::{ChatRequest, ChatResponse};
use crate::providers::types;
use crate::text;
use vstd::prelude::*;
use vstd::string::*;

verus! {

/// A request as the protocol writes it.
pub struct NativeChatRequest {
    pub model: String,
    pub messages: Vec<NativeMessage>,
    pub temperature: Option<JsonNumber>,
    pub max_tokens: Option<u32>,
    pub tools: Option<Vec<NativeToolSpec>>,
    pub stream: Option<bool>,
    /// Whether the last chunk of a stream is to report usage, where that is said.
    pub stream_usage: Option<bool>,
    pub reasoning_effort: Option<String>,
}

/// What a request holds.
pub struct RequestView {
    pub model: Seq<char>,
    pub messages: Seq<openai::NativeMessageView>,
    pub temperature: Option<(Option<u64>, Seq<char>)>,
    pub max_tokens: Option<u32>,
    pub tools: Option<Seq<openai::NativeToolView>>,
    pub stream: Option<bool>,
    pub stream_usage: Option<bool>,
    pub reasoning_effort: Option<Seq<char>>,
}

pub open spec fn opt_number(o: Option<JsonNumber>) -> Option<(Option<u64>, Seq<char>)> {
    match o {
        Some(n) => Some((n.unsigned, n.literal@)),
        None => None,
    }
}

impl View for NativeChatRequest {
    type V = RequestView;

    open spec fn view(&self) -> RequestView {
        RequestView {
            model: self.model@,
            messages: openai::native_messages(self.messages@),
            temperature: opt_number(self.temperature),
            max_tokens: self.max_tokens,
            tools: openai::opt_native_tools(self.tools),
            stream: self.stream,
            stream_usage: self.stream_usage,
            reasoning_effort: text::opt_text(self.reasoning_effort),
        }
    }
}

/// The request that asks for `request`, streamed or not.
pub open spec fn request_of(
    request: ChatRequest,
    cleaned: Seq<json::JsonView>,
    streamed: bool,
) -> RequestView {
    RequestView {
        model: request.model@,
        messages: message::message_views(request.messages@).map_values(
            |m: message::MessageView| openai::native_message(m),
        ),
        temperature: opt_number(request.temperature),
        max_tokens: request.max_tokens,
        tools: match request.tools {
            Some(ts) => Some(openai::native_tools_of(json::views(ts@), cleaned)),
            None => None,
        },
        stream: if streamed {
            Some(true)
        } else {
            None
        },
        stream_usage: if streamed {
            Some(true)
        } else {
            None
        },
        reasoning_effort: match request.reasoning_effort {
            Some(e) => openai::reasoning_value(e),
            None => None,
        },
    }
}

/// The request that asks for `request`, where `cleaned` holds the cleaned
/// schema of each tool.
pub fn build_request(request: ChatRequest, cleaned: &Vec<Json>, streamed: bool) -> (r:
    NativeChatRequest)
    requires
        request.tools matches Some(ts) ==> ts@.len() == cleaned@.len(),
    ensures
        r@ == request_of(request, json::views(cleaned@), streamed),
{
    NativeChatRequest {
        model: request.model,
        messages: openai::convert_messages(&request.messages),
        temperature: request.temperature,
        max_tokens: request.max_tokens,
        tools: match &request.tools {
            Some(ts) => openai::convert_tools(Some(ts), cleaned),
            None => None,
        },
        stream: if streamed {
            Some(true)
        } else {
            None
        },
        stream_usage: if streamed {
            Some(true)
        } else {
            None
        },
        reasoning_effort: match &request.reasoning_effort {
            Some(e) => match openai::openai_reasoning_str(e) {
                Some(s) => Some(s.to_string()),
                None => None,
            },
            None => None,
        },
    }
}

/// How much of a request is sent. Many OpenAI-compatible providers reject
/// fields that they do not know, so a refused request is tried again with less.
#[derive(Clone, Copy, Debug, PartialEq, Eq, Structural)]
pub enum Attempt {
    /// All of it.
    Full,
    /// All but the stream options.
    WithoutStreamOptions,
    /// Neither the stream options nor the reasoning effort.
    WithoutReasoning,
    /// As before, and no tools either.
    WithoutTools,
}

impl Attempt {
    /// How many steps of dropping have been taken.
    pub open spec fn rank(self) -> int {
        match self {
            Attempt::Full => 0,
            Attempt::WithoutStreamOptions => 1,
            Attempt::WithoutReasoning => 2,
            Attempt::WithoutTools => 3,
        }
    }
}

/// `q` as it is sent at `a`.
pub open spec fn stripped(q: RequestView, a: Attempt) -> RequestView {
    RequestView {
        tools: if a.rank() >= 3 {
            None
        } else {
            q.tools
        },
        stream_usage: if a.rank() >= 1 {
            None
        } else {
            q.stream_usage
        },
        reasoning_effort: if a.rank() >= 2 {
            None
        } else {
            q.reasoning_effort
        },
        ..q
    }
}

/// What follows the answer to a request.
#[derive(Clone, Copy, Debug, PartialEq, Eq, Structural)]
pub enum Verdict {
    /// The answer is taken.
    Accept,
    /// The request is sent again.
    Retry(Attempt),
    /// The request has failed.
    Refuse,
}

/// The status of a success.
pub open spec fn is_success(status: u16) -> bool {
    200 <= status < 300
}

/// The status of a request that the provider did not understand.
pub open spec fn is_misunderstood(status: u16) -> bool {
    status == 400 || status == 422
}

/// What follows the status of a request that is not streamed.
pub open spec fn chat_verdict(a: Attempt, has_reasoning: bool, status: u16) -> Verdict {
    if is_success(status) {
        Verdict::Accept
    } else if a == Attempt::Full && is_misunderstood(status) && has_reasoning {
        Verdict::Retry(Attempt::WithoutReasoning)
    } else {
        Verdict::Refuse
    }
}

/// What follows the status of a streamed request.
pub open spec fn stream_verdict(a: Attempt, has_reasoning: bool, status: u16) -> Verdict {
    if is_success(status) {
        Verdict::Accept
    } else {
        match a {
            Attempt::Full => if is_misunderstood(status) {
                Verdict::Retry(Attempt::WithoutStreamOptions)
            } else {
                Verdict::Refuse
            },
            Attempt::WithoutStreamOptions => if has_reasoning {
                Verdict::Retry(Attempt::WithoutReasoning)
            } else {
                Verdict::Retry(Attempt::WithoutTools)
            },
            Attempt::WithoutReasoning => Verdict::Retry(Attempt::WithoutTools),
            Attempt::WithoutTools => Verdict::Refuse,
        }
    }
}

/// See `chat_verdict`.
pub fn judge_chat(a: Attempt, has_reasoning: bool, status: u16) -> (r: Verdict)
    ensures
        r == chat_verdict(a, has_reasoning, status),
{
    if 200 <= status && status < 300 {
        Verdict::Accept
    } else if a == Attempt::Full && (status == 400 || status == 422) && has_reasoning {
        Verdict::Retry(Attempt::WithoutReasoning)
    } else {
        Verdict::Refuse
    }
}

/// See `stream_verdict`.
pub fn judge_stream(a: Attempt, has_reasoning: bool, status: u16) -> (r: Verdict)
    ensures
        r == stream_verdict(a, has_reasoning, status),
{
    if 200 <= status && status < 300 {
        return Verdict::Accept;
    }
    match a {
        Attempt::Full => if status == 400 || status == 422 {
            Verdict::Retry(Attempt::WithoutStreamOptions)
        } else {
            Verdict::Refuse
        },
        Attempt::WithoutStreamOptions => if has_reasoning {
            Verdict::Retry(Attempt::WithoutReasoning)
        } else {
            Verdict::Retry(Attempt::WithoutTools)
        },
        Attempt::WithoutReasoning => Verdict::Retry(Attempt::WithoutTools),
        Attempt::WithoutTools => Verdict::Refuse,
    }
}

/// A request is tried again only with less of it, so at most four times; a
/// success is never tried again. What a retry drops are the stream options, the
/// reasoning effort and the tools: the model, the messages, the temperature and
/// the token limit stay.
pub proof fn retries_only_drop(q: RequestView, a: Attempt, has_reasoning: bool, status: u16)
    ensures
        0 <= a.rank() <= 3,
        chat_verdict(a, has_reasoning, status) matches Verdict::Retry(b) ==> b.rank() > a.rank(),
        stream_verdict(a, has_reasoning, status) matches Verdict::Retry(b) ==> b.rank() > a.rank(),
        is_success(status) ==> chat_verdict(a, has_reasoning, status) == Verdict::Accept
            && stream_verdict(a, has_reasoning, status) == Verdict::Accept,
        stripped(q, a).model == q.model,
        stripped(q, a).messages == q.messages,
        stripped(q, a).temperature == q.temperature,
        stripped(q, a).max_tokens == q.max_tokens,
        stripped(q, a).stream == q.stream,
        stripped(q, Attempt::Full) == q,
{
}

/// The JSON of a tool call.
pub open spec fn call_json(c: openai::NativeCallView) -> json::JsonView {
    let id = match c.id {
        Some(s) => json::JsonView::Text(s),
        None => json::JsonView::Null,
    };
    json::JsonView::Object(
        json::with_opt_text(seq![("id"@, id)], "type"@, c.kind).push(
            (
                "function"@,
                json::JsonView::Object(
                    seq![
                        ("name"@, json::JsonView::Text(c.name)),
                        ("arguments"@, json::JsonView::Text(c.arguments)),
                    ],
                ),
            ),
        ),
    )
}

/// The JSON of a message: its role, and what it has of the other members.
pub open spec fn message_json(m: openai::NativeMessageView) -> json::JsonView {
    let a = seq![("role"@, json::JsonView::Text(m.role))];
    let b = json::with_opt(a, "content"@, m.content);
    let c = json::with_opt_text(b, "reasoning_content"@, m.reasoning_content);
    let d = json::with_opt_text(c, "tool_call_id"@, m.tool_call_id);
    json::JsonView::Object(
        json::with_opt(
            d,
            "tool_calls"@,
            match m.tool_calls {
                Some(cs) => Some(
                    json::JsonView::Array(cs.map_values(|x: openai::NativeCallView| call_json(x))),
                ),
                None => None,
            },
        ),
    )
}

/// The JSON of a tool.
pub open spec fn tool_json(t: openai::NativeToolView) -> json::JsonView {
    json::JsonView::Object(
        seq![
            ("type"@, json::JsonView::Text(t.kind)),
            (
                "function"@,
                json::JsonView::Object(
                    seq![
                        ("name"@, json::JsonView::Text(t.name)),
                        ("description"@, json::JsonView::Text(t.description)),
                        ("parameters"@, t.parameters),
                    ],
                ),
            ),
        ],
    )
}

/// The JSON of a request: the model, the messages, and what it has of the other
/// members.
pub open spec fn request_json(q: RequestView) -> json::JsonView {
    let a = seq![
        ("model"@, json::JsonView::Text(q.model)),
        (
            "messages"@,
            json::JsonView::Array(
                q.messages.map_values(|m: openai::NativeMessageView| message_json(m)),
            ),
        ),
    ];
    let b = json::with_opt(
        a,
        "temperature"@,
        match q.temperature {
            Some((u, s)) => Some(json::JsonView::Number(u, s)),
            None => None,
        },
    );
    let c = json::with_opt(
        b,
        "max_tokens"@,
        match q.max_tokens {
            Some(n) => Some(json::integer_view(n as u64)),
            None => None,
        },
    );
    let d = json::with_opt(
        c,
        "tools"@,
        match q.tools {
            Some(ts) => Some(
                json::JsonView::Array(ts.map_values(|t: openai::NativeToolView| tool_json(t))),
            ),
            None => None,
        },
    );
    let e = json::with_opt(
        d,
        "stream"@,
        match q.stream {
            Some(v) => Some(json::JsonView::Bool(v)),
            None => None,
        },
    );
    let f = json::with_opt(
        e,
        "stream_options"@,
        match q.stream_usage {
            Some(v) => Some(
                json::JsonView::Object(seq![("include_usage"@, json::JsonView::Bool(v))]),
            ),
            None => None,
        },
    );
    json::JsonView::Object(json::with_opt_text(f, "reasoning_effort"@, q.reasoning_effort))
}

fn call_value(c: &NativeToolCall) -> (r: Json)
    ensures
        r@ == call_json(c@),
{
    let mut f: Vec<JsonMember> = json::no_members();
    json::add_member(&mut f, "name", json::text_value(c.function.name.as_str()));
    json::add_member(&mut f, "arguments", json::text_value(c.function.arguments.as_str()));
    proof {
        assert(json::member_views(f@) =~= seq![
            ("name"@, json::JsonView::Text(c.function.name@)),
            ("arguments"@, json::JsonView::Text(c.function.arguments@)),
        ]);
    }
    let mut m: Vec<JsonMember> = json::no_members();
    let id: Json = match &c.id {
        Some(s) => json::text_value(s.as_str()),
        None => Json::Null,
    };
    let ghost idv: json::JsonView = id@;
    json::add_member(&mut m, "id", id);
    proof {
        assert(json::member_views(m@) =~= seq![("id"@, idv)]);
    }
    json::add_opt_text(&mut m, "type", &c.kind);
    json::add_member(&mut m, "function", json::object_value(f));
    json::object_value(m)
}

fn message_value(x: &NativeMessage) -> (r: Json)
    ensures
        r@ == message_json(x@),
{
    let mut m: Vec<JsonMember> = json::no_members();
    json::add_member(&mut m, "role", json::text_value(x.role.as_str()));
    proof {
        assert(json::member_views(m@) =~= seq![("role"@, json::JsonView::Text(x.role@))]);
    }
    json::add_opt(&mut m, "content", &x.content);
    json::add_opt_text(&mut m, "reasoning_content", &x.reasoning_content);
    json::add_opt_text(&mut m, "tool_call_id", &x.tool_call_id);
    if let Some(cs) = &x.tool_calls {
        let ghost goal: Seq<json::JsonView> = openai::native_calls(cs@).map_values(
            |c: openai::NativeCallView| call_json(c),
        );
        let mut a: Vec<Json> = Vec::new();
        let mut i: usize = 0;
        proof {
            assert(json::views(a@) =~= goal.take(0));
        }
        while i < cs.len()
            invariant
                i <= cs@.len(),
                goal == openai::native_calls(cs@).map_values(
                    |c: openai::NativeCallView| call_json(c),
                ),
                json::views(a@) == goal.take(i as int),
            decreases cs@.len() - i,
        {
            json::add_element(&mut a, call_value(&cs[i]));
            proof {
                assert(json::views(a@) =~= goal.take(i + 1));
            }
            i = i + 1;
        }
        proof {
            assert(goal.take(goal.len() as int) =~= goal);
        }
        json::add_member(&mut m, "tool_calls", json::array_value(a));
    }
    json::object_value(m)
}

/// The JSON of a tool, see `tool_json`.
pub fn tool_value(t: &NativeToolSpec) -> (r: Json)
    ensures
        r@ == tool_json(t@),
{
    let mut f: Vec<JsonMember> = json::no_members();
    json::add_member(&mut f, "name", json::text_value(t.function.name.as_str()));
    json::add_member(&mut f, "description", json::text_value(t.function.description.as_str()));
    json::add_member(&mut f, "parameters", t.function.parameters.clone());
    proof {
        assert(json::member_views(f@) =~= seq![
            ("name"@, json::JsonView::Text(t.function.name@)),
            ("description"@, json::JsonView::Text(t.function.description@)),
            ("parameters"@, t.function.parameters@),
        ]);
    }
    let mut m: Vec<JsonMember> = json::no_members();
    json::add_member(&mut m, "type", json::text_value(t.kind.as_str()));
    json::add_member(&mut m, "function", json::object_value(f));
    proof {
        assert(json::member_views(m@) =~= tool_json(t@)->Object_0);
    }
    json::object_value(m)
}

fn messages_value(ms: &Vec<NativeMessage>) -> (r: Json)
    ensures
        r@ == json::JsonView::Array(
            openai::native_messages(ms@).map_values(
                |m: openai::NativeMessageView| message_json(m),
            ),
        ),
{
    let ghost goal: Seq<json::JsonView> = openai::native_messages(ms@).map_values(
        |m: openai::NativeMessageView| message_json(m),
    );
    let mut a: Vec<Json> = Vec::new();
    let mut i: usize = 0;
    proof {
        assert(json::views(a@) =~= goal.take(0));
    }
    while i < ms.len()
        invariant
            i <= ms@.len(),
            goal == openai::native_messages(ms@).map_values(
                |m: openai::NativeMessageView| message_json(m),
            ),
            json::views(a@) == goal.take(i as int),
        decreases ms@.len() - i,
    {
        json::add_element(&mut a, message_value(&ms[i]));
        proof {
            assert(json::views(a@) =~= goal.take(i + 1));
        }
        i = i + 1;
    }
    proof {
        assert(goal.take(goal.len() as int) =~= goal);
    }
    json::array_value(a)
}

fn tools_value(ts: &Vec<NativeToolSpec>) -> (r: Json)
    ensures
        r@ == json::JsonView::Array(
            openai::native_tools(ts@).map_values(|t: openai::NativeToolView| tool_json(t)),
        ),
{
    let ghost goal: Seq<json::JsonView> = openai::native_tools(ts@).map_values(
        |t: openai::NativeToolView| tool_json(t),
    );
    let mut a: Vec<Json> = Vec::new();
    let mut i: usize = 0;
    proof {
        assert(json::views(a@) =~= goal.take(0));
    }
    while i < ts.len()
        invariant
            i <= ts@.len(),
            goal == openai::native_tools(ts@).map_values(
                |t: openai::NativeToolView| tool_json(t),
            ),
            json::views(a@) == goal.take(i as int),
        decreases ts@.len() - i,
    {
        json::add_element(&mut a, tool_value(&ts[i]));
        proof {
            assert(json::views(a@) =~= goal.take(i + 1));
        }
        i = i + 1;
    }
    proof {
        assert(goal.take(goal.len() as int) =~= goal);
    }
    json::array_value(a)
}

impl NativeChatRequest {
    /// Whether the request names a reasoning effort.
    pub fn has_reasoning(&self) -> (r: bool)
        ensures
            r == (self@.reasoning_effort is Some),
    {
        self.reasoning_effort.is_some()
    }

    /// The body that is sent at `a`.
    pub fn body(&self, a: Attempt) -> (r: Json)
        ensures
            r@ == request_json(stripped(self@, a)),
    {
        let drop_options: bool = a != Attempt::Full;
        let drop_tools: bool = a == Attempt::WithoutTools;
        let drop_reasoning: bool = drop_tools || a == Attempt::WithoutReasoning;
        let mut m: Vec<JsonMember> = json::no_members();
        json::add_member(&mut m, "model", json::text_value(self.model.as_str()));
        json::add_member(&mut m, "messages", messages_value(&self.messages));
        proof {
            assert(json::member_views(m@) =~= seq![
                ("model"@, json::JsonView::Text(self.model@)),
                (
                    "messages"@,
                    json::JsonView::Array(
                        self@.messages.map_values(
                            |x: openai::NativeMessageView| message_json(x),
                        ),
                    ),
                ),
            ]);
        }
        if let Some(n) = &self.temperature {
            json::add_member(&mut m, "temperature", Json::Number(n.clone()));
        }
        if let Some(n) = self.max_tokens {
            json::add_member(&mut m, "max_tokens", json::integer_value(n as u64));
        }
        if let Some(ts) = &self.tools {
            if !drop_tools {
                json::add_member(&mut m, "tools", tools_value(ts));
            }
        }
        if let Some(b) = self.stream {
            json::add_member(&mut m, "stream", Json::Bool(b));
        }
        if let Some(b) = self.stream_usage {
            if !drop_options {
                let mut o: Vec<JsonMember> = json::no_members();
                json::add_member(&mut o, "include_usage", Json::Bool(b));
                proof {
                    assert(json::member_views(o@) =~= seq![
                        ("include_usage"@, json::JsonView::Bool(b)),
                    ]);
                }
                json::add_member(&mut m, "stream_options", json::object_value(o));
            }
        }
        if !drop_reasoning {
            json::add_opt_text(&mut m, "reasoning_effort", &self.reasoning_effort);
        }
        json::object_value(m)
    }
}

/// The message of a failed request.
pub fn api_error_message(status: &str, body: &str, streamed: bool) -> (r: String)
    ensures
        r@ == "OpenAI API error: "@ + status@ + (if streamed {
            " - "@
        } else {
            " \u{2014} "@
        }) + body@,
{
    let mut s: String = "OpenAI API error: ".to_string();
    s.append(status);
    if streamed {
        s.append(" - ");
    } else {
        s.append(" \u{2014} ");
    }
    s.append(body);
    s
}

/// Why the body of a reply cannot be taken.
#[derive(Clone, Copy, Debug, PartialEq, Eq, Structural)]
pub enum ReplyError {
    /// It is not the JSON of a reply.
    Unreadable,
    /// It offers no choice.
    NoChoices,
    /// The tokens that it reports do not fit in 64 bits.
    UsageTooLarge,
}

/// The members of a tool call, in their order.
pub open spec fn call_names() -> Seq<Seq<char>> {
    seq!["id"@, "type"@, "function"@]
}

/// The members of a message, in their order.
pub open spec fn message_names() -> Seq<Seq<char>> {
    seq!["content"@, "reasoning_content"@, "tool_calls"@]
}

/// The tool call that a JSON value denotes.
pub open spec fn decoded_call(v: json::JsonView) -> Option<openai::NativeCallView> {
    let v = json::named(v, call_names(), 3);
    match (v, sse::string_member(v, "id"@), sse::string_member(v, "type"@), v.get("function"@)) {
        (json::JsonView::Object(_), Some(id), Some(kind), Some(f)) => {
            let g = json::named(f, sse::function_names(), 2);
            match (g.str_at("name"@), g.str_at("arguments"@)) {
                (Some(name), Some(arguments)) => Some(
                    openai::NativeCallView { id, kind, name, arguments },
                ),
                _ => None,
            }
        },
        _ => None,
    }
}

pub open spec fn decoded_calls(a: Seq<json::JsonView>) -> Option<Seq<openai::NativeCallView>>
    decreases a.len(),
{
    if a.len() == 0 {
        Some(Seq::empty())
    } else {
        match (decoded_calls(a.drop_last()), decoded_call(a.last())) {
            (Some(cs), Some(c)) => Some(cs.push(c)),
            _ => None,
        }
    }
}

/// The message that a JSON value denotes.
pub open spec fn decoded_message(v: json::JsonView) -> Option<openai::NativeResponseView> {
    let v = json::named(v, message_names(), 0);
    let tool_calls = match v.get("tool_calls"@) {
        None => Some(None),
        Some(json::JsonView::Null) => Some(None),
        Some(json::JsonView::Array(a)) => match decoded_calls(a) {
            Some(cs) => Some(Some(cs)),
            None => None,
        },
        _ => None,
    };
    match (v, sse::string_member(v, "content"@), sse::string_member(v, "reasoning_content"@), tool_calls) {
        (json::JsonView::Object(_), Some(content), Some(reasoning_content), Some(tool_calls)) => Some(
            openai::NativeResponseView { content, reasoning_content, tool_calls },
        ),
        _ => None,
    }
}

/// The message of a choice.
pub open spec fn choice_message(v: json::JsonView) -> Option<json::JsonView> {
    json::named(v, seq!["message"@], 1).get("message"@)
}

/// The messages of the choices that JSON values denote.
pub open spec fn decoded_replies(a: Seq<json::JsonView>) -> Option<
    Seq<openai::NativeResponseView>,
>
    decreases a.len(),
{
    if a.len() == 0 {
        Some(Seq::empty())
    } else {
        match (decoded_replies(a.drop_last()), choice_message(a.last())) {
            (Some(ms), Some(m)) => match decoded_message(m) {
                Some(d) => Some(ms.push(d)),
                None => None,
            },
            _ => None,
        }
    }
}

/// The message of the first choice of a reply and its usage, where `v` is what
/// the body of the reply denotes.
pub open spec fn opened_reply(v: Option<json::JsonView>) -> Result<
    (openai::NativeResponseView, Option<NativeUsage>),
    ReplyError,
> {
    match v {
        Some(j) => {
            let o = json::named(j, sse::chunk_names(), 1);
            match (o.array_at("choices"@), sse::usage_member(o)) {
                (Some(a), Some(usage)) => match decoded_replies(a) {
                    Some(ms) => if ms.len() == 0 {
                        Err(ReplyError::NoChoices)
                    } else {
                        Ok((ms[0], usage))
                    },
                    None => Err(ReplyError::Unreadable),
                },
                _ => Err(ReplyError::Unreadable),
            }
        },
        None => Err(ReplyError::Unreadable),
    }
}

fn decode_call(v: &Json) -> (r: Option<NativeToolCall>)
    ensures
        match r {
            Some(c) => decoded_call(v@) == Some(c@),
            None => decoded_call(v@) is None,
        },
{
    let names: Vec<&'static str> = vec!["id", "type", "function"];
    proof {
        assert(json::name_texts(names@) =~= call_names());
    }
    let object: Option<Json> = json::name_elements(v, &names, 3);
    let v: &Json = match &object {
        Some(o) => o,
        None => v,
    };
    match v {
        Json::Object(_) => {},
        _ => {
            return None;
        },
    }
    match (sse::take_string(v, "id"), sse::take_string(v, "type"), v.get("function")) {
        (Some(id), Some(kind), Some(f)) => {
            let parts: Vec<&'static str> = vec!["name", "arguments"];
            proof {
                assert(json::name_texts(parts@) =~= sse::function_names());
            }
            let inner: Option<Json> = json::name_elements(f, &parts, 2);
            let f: &Json = match &inner {
                Some(o) => o,
                None => f,
            };
            match (f.str_at("name"), f.str_at("arguments")) {
                (Some(name), Some(arguments)) => Some(
                    NativeToolCall { id, kind, function: FunctionCall { name, arguments } },
                ),
                _ => None,
            }
        },
        _ => None,
    }
}

proof fn lemma_bad_call(a: Seq<json::JsonView>, i: int)
    requires
        0 <= i < a.len(),
        decoded_call(a[i]) is None,
    ensures
        decoded_calls(a) is None,
    decreases a.len(),
{
    if i < a.len() - 1 {
        lemma_bad_call(a.drop_last(), i);
    }
}

fn decode_calls(a: &Vec<Json>) -> (r: Option<Vec<NativeToolCall>>)
    ensures
        match r {
            Some(cs) => decoded_calls(json::views(a@)) == Some(openai::native_calls(cs@)),
            None => decoded_calls(json::views(a@)) is None,
        },
{
    let ghost all: Seq<json::JsonView> = json::views(a@);
    let mut out: Vec<NativeToolCall> = Vec::new();
    let mut i: usize = 0;
    proof {
        assert(openai::native_calls(out@) =~= Seq::empty());
    }
    while i < a.len()
        invariant
            i <= a@.len(),
            all == json::views(a@),
            decoded_calls(all.take(i as int)) == Some(openai::native_calls(out@)),
        decreases a@.len() - i,
    {
        proof {
            assert(all.take(i + 1).drop_last() =~= all.take(i as int));
            assert(all.take(i + 1).last() == a@[i as int]@);
        }
        match decode_call(&a[i]) {
            Some(c) => {
                proof {
                    assert(openai::native_calls(out@.push(c)) =~= openai::native_calls(out@).push(
                        c@,
                    ));
                }
                out.push(c);
            },
            None => {
                proof {
                    lemma_bad_call(all, i as int);
                }
                return None;
            },
        }
        i = i + 1;
    }
    proof {
        assert(all.take(all.len() as int) =~= all);
    }
    Some(out)
}

fn decode_message(v: &Json) -> (r: Option<NativeResponseMessage>)
    ensures
        match r {
            Some(m) => decoded_message(v@) == Some(m@),
            None => decoded_message(v@) is None,
        },
{
    let names: Vec<&'static str> = vec!["content", "reasoning_content", "tool_calls"];
    proof {
        assert(json::name_texts(names@) =~= message_names());
    }
    let object: Option<Json> = json::name_elements(v, &names, 0);
    let v: &Json = match &object {
        Some(o) => o,
        None => v,
    };
    match v {
        Json::Object(_) => {},
        _ => {
            return None;
        },
    }
    let tool_calls: Option<Vec<NativeToolCall>> = match v.get("tool_calls") {
        None => None,
        Some(Json::Null) => None,
        Some(j) => match j.as_array() {
            Some(a) => match decode_calls(a) {
                Some(cs) => Some(cs),
                None => {
                    return None;
                },
            },
            None => {
                return None;
            },
        },
    };
    match (sse::take_string(v, "content"), sse::take_string(v, "reasoning_content")) {
        (Some(content), Some(reasoning_content)) => Some(
            NativeResponseMessage { content, reasoning_content, tool_calls },
        ),
        _ => None,
    }
}

pub(crate) proof fn lemma_replies(a: Seq<json::JsonView>, i: int)
    requires
        0 <= i < a.len(),
    ensures
        (choice_message(a[i]) is None || decoded_message(choice_message(a[i])->0) is None)
            ==> decoded_replies(a) is None,
        decoded_replies(a) is Some ==> decoded_replies(a)->0.len() == a.len()
            && decoded_replies(a)->0[i] == decoded_message(choice_message(a[i])->0)->0,
    decreases a.len(),
{
    if i < a.len() - 1 {
        lemma_replies(a.drop_last(), i);
    } else if a.len() > 1 {
        lemma_replies(a.drop_last(), 0);
    }
}

proof fn lemma_all_replies(a: Seq<json::JsonView>)
    requires
        forall|i: int|
            0 <= i < a.len() ==> choice_message(#[trigger] a[i]) is Some && decoded_message(
                choice_message(a[i])->0,
            ) is Some,
    ensures
        decoded_replies(a) is Some,
    decreases a.len(),
{
    if a.len() > 0 {
        assert forall|i: int| 0 <= i < a.drop_last().len() implies choice_message(
            #[trigger] a.drop_last()[i],
        ) is Some && decoded_message(choice_message(a.drop_last()[i])->0) is Some by {
            assert(a.drop_last()[i] == a[i]);
        }
        lemma_all_replies(a.drop_last());
        assert(choice_message(a[a.len() - 1]) is Some);
    }
}

/// The message of the first choice of a reply and its usage, see
/// `opened_reply`.
pub fn open_reply(v: Option<&Json>) -> (r: Result<
    (NativeResponseMessage, Option<NativeUsage>),
    ReplyError,
>)
    ensures
        match r {
            Ok((m, u)) => opened_reply(
                match v {
                    Some(j) => Some(j@),
                    None => None,
                },
            ) == Ok::<_, ReplyError>((m@, u)),
            Err(e) => opened_reply(
                match v {
                    Some(j) => Some(j@),
                    None => None,
                },
            ) == Err::<(openai::NativeResponseView, Option<NativeUsage>), _>(e),
        },
{
    let j: &Json = match v {
        Some(j) => j,
        None => {
            return Err(ReplyError::Unreadable);
        },
    };
    let names: Vec<&'static str> = vec!["choices", "usage"];
    proof {
        assert(json::name_texts(names@) =~= sse::chunk_names());
    }
    let object: Option<Json> = json::name_elements(j, &names, 1);
    let o: &Json = match &object {
        Some(o) => o,
        None => j,
    };
    let one: Vec<&'static str> = vec!["message"];
    proof {
        assert(json::name_texts(one@) =~= seq!["message"@]);
    }
    let (a, usage): (&Vec<Json>, Option<NativeUsage>) = match (
        o.array_at("choices"),
        sse::take_usage(o),
    ) {
        (Some(a), Some(usage)) => (a, usage),
        _ => {
            return Err(ReplyError::Unreadable);
        },
    };
    let ghost all: Seq<json::JsonView> = json::views(a@);
    let mut first: Option<NativeResponseMessage> = None;
    let mut i: usize = 0;
    while i < a.len()
        invariant
            i <= a@.len(),
            all == json::views(a@),
            o@ == json::named(j@, sse::chunk_names(), 1),
            o@.array_at("choices"@) == Some(all),
            sse::usage_member(o@) == Some(usage),
            v == Some(j),
            json::name_texts(one@) == seq!["message"@],
            (i == 0) == (first is None),
            first matches Some(m) ==> decoded_message(choice_message(all[0])->0) == Some(m@),
            forall|k: int|
                0 <= k < i ==> choice_message(#[trigger] all[k]) is Some && decoded_message(
                    choice_message(all[k])->0,
                ) is Some,
        decreases a@.len() - i,
    {
        proof {
            lemma_replies(all, i as int);
        }
        let part: Option<Json> = json::name_elements(&a[i], &one, 1);
        let choice: &Json = match &part {
            Some(c) => c,
            None => &a[i],
        };
        match choice.get("message") {
            None => {
                return Err(ReplyError::Unreadable);
            },
            Some(j) => match decode_message(j) {
                None => {
                    return Err(ReplyError::Unreadable);
                },
                Some(m) => {
                    if i == 0 {
                        first = Some(m);
                    }
                },
            },
        }
        i = i + 1;
    }
    proof {
        lemma_all_replies(all);
        if all.len() > 0 {
            lemma_replies(all, 0);
        }
    }
    match first {
        Some(m) => Ok((m, usage)),
        None => Err(ReplyError::NoChoices),
    }
}

/// The reply that a body gives, where `r` is the message and the usage that it
/// was opened to. Tool calls without an id get fresh ids.
pub open spec fn is_reply(
    opened: Result<(openai::NativeResponseView, Option<NativeUsage>), ReplyError>,
    r: Result<types::ResponseView, ReplyError>,
) -> bool {
    match opened {
        Err(e) => r == Err::<types::ResponseView, _>(e),
        Ok((m, u)) => if u matches Some(n) && !sse::usage_fits(n) {
            r == Err::<types::ResponseView, _>(ReplyError::UsageTooLarge)
        } else {
            r matches Ok(v) && exists|fresh: Seq<Seq<char>>|
                fresh.len() == openai::calls_of(m).len() && (forall|i: int|
                    0 <= i < fresh.len() ==> ids::uuid_text(#[trigger] fresh[i])) && v
                    == #[trigger] openai::response_of(m, u, fresh)
        },
    }
}

/// The reply that the body `body` gives.
pub fn read_reply(body: &str) -> (r: Result<ChatResponse, ReplyError>)
    ensures
        is_reply(
            opened_reply(json::json_of_text(body@)),
            match r {
                Ok(v) => Ok(v@),
                Err(e) => Err(e),
            },
        ),
{
    let parsed: Option<Json> = json::parse_json(body);
    let opened: Result<(NativeResponseMessage, Option<NativeUsage>), ReplyError> = match &parsed {
        Some(j) => open_reply(Some(j)),
        None => open_reply(None),
    };
    match opened {
        Err(e) => Err(e),
        Ok((m, u)) => {
            if let Some(n) = &u {
                if !sse::fits(n) {
                    return Err(ReplyError::UsageTooLarge);
                }
            }
            Ok(openai::parse_response(m, u))
        },
    }
}

} // verus!
