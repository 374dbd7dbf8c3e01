//! What the body of a request says, looked up in the JSON that is sent, and what of
//! the body of a reply is taken.

use crate::ids;
use crate::json;
use crate::message::{ChatMessage, ContentPart, MessageRole, ToolCall};
use crate::message;
use crate::providers::openai;
use crate::providers::request::{Attempt, ReplyError, Verdict};
use crate::providers::request;
use crate::providers::sse_laws;
use crate::providers::types::{ChatRequest, ReasoningEffort};
use crate::providers::types;
use crate::text;
use vstd::prelude::*;

verus! {

/// `v` is the JSON of the text `s`, where there is one.
pub open spec fn is_text(v: Option<json::JsonView>, s: Option<Seq<char>>) -> bool {
    match s {
        Some(s) => v == Some(json::JsonView::Text(s)),
        None => v is None,
    }
}

/// The JSON object `v` says what the part `p` of a message holds.
pub open spec fn says_part(v: json::JsonView, p: ContentPart) -> bool {
    match p {
        ContentPart::Text { text } => {
            &&& v.get("type"@) == Some(json::JsonView::Text("text"@))
            &&& v.get("text"@) == Some(json::JsonView::Text(text@))
        },
        ContentPart::ImageUrl { image_url } => {
            &&& v.get("type"@) == Some(json::JsonView::Text("image_url"@))
            &&& v.get("image_url"@) matches Some(u) && {
                &&& u.get("url"@) == Some(json::JsonView::Text(image_url.url@))
                &&& is_text(
                    u.get("detail"@),
                    match image_url.detail {
                        Some(d) => Some(d@),
                        None => None,
                    },
                )
            }
        },
    }
}

/// The JSON object `v` says what the tool call `c` holds.
pub open spec fn says_call(v: json::JsonView, c: ToolCall) -> bool {
    &&& v.get("id"@) == Some(json::JsonView::Text(c.id@))
    &&& v.get("type"@) == Some(json::JsonView::Text(c.call_type@))
    &&& v.get("function"@) matches Some(f) && {
        &&& f.get("name"@) == Some(json::JsonView::Text(c.function.name@))
        &&& f.get("arguments"@) == Some(json::JsonView::Text(c.function.arguments@))
    }
}

/// `v` is the array of what is said of each part of `ps`.
pub open spec fn says_parts(v: Option<json::JsonView>, ps: Seq<ContentPart>) -> bool {
    v matches Some(json::JsonView::Array(a)) && a.len() == ps.len() && forall|i: int|
        0 <= i < ps.len() ==> says_part(#[trigger] a[i], ps[i])
}

/// `v` is the array of what is said of each call of `cs`.
pub open spec fn says_calls(v: Option<json::JsonView>, cs: Seq<ToolCall>) -> bool {
    v matches Some(json::JsonView::Array(a)) && a.len() == cs.len() && forall|i: int|
        0 <= i < cs.len() ==> says_call(#[trigger] a[i], cs[i])
}

/// The JSON object `v` says what the message `m`, which is no tool result, holds: who
/// speaks, the parts or the text (which only an assistant that calls tools may leave
/// out, where it is empty), the thinking, and the tool calls of an assistant.
pub open spec fn says_turn(v: json::JsonView, m: ChatMessage) -> bool {
    &&& v.get("role"@) == Some(
        json::JsonView::Text(
            match m.role {
                MessageRole::System => "system"@,
                MessageRole::User => "user"@,
                MessageRole::Assistant => "assistant"@,
                MessageRole::Tool => "tool"@,
            },
        ),
    )
    &&& match m.content_parts {
        Some(ps) => says_parts(v.get("content"@), ps@),
        None => if m.content@.len() == 0 && m.role == MessageRole::Assistant && m.tool_calls is Some {
            v.get("content"@) is None
        } else {
            v.get("content"@) == Some(json::JsonView::Text(m.content@))
        },
    }
    &&& is_text(
        v.get("reasoning_content"@),
        match m.reasoning_content {
            Some(s) => Some(s@),
            None => None,
        },
    )
    &&& v.get("tool_call_id"@) is None
    &&& match m.tool_calls {
        Some(cs) if m.role == MessageRole::Assistant => says_calls(v.get("tool_calls"@), cs@),
        _ => v.get("tool_calls"@) is None,
    }
}

/// The JSON object `v` says what the tool result `m` holds: its text and the id of its
/// call. A result without the id may hold both in the members of a JSON object.
pub open spec fn says_result(v: json::JsonView, m: ChatMessage) -> bool {
    &&& v.get("role"@) == Some(json::JsonView::Text("tool"@))
    &&& v.get("tool_calls"@) is None
    &&& match m.tool_call_id {
        Some(id) => {
            &&& v.get("tool_call_id"@) == Some(json::JsonView::Text(id@))
            &&& v.get("content"@) == Some(json::JsonView::Text(m.content@))
        },
        None => match json::json_of_text(m.content@) {
            None => {
                &&& v.get("tool_call_id"@) is None
                &&& v.get("content"@) == Some(json::JsonView::Text(m.content@))
            },
            Some(w) => {
                &&& match w.get("tool_call_id"@) {
                    Some(json::JsonView::Text(id)) => v.get("tool_call_id"@) == Some(
                        json::JsonView::Text(id),
                    ),
                    _ => v.get("tool_call_id"@) is None,
                }
                &&& match w.get("content"@) {
                    Some(json::JsonView::Text(s)) => v.get("content"@) == Some(
                        json::JsonView::Text(s),
                    ),
                    _ => v.get("content"@) == Some(json::JsonView::Text(Seq::empty())),
                }
            },
        },
    }
}

/// The JSON object `v` says what the message `m` holds.
pub open spec fn says_message(v: json::JsonView, m: ChatMessage) -> bool {
    if m.role == MessageRole::Tool {
        says_result(v, m)
    } else {
        says_turn(v, m)
    }
}

/// The JSON object `v` offers the tool that the definition `t` describes, with the
/// schema `cleaned` where the definition has one.
pub open spec fn says_tool(v: json::JsonView, t: json::JsonView, cleaned: json::JsonView) -> bool {
    &&& v.get("type"@) == Some(json::JsonView::Text("function"@))
    &&& v.get("function"@) matches Some(f) && {
        &&& match t.get("name"@) {
            Some(json::JsonView::Text(s)) => f.get("name"@) == Some(json::JsonView::Text(s)),
            _ => f.get("name"@) == Some(json::JsonView::Text("unknown"@)),
        }
        &&& match t.get("description"@) {
            Some(json::JsonView::Text(s)) => f.get("description"@) == Some(json::JsonView::Text(s)),
            _ => f.get("description"@) == Some(json::JsonView::Text(Seq::empty())),
        }
        &&& match t.get("parameters"@) {
            Some(json::JsonView::Object(_)) => f.get("parameters"@) == Some(cleaned),
            _ => f.get("parameters"@) matches Some(p) && p.get("type"@) == Some(
                json::JsonView::Text("object"@),
            ) && p.get("properties"@) == Some(json::JsonView::Object(Seq::empty())),
        }
    }
}

/// The body of a request as it is sent.
pub open spec fn sent(
    q: ChatRequest,
    cleaned: Seq<json::JsonView>,
    streamed: bool,
    a: Attempt,
) -> json::JsonView {
    request::request_json(request::stripped(request::request_of(q, cleaned, streamed), a))
}

/// The members of an object with one more behind them.
proof fn lemma_pushed(m: Seq<(Seq<char>, json::JsonView)>, key: Seq<char>, v: json::JsonView, k: Seq<char>)
    ensures
        json::lookup(m.push((key, v)), k) == (if json::lookup(m, k) is Some {
            json::lookup(m, k)
        } else if key == k {
            Some(v)
        } else {
            None
        }),
    decreases m.len(),
{
    let all = m.push((key, v));
    if m.len() > 0 {
        assert(all.drop_first() =~= m.drop_first().push((key, v)));
        lemma_pushed(m.drop_first(), key, v, k);
    } else {
        assert(json::lookup(all.drop_first(), k) is None);
    }
}


proof fn lemma_one(key: Seq<char>, v: json::JsonView, k: Seq<char>)
    ensures
        json::lookup(seq![(key, v)], k) == (if key == k {
            Some(v)
        } else {
            None
        }),
{
    lemma_pushed(Seq::empty(), key, v, k);
    assert(Seq::<(Seq<char>, json::JsonView)>::empty().push((key, v)) =~= seq![(key, v)]);
}

proof fn lemma_two(
    a: (Seq<char>, json::JsonView),
    b: (Seq<char>, json::JsonView),
    k: Seq<char>,
)
    ensures
        json::lookup(seq![a, b], k) == (if a.0 == k {
            Some(a.1)
        } else if b.0 == k {
            Some(b.1)
        } else {
            None
        }),
{
    lemma_one(a.0, a.1, k);
    lemma_pushed(seq![a], b.0, b.1, k);
    assert(seq![a].push(b) =~= seq![a, b]);
}

proof fn lemma_three(
    a: (Seq<char>, json::JsonView),
    b: (Seq<char>, json::JsonView),
    c: (Seq<char>, json::JsonView),
    k: Seq<char>,
)
    ensures
        json::lookup(seq![a, b, c], k) == (if a.0 == k {
            Some(a.1)
        } else if b.0 == k {
            Some(b.1)
        } else if c.0 == k {
            Some(c.1)
        } else {
            None
        }),
{
    lemma_two(a, b, k);
    lemma_pushed(seq![a, b], c.0, c.1, k);
    assert(seq![a, b].push(c) =~= seq![a, b, c]);
}

proof fn lemma_with_opt(
    m: Seq<(Seq<char>, json::JsonView)>,
    key: Seq<char>,
    o: Option<json::JsonView>,
    k: Seq<char>,
)
    ensures
        json::lookup(json::with_opt(m, key, o), k) == (if json::lookup(m, k) is Some {
            json::lookup(m, k)
        } else if key == k {
            o
        } else {
            None
        }),
{
    if let Some(v) = o {
        lemma_pushed(m, key, v, k);
    }
}

proof fn lemma_with_text(
    m: Seq<(Seq<char>, json::JsonView)>,
    key: Seq<char>,
    o: Option<Seq<char>>,
    k: Seq<char>,
)
    ensures
        json::lookup(json::with_opt_text(m, key, o), k) == (if json::lookup(m, k) is Some {
            json::lookup(m, k)
        } else if key == k {
            match o {
                Some(s) => Some(json::JsonView::Text(s)),
                None => None,
            }
        } else {
            None
        }),
{
    if let Some(s) = o {
        lemma_pushed(m, key, json::JsonView::Text(s), k);
    }
}

proof fn lemma_part(p: ContentPart)
    ensures
        says_part(openai::part_json(p@), p),
{
    reveal_strlit("type");
    reveal_strlit("text");
    reveal_strlit("image_url");
    reveal_strlit("url");
    reveal_strlit("detail");
    assert("type"@[1] != "text"@[1]);
    assert("type"@.len() != "image_url"@.len());
    assert("url"@.len() != "detail"@.len());
    match p {
        ContentPart::Text { text } => {
            let a = ("type"@, json::JsonView::Text("text"@));
            let b = ("text"@, json::JsonView::Text(text@));
            lemma_two(a, b, "type"@);
            lemma_two(a, b, "text"@);
        },
        ContentPart::ImageUrl { image_url } => {
            let d = text::opt_text(image_url.detail);
            let u = seq![("url"@, json::JsonView::Text(image_url.url@))];
            let img = json::JsonView::Object(json::with_opt_text(u, "detail"@, d));
            let a = ("type"@, json::JsonView::Text("image_url"@));
            let b = ("image_url"@, img);
            lemma_two(a, b, "type"@);
            lemma_two(a, b, "image_url"@);
            lemma_one("url"@, json::JsonView::Text(image_url.url@), "url"@);
            lemma_one("url"@, json::JsonView::Text(image_url.url@), "detail"@);
            lemma_with_text(u, "detail"@, d, "url"@);
            lemma_with_text(u, "detail"@, d, "detail"@);
        },
    }
}

proof fn lemma_call(c: ToolCall)
    ensures
        says_call(request::call_json(openai::native_call(c@)), c),
{
    reveal_strlit("id");
    reveal_strlit("type");
    reveal_strlit("function");
    reveal_strlit("name");
    reveal_strlit("arguments");
    assert("id"@.len() != "type"@.len());
    assert("id"@.len() != "function"@.len());
    assert("type"@.len() != "function"@.len());
    assert("name"@.len() != "arguments"@.len());
    let a = ("name"@, json::JsonView::Text(c.function.name@));
    let b = ("arguments"@, json::JsonView::Text(c.function.arguments@));
    lemma_two(a, b, "name"@);
    lemma_two(a, b, "arguments"@);
    let f = json::JsonView::Object(seq![a, b]);
    let i = json::JsonView::Text(c.id@);
    let one = seq![("id"@, i)];
    let two = json::with_opt_text(one, "type"@, Some(c.call_type@));
    assert(request::call_json(openai::native_call(c@)) == json::JsonView::Object(
        two.push(("function"@, f)),
    ));
    lemma_all_of_call(one, two, i, c.call_type@, f, "id"@);
    lemma_all_of_call(one, two, i, c.call_type@, f, "type"@);
    lemma_all_of_call(one, two, i, c.call_type@, f, "function"@);
}

proof fn lemma_all_of_call(
    one: Seq<(Seq<char>, json::JsonView)>,
    two: Seq<(Seq<char>, json::JsonView)>,
    i: json::JsonView,
    kind: Seq<char>,
    f: json::JsonView,
    k: Seq<char>,
)
    requires
        one == seq![("id"@, i)],
        two == json::with_opt_text(one, "type"@, Some(kind)),
    ensures
        json::lookup(two.push(("function"@, f)), k) == (if k == "id"@ {
            Some(i)
        } else if k == "type"@ {
            Some(json::JsonView::Text(kind))
        } else if k == "function"@ {
            Some(f)
        } else {
            None
        }),
{
    lemma_one("id"@, i, k);
    lemma_with_text(one, "type"@, Some(kind), k);
    lemma_pushed(two, "function"@, f, k);
}

/// The members that the JSON of a message has.
proof fn lemma_message(m: openai::NativeMessageView)
    ensures
        ({
            let v = request::message_json(m);
            &&& v.get("role"@) == Some(json::JsonView::Text(m.role))
            &&& v.get("content"@) == m.content
            &&& is_text(v.get("reasoning_content"@), m.reasoning_content)
            &&& is_text(v.get("tool_call_id"@), m.tool_call_id)
            &&& v.get("tool_calls"@) == match m.tool_calls {
                Some(cs) => Some(
                    json::JsonView::Array(
                        cs.map_values(|x: openai::NativeCallView| request::call_json(x)),
                    ),
                ),
                None => None,
            }
        }),
{
    reveal_strlit("role");
    reveal_strlit("content");
    reveal_strlit("reasoning_content");
    reveal_strlit("tool_call_id");
    reveal_strlit("tool_calls");
    assert("role"@.len() == 4 && "content"@.len() == 7 && "reasoning_content"@.len() == 17
        && "tool_call_id"@.len() == 12 && "tool_calls"@.len() == 10);
    lemma_message_at(m, "role"@);
    lemma_message_at(m, "content"@);
    lemma_message_at(m, "reasoning_content"@);
    lemma_message_at(m, "tool_call_id"@);
    lemma_message_at(m, "tool_calls"@);
}

proof fn lemma_message_at(m: openai::NativeMessageView, k: Seq<char>)
    requires
        "role"@ != "content"@,
        "role"@ != "reasoning_content"@,
        "role"@ != "tool_call_id"@,
        "role"@ != "tool_calls"@,
        "content"@ != "reasoning_content"@,
        "content"@ != "tool_call_id"@,
        "content"@ != "tool_calls"@,
        "reasoning_content"@ != "tool_call_id"@,
        "reasoning_content"@ != "tool_calls"@,
        "tool_call_id"@ != "tool_calls"@,
    ensures
        request::message_json(m).get(k) == (if k == "role"@ {
            Some(json::JsonView::Text(m.role))
        } else if k == "content"@ {
            m.content
        } else if k == "reasoning_content"@ {
            match m.reasoning_content {
                Some(s) => Some(json::JsonView::Text(s)),
                None => None,
            }
        } else if k == "tool_call_id"@ {
            match m.tool_call_id {
                Some(s) => Some(json::JsonView::Text(s)),
                None => None,
            }
        } else if k == "tool_calls"@ {
            match m.tool_calls {
                Some(cs) => Some(
                    json::JsonView::Array(
                        cs.map_values(|x: openai::NativeCallView| request::call_json(x)),
                    ),
                ),
                None => None,
            }
        } else {
            None
        }),
{
    let a = seq![("role"@, json::JsonView::Text(m.role))];
    let b = json::with_opt(a, "content"@, m.content);
    let c = json::with_opt_text(b, "reasoning_content"@, m.reasoning_content);
    let d = json::with_opt_text(c, "tool_call_id"@, m.tool_call_id);
    let calls = match m.tool_calls {
        Some(cs) => Some(
            json::JsonView::Array(cs.map_values(|x: openai::NativeCallView| request::call_json(x))),
        ),
        None => None,
    };
    lemma_one("role"@, json::JsonView::Text(m.role), k);
    lemma_with_opt(a, "content"@, m.content, k);
    lemma_with_text(b, "reasoning_content"@, m.reasoning_content, k);
    lemma_with_text(c, "tool_call_id"@, m.tool_call_id, k);
    lemma_with_opt(d, "tool_calls"@, calls, k);
}

/// The JSON of a message gives back the message.
pub proof fn message_is_said(m: ChatMessage)
    ensures
        says_message(request::message_json(openai::native_message(m@)), m),
{
    let v = request::message_json(openai::native_message(m@));
    lemma_message(openai::native_message(m@));
    if m.role != MessageRole::Tool {
        if let Some(ps) = m.content_parts {
            let a = v.get("content"@)->0->Array_0;
            assert(message::part_views(ps@).len() == ps@.len());
            assert forall|i: int| 0 <= i < ps@.len() implies says_part(#[trigger] a[i], ps@[i]) by {
                lemma_part(ps@[i]);
                assert(a[i] == openai::part_json(ps@[i]@));
            }
        }
        if let Some(cs) = m.tool_calls {
            if m.role == MessageRole::Assistant {
                let a = v.get("tool_calls"@)->0->Array_0;
                assert forall|i: int| 0 <= i < cs@.len() implies says_call(
                    #[trigger] a[i],
                    cs@[i],
                ) by {
                    lemma_call(cs@[i]);
                    assert(a[i] == request::call_json(openai::native_call(cs@[i]@)));
                }
            }
        }
    }
}

proof fn lemma_tool(t: json::JsonView, cleaned: json::JsonView)
    ensures
        says_tool(request::tool_json(openai::native_tool(t, cleaned)), t, cleaned),
{
    reveal_strlit("type");
    reveal_strlit("function");
    reveal_strlit("name");
    reveal_strlit("description");
    reveal_strlit("parameters");
    reveal_strlit("properties");
    assert("type"@.len() == 4 && "function"@.len() == 8 && "name"@.len() == 4
        && "description"@.len() == 11 && "parameters"@.len() == 10 && "properties"@.len() == 10);
    let n = openai::native_tool(t, cleaned);
    let a = ("name"@, json::JsonView::Text(n.name));
    let b = ("description"@, json::JsonView::Text(n.description));
    let c = ("parameters"@, n.parameters);
    lemma_three(a, b, c, "name"@);
    lemma_three(a, b, c, "description"@);
    lemma_three(a, b, c, "parameters"@);
    let x = ("type"@, json::JsonView::Text(n.kind));
    let y = ("function"@, json::JsonView::Object(seq![a, b, c]));
    lemma_two(x, y, "type"@);
    lemma_two(x, y, "function"@);
    let e = ("type"@, json::JsonView::Text("object"@));
    let f = ("properties"@, json::JsonView::Object(Seq::empty()));
    lemma_two(e, f, "type"@);
    lemma_two(e, f, "properties"@);
}

proof fn lemma_request_at(q: request::RequestView, k: Seq<char>)
    requires
        "model"@ != "messages"@,
        "model"@ != "temperature"@,
        "model"@ != "max_tokens"@,
        "model"@ != "tools"@,
        "model"@ != "stream"@,
        "model"@ != "stream_options"@,
        "model"@ != "reasoning_effort"@,
        "messages"@ != "temperature"@,
        "messages"@ != "max_tokens"@,
        "messages"@ != "tools"@,
        "messages"@ != "stream"@,
        "messages"@ != "stream_options"@,
        "messages"@ != "reasoning_effort"@,
        "temperature"@ != "max_tokens"@,
        "temperature"@ != "tools"@,
        "temperature"@ != "stream"@,
        "temperature"@ != "stream_options"@,
        "temperature"@ != "reasoning_effort"@,
        "max_tokens"@ != "tools"@,
        "max_tokens"@ != "stream"@,
        "max_tokens"@ != "stream_options"@,
        "max_tokens"@ != "reasoning_effort"@,
        "tools"@ != "stream"@,
        "tools"@ != "stream_options"@,
        "tools"@ != "reasoning_effort"@,
        "stream"@ != "stream_options"@,
        "stream"@ != "reasoning_effort"@,
        "stream_options"@ != "reasoning_effort"@,
    ensures
        request::request_json(q).get(k) == (if k == "model"@ {
            Some(json::JsonView::Text(q.model))
        } else if k == "messages"@ {
            Some(
                json::JsonView::Array(
                    q.messages.map_values(
                        |m: openai::NativeMessageView| request::message_json(m),
                    ),
                ),
            )
        } else if k == "temperature"@ {
            match q.temperature {
                Some((u, s)) => Some(json::JsonView::Number(u, s)),
                None => None,
            }
        } else if k == "max_tokens"@ {
            match q.max_tokens {
                Some(n) => Some(json::integer_view(n as u64)),
                None => None,
            }
        } else if k == "tools"@ {
            match q.tools {
                Some(ts) => Some(
                    json::JsonView::Array(
                        ts.map_values(|t: openai::NativeToolView| request::tool_json(t)),
                    ),
                ),
                None => None,
            }
        } else if k == "stream"@ {
            match q.stream {
                Some(v) => Some(json::JsonView::Bool(v)),
                None => None,
            }
        } else if k == "stream_options"@ {
            match q.stream_usage {
                Some(v) => Some(
                    json::JsonView::Object(seq![("include_usage"@, json::JsonView::Bool(v))]),
                ),
                None => None,
            }
        } else if k == "reasoning_effort"@ {
            match q.reasoning_effort {
                Some(s) => Some(json::JsonView::Text(s)),
                None => None,
            }
        } else {
            None
        }),
{
    let x = ("model"@, json::JsonView::Text(q.model));
    let y = (
        "messages"@,
        json::JsonView::Array(
            q.messages.map_values(|m: openai::NativeMessageView| request::message_json(m)),
        ),
    );
    let a = seq![x, y];
    lemma_two(x, y, k);
    let temperature = match q.temperature {
        Some((u, s)) => Some(json::JsonView::Number(u, s)),
        None => None,
    };
    let b = json::with_opt(a, "temperature"@, temperature);
    lemma_with_opt(a, "temperature"@, temperature, k);
    let max_tokens = match q.max_tokens {
        Some(n) => Some(json::integer_view(n as u64)),
        None => None,
    };
    let c = json::with_opt(b, "max_tokens"@, max_tokens);
    lemma_with_opt(b, "max_tokens"@, max_tokens, k);
    let tools = match q.tools {
        Some(ts) => Some(
            json::JsonView::Array(ts.map_values(|t: openai::NativeToolView| request::tool_json(t))),
        ),
        None => None,
    };
    let d = json::with_opt(c, "tools"@, tools);
    lemma_with_opt(c, "tools"@, tools, k);
    let stream = match q.stream {
        Some(v) => Some(json::JsonView::Bool(v)),
        None => None,
    };
    let e = json::with_opt(d, "stream"@, stream);
    lemma_with_opt(d, "stream"@, stream, k);
    let options = match q.stream_usage {
        Some(v) => Some(json::JsonView::Object(seq![("include_usage"@, json::JsonView::Bool(v))])),
        None => None,
    };
    let f = json::with_opt(e, "stream_options"@, options);
    lemma_with_opt(e, "stream_options"@, options, k);
    lemma_with_text(f, "reasoning_effort"@, q.reasoning_effort, k);
}

proof fn lemma_request(q: request::RequestView)
    ensures
        ({
            let v = request::request_json(q);
            &&& v.get("model"@) == Some(json::JsonView::Text(q.model))
            &&& v.get("messages"@) == Some(
                json::JsonView::Array(
                    q.messages.map_values(
                        |m: openai::NativeMessageView| request::message_json(m),
                    ),
                ),
            )
            &&& v.get("temperature"@) == (match q.temperature {
                Some((u, s)) => Some(json::JsonView::Number(u, s)),
                None => None,
            })
            &&& v.get("max_tokens"@) == (match q.max_tokens {
                Some(n) => Some(json::integer_view(n as u64)),
                None => None,
            })
            &&& v.get("tools"@) == (match q.tools {
                Some(ts) => Some(
                    json::JsonView::Array(
                        ts.map_values(|t: openai::NativeToolView| request::tool_json(t)),
                    ),
                ),
                None => None,
            })
            &&& v.get("stream"@) == (match q.stream {
                Some(v) => Some(json::JsonView::Bool(v)),
                None => None,
            })
            &&& v.get("stream_options"@) == (match q.stream_usage {
                Some(v) => Some(
                    json::JsonView::Object(seq![("include_usage"@, json::JsonView::Bool(v))]),
                ),
                None => None,
            })
            &&& is_text(v.get("reasoning_effort"@), q.reasoning_effort)
        }),
{
    reveal_strlit("model");
    reveal_strlit("messages");
    reveal_strlit("temperature");
    reveal_strlit("max_tokens");
    reveal_strlit("tools");
    reveal_strlit("stream");
    reveal_strlit("stream_options");
    reveal_strlit("reasoning_effort");
    assert("model"@.len() == 5 && "messages"@.len() == 8 && "temperature"@.len() == 11
        && "max_tokens"@.len() == 10 && "tools"@.len() == 5 && "stream"@.len() == 6
        && "stream_options"@.len() == 14 && "reasoning_effort"@.len() == 16);
    assert("model"@[0] != "tools"@[0]);
    lemma_request_at(q, "model"@);
    lemma_request_at(q, "messages"@);
    lemma_request_at(q, "temperature"@);
    lemma_request_at(q, "max_tokens"@);
    lemma_request_at(q, "tools"@);
    lemma_request_at(q, "stream"@);
    lemma_request_at(q, "stream_options"@);
    lemma_request_at(q, "reasoning_effort"@);
}

/// Whatever is dropped, the body that is sent names the model and says every message
/// of the request, in their order.
pub proof fn messages_are_sent(
    q: ChatRequest,
    cleaned: Seq<json::JsonView>,
    streamed: bool,
    a: Attempt,
)
    ensures
        ({
            let body = sent(q, cleaned, streamed, a);
            &&& body.get("model"@) == Some(json::JsonView::Text(q.model@))
            &&& body.get("messages"@) matches Some(json::JsonView::Array(ms)) && {
                &&& ms.len() == q.messages@.len()
                &&& forall|i: int| 0 <= i < ms.len() ==> says_message(#[trigger] ms[i], q.messages@[i])
            }
        }),
{
    let n = request::stripped(request::request_of(q, cleaned, streamed), a);
    lemma_request(n);
    let ms = sent(q, cleaned, streamed, a).get("messages"@)->0->Array_0;
    assert forall|i: int| 0 <= i < ms.len() implies says_message(#[trigger] ms[i], q.messages@[i]) by {
        message_is_said(q.messages@[i]);
        assert(ms[i] == request::message_json(openai::native_message(q.messages@[i]@)));
    }
}

/// The body that is sent has the temperature and the token limit of the request,
/// whatever is dropped. It has the tools until they are dropped, the reasoning effort
/// until that is dropped, and asks for a stream where one is asked for, which reports
/// usage in the first attempt alone.
pub proof fn settings_are_sent(
    q: ChatRequest,
    cleaned: Seq<json::JsonView>,
    streamed: bool,
    a: Attempt,
)
    ensures
        ({
            let body = sent(q, cleaned, streamed, a);
            &&& body.get("temperature"@) == (match q.temperature {
                Some(n) => Some(json::JsonView::Number(n.unsigned, n.literal@)),
                None => None,
            })
            &&& match q.max_tokens {
                Some(n) => body.get("max_tokens"@) == Some(
                    json::JsonView::Number(Some(n as u64), text::decimal(n as nat)),
                ),
                None => body.get("max_tokens"@) is None,
            }
            &&& match q.tools {
                Some(ts) if a != Attempt::WithoutTools => body.get("tools"@) matches Some(
                    json::JsonView::Array(v),
                ) && v.len() == ts@.len() && forall|i: int|
                    0 <= i < v.len() ==> says_tool(#[trigger] v[i], ts@[i]@, cleaned[i]),
                _ => body.get("tools"@) is None,
            }
            &&& if streamed {
                body.get("stream"@) == Some(json::JsonView::Bool(true))
            } else {
                body.get("stream"@) is None
            }
            &&& if streamed && a == Attempt::Full {
                body.get("stream_options"@) matches Some(o) && o.get("include_usage"@) == Some(
                    json::JsonView::Bool(true),
                )
            } else {
                body.get("stream_options"@) is None
            }
            &&& is_text(
                body.get("reasoning_effort"@),
                match (a, q.reasoning_effort) {
                    (Attempt::WithoutReasoning, _) => None,
                    (Attempt::WithoutTools, _) => None,
                    (_, None) => None,
                    (_, Some(ReasoningEffort::Auto)) => None,
                    (_, Some(ReasoningEffort::Off)) => Some("low"@),
                    (_, Some(ReasoningEffort::Low)) => Some("low"@),
                    (_, Some(ReasoningEffort::Medium)) => Some("medium"@),
                    (_, Some(ReasoningEffort::High)) => Some("high"@),
                    (_, Some(ReasoningEffort::Max)) => Some("high"@),
                },
            )
        }),
{
    let n = request::stripped(request::request_of(q, cleaned, streamed), a);
    lemma_request(n);
    lemma_one("include_usage"@, json::JsonView::Bool(true), "include_usage"@);
    if let Some(ts) = q.tools {
        if a != Attempt::WithoutTools {
            let v = sent(q, cleaned, streamed, a).get("tools"@)->0->Array_0;
            assert forall|i: int| 0 <= i < v.len() implies says_tool(
                #[trigger] v[i],
                ts@[i]@,
                cleaned[i],
            ) by {
                lemma_tool(ts@[i]@, cleaned[i]);
                assert(v[i] == request::tool_json(openai::native_tool(ts@[i]@, cleaned[i])));
            }
        }
    }
}

/// The object `v` can be read as a tool call of a reply.
pub open spec fn is_call(v: json::JsonView) -> bool {
    &&& v is Object
    &&& sse_laws::may_be_text(v, "id"@)
    &&& sse_laws::may_be_text(v, "type"@)
    &&& v.get("function"@) matches Some(f) && f is Object && sse_laws::text_at(f, "name"@) is Some
        && sse_laws::text_at(f, "arguments"@) is Some
}

/// The object `v` can be read as the message of a reply.
pub open spec fn is_message(v: json::JsonView) -> bool {
    &&& v is Object
    &&& sse_laws::may_be_text(v, "content"@)
    &&& sse_laws::may_be_text(v, "reasoning_content"@)
    &&& sse_laws::is_missing(v, "tool_calls"@) || (v.get("tool_calls"@) matches Some(
        json::JsonView::Array(a),
    ) && forall|i: int| 0 <= i < a.len() ==> is_call(#[trigger] a[i]))
}

/// The object `v` can be read as a choice of a reply.
pub open spec fn is_choice(v: json::JsonView) -> bool {
    v is Object && (v.get("message"@) matches Some(m) && is_message(m))
}

/// The tool calls that the object `v` carries.
pub open spec fn carried_calls(v: json::JsonView) -> Seq<json::JsonView> {
    match v.get("tool_calls"@) {
        Some(json::JsonView::Array(a)) => a,
        _ => Seq::empty(),
    }
}

/// `c` is the tool call that the object `v` carries. A call without an id has a fresh
/// one.
pub open spec fn takes_call(c: message::ToolCallView, v: json::JsonView) -> bool {
    &&& Some(c.name) == sse_laws::text_at(v.get("function"@)->0, "name"@)
    &&& Some(c.arguments) == sse_laws::text_at(v.get("function"@)->0, "arguments"@)
    &&& c.call_type == "function"@
    &&& match sse_laws::text_at(v, "id"@) {
        Some(id) => c.id == id,
        None => ids::uuid_text(c.id),
    }
}

/// `r` is the reply whose message the object `v` holds.
pub open spec fn takes_message(r: types::ResponseView, v: json::JsonView) -> bool {
    &&& r.content == sse_laws::or_nothing(sse_laws::text_at(v, "content"@))
    &&& r.reasoning_content == sse_laws::text_at(v, "reasoning_content"@)
    &&& match r.tool_calls {
        Some(cs) => {
            &&& cs.len() == carried_calls(v).len()
            &&& cs.len() > 0
            &&& forall|i: int| 0 <= i < cs.len() ==> takes_call(#[trigger] cs[i], carried_calls(v)[i])
        },
        None => carried_calls(v).len() == 0,
    }
}

proof fn lemma_decoded_calls(a: Seq<json::JsonView>)
    requires
        forall|i: int| 0 <= i < a.len() ==> is_call(#[trigger] a[i]),
    ensures
        request::decoded_calls(a) matches Some(cs) && cs.len() == a.len() && forall|i: int|
            0 <= i < cs.len() ==> (#[trigger] cs[i]).id == sse_laws::text_at(a[i], "id"@)
                && Some(cs[i].name) == sse_laws::text_at(a[i].get("function"@)->0, "name"@)
                && Some(cs[i].arguments) == sse_laws::text_at(
                a[i].get("function"@)->0,
                "arguments"@,
            ),
    decreases a.len(),
{
    if a.len() > 0 {
        let b = a.drop_last();
        assert forall|i: int| 0 <= i < b.len() implies is_call(#[trigger] b[i]) by {
            assert(b[i] == a[i]);
        }
        lemma_decoded_calls(b);
        assert(is_call(a[a.len() - 1]));
        assert(request::decoded_call(a.last()) is Some);
        let cs = request::decoded_calls(a)->0;
        let ds = request::decoded_calls(b)->0;
        assert forall|i: int| 0 <= i < cs.len() implies (#[trigger] cs[i]).id == sse_laws::text_at(
            a[i],
            "id"@,
        ) && Some(cs[i].name) == sse_laws::text_at(a[i].get("function"@)->0, "name"@) && Some(
            cs[i].arguments,
        ) == sse_laws::text_at(a[i].get("function"@)->0, "arguments"@) by {
            if i < ds.len() {
                assert(cs[i] == ds[i]);
                assert(a[i] == b[i]);
            }
        }
    }
}

proof fn lemma_decoded_message(v: json::JsonView)
    requires
        is_message(v),
    ensures
        request::decoded_message(v) matches Some(m) && {
            &&& m.content == sse_laws::text_at(v, "content"@)
            &&& m.reasoning_content == sse_laws::text_at(v, "reasoning_content"@)
            &&& openai::calls_of(m).len() == carried_calls(v).len()
            &&& forall|i: int|
                0 <= i < carried_calls(v).len() ==> (#[trigger] openai::calls_of(m)[i]).id
                    == sse_laws::text_at(carried_calls(v)[i], "id"@) && Some(
                    openai::calls_of(m)[i].name,
                ) == sse_laws::text_at(carried_calls(v)[i].get("function"@)->0, "name"@) && Some(
                    openai::calls_of(m)[i].arguments,
                ) == sse_laws::text_at(carried_calls(v)[i].get("function"@)->0, "arguments"@)
        },
{
    if !sse_laws::is_missing(v, "tool_calls"@) {
        lemma_decoded_calls(carried_calls(v));
    }
}

proof fn lemma_decoded_replies(a: Seq<json::JsonView>)
    requires
        forall|i: int| 0 <= i < a.len() ==> is_choice(#[trigger] a[i]),
    ensures
        request::decoded_replies(a) matches Some(ms) && ms.len() == a.len() && forall|i: int|
            0 <= i < ms.len() ==> Some(#[trigger] ms[i]) == request::decoded_message(
                a[i].get("message"@)->0,
            ),
    decreases a.len(),
{
    if a.len() > 0 {
        let b = a.drop_last();
        assert forall|i: int| 0 <= i < b.len() implies is_choice(#[trigger] b[i]) by {
            assert(b[i] == a[i]);
        }
        lemma_decoded_replies(b);
        assert(is_choice(a[a.len() - 1]));
        lemma_decoded_message(a.last().get("message"@)->0);
        let ms = request::decoded_replies(a)->0;
        let ns = request::decoded_replies(b)->0;
        assert forall|i: int| 0 <= i < ms.len() implies Some(#[trigger] ms[i])
            == request::decoded_message(a[i].get("message"@)->0) by {
            if i < ns.len() {
                assert(ms[i] == ns[i]);
                assert(a[i] == b[i]);
            }
        }
    }
}

/// What is taken of a reply is the message of its first choice, as its JSON holds it,
/// and the usage that it reports.
pub proof fn first_choice_is_taken(
    v: json::JsonView,
    r: Result<types::ResponseView, ReplyError>,
)
    requires
        v is Object,
        v.get("choices"@) matches Some(json::JsonView::Array(a)) && forall|i: int|
            0 <= i < a.len() ==> is_choice(#[trigger] a[i]),
        sse_laws::is_missing(v, "usage"@) || sse_laws::is_usage(v.get("usage"@)->0),
        request::is_reply(request::opened_reply(Some(v)), r),
    ensures
        ({
            let a = v.get("choices"@)->0->Array_0;
            let u = v.get("usage"@)->0;
            let prompt = sse_laws::number_at(u, "prompt_tokens"@).unwrap_or(0);
            let completion = sse_laws::number_at(u, "completion_tokens"@).unwrap_or(0);
            if a.len() == 0 {
                r == Err::<types::ResponseView, _>(ReplyError::NoChoices)
            } else if !sse_laws::is_missing(v, "usage"@) && prompt + completion > u64::MAX {
                r == Err::<types::ResponseView, _>(ReplyError::UsageTooLarge)
            } else {
                r matches Ok(x) && takes_message(x, a[0].get("message"@)->0) && if sse_laws::is_missing(
                    v,
                    "usage"@,
                ) {
                    x.usage is None
                } else {
                    x.usage matches Some(y) && y.prompt_tokens == prompt && y.completion_tokens
                        == completion && y.total_tokens == prompt + completion
                        && y.cache_read_tokens == (match u.get("prompt_tokens_details"@) {
                        Some(d) => sse_laws::number_at(d, "cached_tokens"@).unwrap_or(0),
                        None => 0,
                    }) && y.reasoning_tokens == (match u.get("completion_tokens_details"@) {
                        Some(d) => sse_laws::number_at(d, "reasoning_tokens"@).unwrap_or(0),
                        None => 0,
                    })
                }
            }
        }),
{
    let a = v.get("choices"@)->0->Array_0;
    lemma_decoded_replies(a);
    sse_laws::usage_is_read(v);
    if a.len() > 0 {
        assert(is_choice(a[0]));
        let w = a[0].get("message"@)->0;
        lemma_decoded_message(w);
        let ms = request::decoded_replies(a)->0;
        assert(Some(ms[0]) == request::decoded_message(w));
        if let Ok(x) = r {
            if let Some(cs) = x.tool_calls {
                assert forall|i: int| 0 <= i < cs.len() implies takes_call(
                    #[trigger] cs[i],
                    carried_calls(w)[i],
                ) by {
                    assert(openai::calls_of(ms[0])[i].id == sse_laws::text_at(
                        carried_calls(w)[i],
                        "id"@,
                    ));
                }
            }
        }
    }
}

/// A body that is no JSON, or has no list of choices, cannot be read.
pub proof fn other_bodies_are_refused(
    v: Option<json::JsonView>,
    r: Result<types::ResponseView, ReplyError>,
)
    requires
        v matches Some(o) ==> o is Object && !(o.get("choices"@) matches Some(
            json::JsonView::Array(_),
        )),
        request::is_reply(request::opened_reply(v), r),
    ensures
        r == Err::<types::ResponseView, _>(ReplyError::Unreadable),
{
}

/// A success is taken. A request that is not streamed is sent again only where it was not
/// understood in full, and then without its reasoning effort. A streamed request that
/// was not understood is sent again with less, whatever the further failures are: first the
/// stream options go, then the reasoning effort, where there is one, and the tools
/// last; without them it has failed.
pub proof fn refused_requests_are_sent_with_less(
    a: Attempt,
    has_reasoning: bool,
    status: u16,
)
    ensures
        ({
            let ok = 200 <= status <= 299;
            let unclear = status == 400 || status == 422;
            let chat = request::chat_verdict(a, has_reasoning, status);
            let stream = request::stream_verdict(a, has_reasoning, status);
            &&& (chat == Verdict::Accept) == ok
            &&& (stream == Verdict::Accept) == ok
            &&& (chat == Verdict::Retry(Attempt::WithoutReasoning)) == (a == Attempt::Full && unclear
                && has_reasoning)
            &&& chat is Retry ==> chat == Verdict::Retry(Attempt::WithoutReasoning)
            &&& (stream == Verdict::Retry(Attempt::WithoutStreamOptions)) == (a == Attempt::Full
                && unclear)
            &&& (stream == Verdict::Retry(Attempt::WithoutReasoning)) == (!ok && has_reasoning && a
                == Attempt::WithoutStreamOptions)
            &&& (stream == Verdict::Retry(Attempt::WithoutTools)) == (!ok && (a
                == Attempt::WithoutReasoning || (a == Attempt::WithoutStreamOptions
                && !has_reasoning)))
            &&& stream != Verdict::Retry(Attempt::Full)
        }),
{
}

/// A reply with a choice that has no message, or whose message cannot be read, is not
/// taken.
pub proof fn malformed_replies_are_refused(
    v: json::JsonView,
    a: Seq<json::JsonView>,
    i: int,
    r: Result<types::ResponseView, ReplyError>,
)
    requires
        v is Object,
        v.get("choices"@) == Some(json::JsonView::Array(a)),
        0 <= i < a.len(),
        a[i] is Object,
        match a[i].get("message"@) {
            None => true,
            Some(m) => m is Object && (!sse_laws::may_be_text(m, "content"@)
                || !sse_laws::may_be_text(m, "reasoning_content"@)),
        },
        request::is_reply(request::opened_reply(Some(v)), r),
    ensures
        r == Err::<types::ResponseView, _>(ReplyError::Unreadable),
{
    request::lemma_replies(a, i);
}

/// What a system message, a user or an assistant says in words is the content of the
/// message that is sent in its place, whatever is dropped from the request.
pub proof fn words_are_sent(
    q: ChatRequest,
    cleaned: Seq<json::JsonView>,
    streamed: bool,
    a: Attempt,
    i: int,
)
    requires
        0 <= i < q.messages@.len(),
        q.messages@[i].role != MessageRole::Tool,
        q.messages@[i].content_parts is None,
        q.messages@[i].content@.len() > 0,
    ensures
        sent(q, cleaned, streamed, a).get("messages"@) matches Some(json::JsonView::Array(ms))
            && ms.len() == q.messages@.len() && ms[i].get("content"@) == Some(
            json::JsonView::Text(q.messages@[i].content@),
        ),
{
    messages_are_sent(q, cleaned, streamed, a);
    let ms = sent(q, cleaned, streamed, a).get("messages"@)->0->Array_0;
    assert(says_message(ms[i], q.messages@[i]));
}

/// The result of a tool call is sent with the id of its call and with what the tool gave;
/// the calls of an assistant are sent with their ids, their tools and their arguments.
pub proof fn calls_and_results_are_sent(
    q: ChatRequest,
    cleaned: Seq<json::JsonView>,
    streamed: bool,
    a: Attempt,
    i: int,
    j: int,
)
    requires
        0 <= i < q.messages@.len(),
    ensures
        sent(q, cleaned, streamed, a).get("messages"@) matches Some(json::JsonView::Array(ms)) && {
            let m = q.messages@[i];
            &&& ms.len() == q.messages@.len()
            &&& m.role == MessageRole::Tool && m.tool_call_id is Some ==> ms[i].get("content"@)
                == Some(json::JsonView::Text(m.content@)) && ms[i].get("tool_call_id"@) == Some(
                json::JsonView::Text(m.tool_call_id->0@),
            ) && ms[i].get("role"@) == Some(json::JsonView::Text("tool"@))
            &&& m.role == MessageRole::Assistant && m.tool_calls is Some && 0 <= j
                < m.tool_calls->0@.len() ==> (ms[i].get("tool_calls"@) matches Some(
                json::JsonView::Array(cs),
            ) && cs.len() == m.tool_calls->0@.len() && cs[j].get("id"@) == Some(
                json::JsonView::Text(m.tool_calls->0@[j].id@),
            ) && (cs[j].get("function"@) matches Some(f) && f.get("name"@) == Some(
                json::JsonView::Text(m.tool_calls->0@[j].function.name@),
            ) && f.get("arguments"@) == Some(
                json::JsonView::Text(m.tool_calls->0@[j].function.arguments@),
            )))
        },
{
    messages_are_sent(q, cleaned, streamed, a);
    let ms = sent(q, cleaned, streamed, a).get("messages"@)->0->Array_0;
    assert(says_message(ms[i], q.messages@[i]));
    let m = q.messages@[i];
    if m.role == MessageRole::Assistant && m.tool_calls is Some && 0 <= j
        < m.tool_calls->0@.len() {
        let cs = ms[i].get("tool_calls"@)->0->Array_0;
        assert(says_call(cs[j], m.tool_calls->0@[j]));
    }
}

} // verus!
