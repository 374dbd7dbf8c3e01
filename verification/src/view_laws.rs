//! The values that contracts speak of are those of the fields, one for one.

use crate::agent::session_state::TodoItem;
use crate::agent::session_state;
use crate::conversation::entry::ConversationEntry;
use crate::conversation::entry;
use crate::conversation::metadata::SessionMetadata;
use crate::conversation::since::{StreamingLine, StreamingLineDelta};
use crate::gateway::memory::MemoryNodeEntry;
use crate::gateway::memory;
use crate::json::{Json, JsonMember};
use crate::json;
use crate::message::{ChatMessage, ContentPart, ToolCall};
use crate::message;
use crate::providers::sse::{StreamChoice, StreamToolCallDelta};
use crate::providers::sse;
use crate::providers::types::{ChatResponse, StreamError, StreamEvent};
use crate::providers::types;
use crate::text;
use vstd::prelude::*;

verus! {

/// `v` is what the optional text `o` holds.
pub open spec fn is_opt(v: Option<Seq<char>>, o: Option<String>) -> bool {
    match o {
        Some(s) => v == Some(s@),
        None => v is None,
    }
}

/// A message is seen with all that it holds: who speaks, what is said, the parts, the
/// thinking, the name, the call that it answers and the calls that it makes.
pub proof fn messages_are_seen_whole(m: ChatMessage)
    ensures
        m@.role == m.role,
        m@.content == m.content@,
        is_opt(m@.reasoning_content, m.reasoning_content),
        is_opt(m@.name, m.name),
        is_opt(m@.tool_call_id, m.tool_call_id),
        m.tool_calls is None <==> m@.tool_calls is None,
        m.tool_calls matches Some(cs) ==> m@.tool_calls->0.len() == cs@.len() && forall|i: int|
            0 <= i < cs@.len() ==> #[trigger] m@.tool_calls->0[i] == cs@[i]@,
        m.content_parts is None <==> m@.content_parts is None,
        m.content_parts matches Some(ps) ==> m@.content_parts->0.len() == ps@.len() && forall|
            i: int,
        |
            0 <= i < ps@.len() ==> #[trigger] m@.content_parts->0[i] == ps@[i]@,
{
}

/// A tool call is seen with its id, its kind, its name and its arguments, and a part of a
/// message with its text, or with its address and its detail.
pub proof fn parts_are_seen_whole(c: ToolCall, p: ContentPart)
    ensures
        c@.id == c.id@,
        c@.call_type == c.call_type@,
        c@.name == c.function.name@,
        c@.arguments == c.function.arguments@,
        p matches ContentPart::Text { text } ==> p@ == message::ContentPartView::Text(text@),
        p matches ContentPart::ImageUrl { image_url } ==> (
        p@ matches message::ContentPartView::ImageUrl(u, d) && u == image_url.url@ && is_opt(
            d,
            image_url.detail,
        )),
{
}

/// An entry is seen with its id, its time, its role, its content, its metadata and its kind.
pub proof fn entries_are_seen_whole(e: ConversationEntry)
    ensures
        e@.id == e.id@,
        e@.ts == e.ts@,
        e@.role == e.role@,
        e@.content == e.content@,
        is_opt(e@.kind, e.kind),
        e.metadata matches Some(m) ==> e@.metadata == Some(m@),
        e.metadata is None ==> e@.metadata is None,
{
}

/// The metadata of a session are seen member by member.
pub proof fn metadata_are_seen_whole(m: SessionMetadata)
    ensures
        m@.version == m.version,
        m@.session_id == m.session_id@,
        m@.created_at == m.created_at@,
        m@.agent_id == m.agent_id@,
        is_opt(m@.title, m.title),
        is_opt(m@.updated_at, m.updated_at),
        m@.message_count == m.message_count,
        m@.corrupted == m.corrupted,
        is_opt(m@.workspace_id, m.workspace_id),
        is_opt(m@.model, m.model),
        is_opt(m@.provider, m.provider),
        is_opt(m@.reasoning_effort, m.reasoning_effort),
        m.temperature matches Some(n) ==> m@.temperature == Some((n.unsigned, n.literal@)),
        m.temperature is None ==> m@.temperature is None,
        m@.last_input_tokens == m.last_input_tokens,
        m@.last_output_tokens == m.last_output_tokens,
        m@.last_compaction_offset == m.last_compaction_offset,
{
}

/// A streamed line and the new part of one are seen with their numbers, roles and texts.
pub proof fn lines_are_seen_whole(l: StreamingLine, d: StreamingLineDelta)
    ensures
        l@.line_number == l.line_number,
        l@.role == l.role@,
        l@.accumulated_content == l.accumulated_content@,
        l@.started_at_ms == l.started_at_ms,
        d@.line == d.line,
        d@.role == d.role@,
        d@.content == d.content@,
        d@.char_offset == d.char_offset,
{
}

/// An event of a streamed reply is seen as what it is, with all that it carries.
pub proof fn events_are_seen_whole(e: StreamEvent)
    ensures
        match e {
            StreamEvent::Content(s) => e@ == types::StreamEventView::Content(s@),
            StreamEvent::ReasoningContent(s) => e@ == types::StreamEventView::ReasoningContent(s@),
            StreamEvent::ToolCallStart(c) => e@ == types::StreamEventView::ToolCallStart(c@),
            StreamEvent::ToolCallChunk { index, arguments } => e@
                == types::StreamEventView::ToolCallChunk(index, arguments@),
            StreamEvent::Finished(r) => e@ == types::StreamEventView::Finished(r@),
            StreamEvent::Error(StreamError::Silence(n)) => e@ == types::StreamEventView::Silence(n),
            StreamEvent::Error(StreamError::Transport(s)) => e@
                == types::StreamEventView::Transport(s@),
        },
{
}

/// A reply is seen with its content, its thinking, its calls, its usage and why it ended.
pub proof fn replies_are_seen_whole(r: ChatResponse)
    ensures
        r@.content == r.content@,
        is_opt(r@.reasoning_content, r.reasoning_content),
        is_opt(r@.finish_reason, r.finish_reason),
        r@.usage == r.usage,
        r.tool_calls is None <==> r@.tool_calls is None,
        r.tool_calls matches Some(cs) ==> r@.tool_calls->0.len() == cs@.len() && forall|i: int|
            0 <= i < cs@.len() ==> #[trigger] r@.tool_calls->0[i] == cs@[i]@,
{
}

/// What a chunk gives of a tool call and of a choice is seen member by member.
pub proof fn deltas_are_seen_whole(t: StreamToolCallDelta, c: StreamChoice)
    ensures
        t@.index == t.index,
        is_opt(t@.id, t.id),
        t.function is None <==> t@.function is None,
        t.function matches Some(f) ==> is_opt(t@.function->0.name, f.name) && is_opt(
            t@.function->0.arguments,
            f.arguments,
        ),
        is_opt(c@.delta.content, c.delta.content),
        is_opt(c@.delta.reasoning_content, c.delta.reasoning_content),
        is_opt(c@.finish_reason, c.finish_reason),
        c.delta.tool_calls is None <==> c@.delta.tool_calls is None,
        c.delta.tool_calls matches Some(ts) ==> c@.delta.tool_calls->0.len() == ts@.len()
            && forall|i: int|
            0 <= i < ts@.len() ==> #[trigger] c@.delta.tool_calls->0[i] == ts@[i]@,
{
}

/// A JSON value is seen as what it is, with its elements and members in their order.
pub proof fn json_is_seen_whole(j: Json)
    ensures
        match j {
            Json::Null => j@ == json::JsonView::Null,
            Json::Bool(b) => j@ == json::JsonView::Bool(b),
            Json::Number(n) => j@ == json::JsonView::Number(n.unsigned, n.literal@),
            Json::Text(s) => j@ == json::JsonView::Text(s@),
            Json::Array(a) => j@ matches json::JsonView::Array(v) && v.len() == a@.len() && forall|
                i: int,
            |
                0 <= i < v.len() ==> #[trigger] v[i] == a@[i]@,
            Json::Object(m) => j@ matches json::JsonView::Object(v) && v.len() == m@.len()
                && forall|i: int|
                0 <= i < v.len() ==> #[trigger] v[i] == (m@[i].key@, m@[i].value@),
        },
{
    json::lemma_view_parts(j);
}

/// A node of the memory and a task are seen with all that they hold.
pub proof fn nodes_are_seen_whole(n: MemoryNodeEntry, t: TodoItem)
    ensures
        n@.node_id == n.node_id,
        n@.node_type == n.node_type@,
        n@.content == n.content@,
        n@.created_at == n.created_at,
        n@.last_accessed_at == n.last_accessed_at,
        n@.access_count == n.access_count,
        n@.status == n.status@,
        n@.confidence == (n.confidence.unsigned, n.confidence.literal@),
        n@.decay_score == (n.decay_score.unsigned, n.decay_score.literal@),
        t@.id == t.id@,
        t@.content == t.content@,
        t@.status == t.status,
{
}

/// Lists are seen element by element, none more and none less.
pub proof fn lists_are_seen_whole(
    ms: Seq<ChatMessage>,
    es: Seq<ConversationEntry>,
    vs: Seq<StreamEvent>,
    js: Seq<Json>,
    xs: Seq<JsonMember>,
    ns: Seq<MemoryNodeEntry>,
    ts: Seq<TodoItem>,
    ss: Seq<String>,
    i: int,
)
    ensures
        message::message_views(ms).len() == ms.len(),
        0 <= i < ms.len() ==> message::message_views(ms)[i] == ms[i]@,
        entry::entry_views(es).len() == es.len(),
        0 <= i < es.len() ==> entry::entry_views(es)[i] == es[i]@,
        types::event_views(vs).len() == vs.len(),
        0 <= i < vs.len() ==> types::event_views(vs)[i] == vs[i]@,
        json::views(js).len() == js.len(),
        0 <= i < js.len() ==> json::views(js)[i] == js[i]@,
        json::member_views(xs).len() == xs.len(),
        0 <= i < xs.len() ==> json::member_views(xs)[i] == (xs[i].key@, xs[i].value@),
        memory::node_views(ns).len() == ns.len(),
        0 <= i < ns.len() ==> memory::node_views(ns)[i] == ns[i]@,
        session_state::todo_views(ts).len() == ts.len(),
        0 <= i < ts.len() ==> session_state::todo_views(ts)[i] == ts[i]@,
        text::texts(ss).len() == ss.len(),
        0 <= i < ss.len() ==> text::texts(ss)[i] == ss[i]@,
{
}

/// The lists of a chunk are seen element by element.
pub proof fn chunks_are_seen_whole(
    cs: Seq<StreamChoice>,
    ts: Seq<StreamToolCallDelta>,
    o: Option<String>,
    j: Option<Json>,
    i: int,
)
    ensures
        sse::choice_views(cs).len() == cs.len(),
        0 <= i < cs.len() ==> sse::choice_views(cs)[i] == cs[i]@,
        sse::tool_views(ts).len() == ts.len(),
        0 <= i < ts.len() ==> sse::tool_views(ts)[i] == ts[i]@,
        is_opt(text::opt_text(o), o),
        j matches Some(v) ==> json::opt_view(j) == Some(v@),
        j is None ==> json::opt_view(j) is None,
{
}

} // verus!
