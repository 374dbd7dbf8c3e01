//! What a streamed reply says is what its chunks say, piece by piece.

use crate::ids;
use crate::json;
use crate::message;
use crate::providers::sse;
use crate::providers::types;
use crate::text;
use vstd::prelude::*;

verus! {

/// The arguments that the events give for the tool call with the index `n`, joined.
pub open spec fn argument_text(events: Seq<types::StreamEventView>, n: u64) -> Seq<char>
    decreases events.len(),
{
    if events.len() == 0 {
        Seq::empty()
    } else {
        let rest = argument_text(events.drop_last(), n);
        match events.last() {
            types::StreamEventView::ToolCallChunk(i, a) if i == n => rest + a,
            _ => rest,
        }
    }
}

/// The content that the events give, joined.
pub open spec fn content_text(events: Seq<types::StreamEventView>) -> Seq<char>
    decreases events.len(),
{
    if events.len() == 0 {
        Seq::empty()
    } else {
        let rest = content_text(events.drop_last());
        match events.last() {
            types::StreamEventView::Content(s) => rest + s,
            _ => rest,
        }
    }
}

/// The thinking that the events give, joined.
pub open spec fn reasoning_text(events: Seq<types::StreamEventView>) -> Seq<char>
    decreases events.len(),
{
    if events.len() == 0 {
        Seq::empty()
    } else {
        let rest = reasoning_text(events.drop_last());
        match events.last() {
            types::StreamEventView::ReasoningContent(s) => rest + s,
            _ => rest,
        }
    }
}

/// The tool calls that the events begin, in their order.
pub open spec fn started(events: Seq<types::StreamEventView>) -> Seq<message::ToolCallView>
    decreases events.len(),
{
    if events.len() == 0 {
        Seq::empty()
    } else {
        let rest = started(events.drop_last());
        match events.last() {
            types::StreamEventView::ToolCallStart(c) => rest.push(c),
            _ => rest,
        }
    }
}

/// The text, or nothing.
pub open spec fn or_nothing(o: Option<Seq<char>>) -> Seq<char> {
    match o {
        Some(s) => s,
        None => Seq::empty(),
    }
}

/// The piece of the arguments of the tool call with the index `n` that a delta
/// carries. A delta without an index is one of the first call.
pub open spec fn argument_piece(t: sse::ToolDeltaView, n: u64) -> Seq<char> {
    match t.function {
        Some(f) => if t.index == Some(n) || (t.index is None && n == 0) {
            or_nothing(f.arguments)
        } else {
            Seq::empty()
        },
        None => Seq::empty(),
    }
}

/// The arguments of the tool call with the index `n`, as far as `ts` carries them.
pub open spec fn argument_pieces(ts: Seq<sse::ToolDeltaView>, n: u64) -> Seq<char>
    decreases ts.len(),
{
    if ts.len() == 0 {
        Seq::empty()
    } else {
        argument_pieces(ts.drop_last(), n) + argument_piece(ts.last(), n)
    }
}

/// The arguments of the tool call with the index `n`, as far as choices carry them.
pub open spec fn choice_arguments(cs: Seq<sse::ChoiceView>, n: u64) -> Seq<char>
    decreases cs.len(),
{
    if cs.len() == 0 {
        Seq::empty()
    } else {
        choice_arguments(cs.drop_last(), n) + match cs.last().delta.tool_calls {
            Some(ts) => argument_pieces(ts, n),
            None => Seq::empty(),
        }
    }
}

/// The content of choices, joined.
pub open spec fn choice_contents(cs: Seq<sse::ChoiceView>) -> Seq<char>
    decreases cs.len(),
{
    if cs.len() == 0 {
        Seq::empty()
    } else {
        choice_contents(cs.drop_last()) + or_nothing(cs.last().delta.content)
    }
}

/// The thinking of choices, joined.
pub open spec fn choice_thoughts(cs: Seq<sse::ChoiceView>) -> Seq<char>
    decreases cs.len(),
{
    if cs.len() == 0 {
        Seq::empty()
    } else {
        choice_thoughts(cs.drop_last()) + or_nothing(cs.last().delta.reasoning_content)
    }
}

/// The names of the functions that deltas name, each with the id of its call.
pub open spec fn named_calls(ts: Seq<sse::ToolDeltaView>) -> Seq<(Seq<char>, Option<Seq<char>>)>
    decreases ts.len(),
{
    if ts.len() == 0 {
        Seq::empty()
    } else {
        let rest = named_calls(ts.drop_last());
        match ts.last().function {
            Some(f) => if or_nothing(f.name).len() > 0 {
                rest.push((or_nothing(f.name), ts.last().id))
            } else {
                rest
            },
            None => rest,
        }
    }
}

/// The names of the functions that choices name, each with the id of its call.
pub open spec fn choice_calls(cs: Seq<sse::ChoiceView>) -> Seq<(Seq<char>, Option<Seq<char>>)>
    decreases cs.len(),
{
    if cs.len() == 0 {
        Seq::empty()
    } else {
        choice_calls(cs.drop_last()) + match cs.last().delta.tool_calls {
            Some(ts) => named_calls(ts),
            None => Seq::empty(),
        }
    }
}

/// How many of the calls have no id.
pub open spec fn without_id(calls: Seq<(Seq<char>, Option<Seq<char>>)>) -> nat
    decreases calls.len(),
{
    if calls.len() == 0 {
        0
    } else {
        without_id(calls.drop_last()) + (if calls.last().1 is None {
            1nat
        } else {
            0nat
        })
    }
}

/// `c` is the call that `x` begins: it has its name, and its id or, where there is
/// none, `fresh`; it has no arguments yet.
pub open spec fn begins(
    c: message::ToolCallView,
    x: (Seq<char>, Option<Seq<char>>),
    fresh: Seq<char>,
) -> bool {
    &&& c.name == x.0
    &&& c.id == match x.1 {
        Some(id) => id,
        None => fresh,
    }
    &&& c.call_type == "function"@
    &&& c.arguments.len() == 0
}

/// The calls of `calls` are those that `xs` begins. Each call without an id takes the
/// next of the ids in `fresh`, from `base` on.
pub open spec fn all_begin(
    calls: Seq<message::ToolCallView>,
    xs: Seq<(Seq<char>, Option<Seq<char>>)>,
    fresh: Seq<Seq<char>>,
    base: int,
) -> bool {
    calls.len() == xs.len() && forall|i: int|
        0 <= i < xs.len() ==> begins(
            #[trigger] calls[i],
            xs[i],
            fresh[base + without_id(xs.take(i))],
        )
}

pub(crate) proof fn lemma_joined(
    a: Seq<types::StreamEventView>,
    b: Seq<types::StreamEventView>,
    n: u64,
)
    ensures
        argument_text(a + b, n) == argument_text(a, n) + argument_text(b, n),
        content_text(a + b) == content_text(a) + content_text(b),
        reasoning_text(a + b) == reasoning_text(a) + reasoning_text(b),
        started(a + b) == started(a) + started(b),
    decreases b.len(),
{
    if b.len() == 0 {
        assert(a + b =~= a);
        assert(argument_text(a, n) + argument_text(b, n) =~= argument_text(a, n));
        assert(content_text(a) + content_text(b) =~= content_text(a));
        assert(reasoning_text(a) + reasoning_text(b) =~= reasoning_text(a));
        assert(started(a) + started(b) =~= started(a));
    } else {
        assert((a + b).drop_last() =~= a + b.drop_last());
        assert((a + b).last() == b.last());
        lemma_joined(a, b.drop_last(), n);
        assert(argument_text(a + b, n) =~= argument_text(a, n) + argument_text(b, n));
        assert(content_text(a + b) =~= content_text(a) + content_text(b));
        assert(reasoning_text(a + b) =~= reasoning_text(a) + reasoning_text(b));
        assert(started(a + b) =~= started(a) + started(b));
    }
}

proof fn lemma_single(e: types::StreamEventView, n: u64)
    ensures
        argument_text(seq![e], n) == (match e {
            types::StreamEventView::ToolCallChunk(i, a) if i == n => a,
            _ => Seq::empty(),
        }),
        content_text(seq![e]) == (match e {
            types::StreamEventView::Content(s) => s,
            _ => Seq::empty(),
        }),
        reasoning_text(seq![e]) == (match e {
            types::StreamEventView::ReasoningContent(s) => s,
            _ => Seq::empty(),
        }),
        started(seq![e]) == (match e {
            types::StreamEventView::ToolCallStart(c) => seq![c],
            _ => Seq::empty(),
        }),
{
    let none = Seq::<types::StreamEventView>::empty();
    assert(seq![e].drop_last() =~= none);
    assert(argument_text(none, n) =~= Seq::empty());
    assert(content_text(none) =~= Seq::empty());
    assert(reasoning_text(none) =~= Seq::empty());
    assert(started(none) =~= Seq::empty());
    assert(argument_text(seq![e], n) =~= match e {
        types::StreamEventView::ToolCallChunk(i, a) if i == n => a,
        _ => Seq::empty(),
    });
    assert(content_text(seq![e]) =~= match e {
        types::StreamEventView::Content(s) => s,
        _ => Seq::empty(),
    });
    assert(reasoning_text(seq![e]) =~= match e {
        types::StreamEventView::ReasoningContent(s) => s,
        _ => Seq::empty(),
    });
    assert(started(seq![e]) =~= match e {
        types::StreamEventView::ToolCallStart(c) => seq![c],
        _ => Seq::empty(),
    });
}

/// A delta of a tool call that names a function begins the call with one event. A
/// piece of its arguments that is not empty gives exactly one chunk, the last event,
/// which carries the index of the delta and the piece. Nothing else comes of a delta,
/// but for an empty chunk where it carries empty arguments and no name.
pub proof fn delta_gives_its_piece(t: sse::ToolDeltaView, fresh: Seq<char>, n: u64)
    ensures
        ({
            let events = sse::tool_events(t, fresh);
            let name = match t.function {
                Some(f) => or_nothing(f.name),
                None => Seq::empty(),
            };
            let arguments = match t.function {
                Some(f) => f.arguments,
                None => None,
            };
            let begin: nat = if name.len() > 0 {
                1
            } else {
                0
            };
            &&& argument_text(events, n) == argument_piece(t, n)
            &&& content_text(events) == Seq::<char>::empty()
            &&& reasoning_text(events) == Seq::<char>::empty()
            &&& name.len() > 0 ==> {
                &&& started(events).len() == 1
                &&& begins(started(events)[0], (name, t.id), fresh)
                &&& events[0] == types::StreamEventView::ToolCallStart(started(events)[0])
            }
            &&& name.len() == 0 ==> started(events).len() == 0
            &&& match arguments {
                None => events.len() == begin,
                Some(a) => if a.len() > 0 || name.len() == 0 {
                    events.len() == begin + 1 && events.last()
                        == types::StreamEventView::ToolCallChunk(
                        match t.index {
                            Some(i) => i,
                            None => 0,
                        },
                        a,
                    )
                } else {
                    events.len() == begin
                },
            }
        }),
{
    let events = sse::tool_events(t, fresh);
    if events.len() == 1 {
        lemma_single(events[0], n);
        assert(events =~= seq![events[0]]);
    } else if events.len() == 2 {
        lemma_single(events[0], n);
        lemma_single(events[1], n);
        lemma_joined(seq![events[0]], seq![events[1]], n);
        assert(events =~= seq![events[0]] + seq![events[1]]);
    }
    assert(argument_text(events, n) =~= argument_piece(t, n));
    assert(content_text(events) =~= Seq::empty());
    assert(reasoning_text(events) =~= Seq::empty());
}

proof fn lemma_without_id(
    a: Seq<(Seq<char>, Option<Seq<char>>)>,
    b: Seq<(Seq<char>, Option<Seq<char>>)>,
)
    ensures
        without_id(a + b) == without_id(a) + without_id(b),
    decreases b.len(),
{
    if b.len() == 0 {
        assert(a + b =~= a);
    } else {
        assert((a + b).drop_last() =~= a + b.drop_last());
        lemma_without_id(a, b.drop_last());
    }
}

proof fn lemma_all_begin(
    calls: Seq<message::ToolCallView>,
    xs: Seq<(Seq<char>, Option<Seq<char>>)>,
    more: Seq<message::ToolCallView>,
    ys: Seq<(Seq<char>, Option<Seq<char>>)>,
    fresh: Seq<Seq<char>>,
    base: int,
)
    requires
        all_begin(calls, xs, fresh, base),
        all_begin(more, ys, fresh, base + without_id(xs)),
    ensures
        all_begin(calls + more, xs + ys, fresh, base),
        without_id(xs + ys) == without_id(xs) + without_id(ys),
{
    lemma_without_id(xs, ys);
    assert forall|i: int| 0 <= i < (xs + ys).len() implies begins(
        #[trigger] (calls + more)[i],
        (xs + ys)[i],
        fresh[base + without_id((xs + ys).take(i))],
    ) by {
        if i < xs.len() {
            assert((xs + ys).take(i) =~= xs.take(i));
            assert(begins(calls[i], xs[i], fresh[base + without_id(xs.take(i))]));
        } else {
            let j = i - xs.len();
            assert((xs + ys).take(i) =~= xs + ys.take(j));
            lemma_without_id(xs, ys.take(j));
            assert(begins(more[j], ys[j], fresh[base + without_id(xs) + without_id(ys.take(j))]));
        }
    }
}

proof fn lemma_tools(ts: Seq<sse::ToolDeltaView>, fresh: Seq<Seq<char>>, base: int, i: int, n: u64)
    requires
        0 <= i <= ts.len(),
    ensures
        ({
            let events = sse::tools_events(ts, fresh, base, i);
            let part = ts.take(i);
            &&& argument_text(events, n) == argument_pieces(part, n)
            &&& content_text(events) == Seq::<char>::empty()
            &&& reasoning_text(events) == Seq::<char>::empty()
            &&& all_begin(started(events), named_calls(part), fresh, base)
            &&& sse::ids_needed(ts, i) == without_id(named_calls(part))
        }),
    decreases i,
{
    let part = ts.take(i);
    if i > 0 {
        lemma_tools(ts, fresh, base, i - 1, n);
        assert(part.drop_last() =~= ts.take(i - 1));
        assert(part.last() == ts[i - 1]);
        let before = sse::tools_events(ts, fresh, base, i - 1);
        let id = fresh[base + sse::ids_needed(ts, i - 1)];
        let more = sse::tool_events(ts[i - 1], id);
        delta_gives_its_piece(ts[i - 1], id, n);
        lemma_joined(before, more, n);
        let xs = named_calls(part.drop_last());
        let ys = named_calls(part).skip(xs.len() as int);
        assert(named_calls(part) =~= xs + ys);
        if ys.len() > 0 {
            assert(ys =~= seq![ys[0]]);
            assert(ys.take(0) =~= Seq::empty());
            assert(ys.drop_last() =~= Seq::empty());
            assert(without_id(ys.take(0)) == 0);
            assert(started(more) =~= seq![started(more)[0]]);
        }
        assert(all_begin(started(more), ys, fresh, base + without_id(xs)));
        lemma_all_begin(started(before), xs, started(more), ys, fresh, base);
        reveal_with_fuel(without_id, 2);
        assert(content_text(before + more) =~= Seq::empty());
        assert(reasoning_text(before + more) =~= Seq::empty());
    }
}

proof fn lemma_text_event(o: Option<Seq<char>>, reasoning: bool, n: u64)
    ensures
        ({
            let events = sse::text_event(o, reasoning);
            &&& argument_text(events, n) == Seq::<char>::empty()
            &&& content_text(events) == (if reasoning {
                Seq::empty()
            } else {
                or_nothing(o)
            })
            &&& reasoning_text(events) == (if reasoning {
                or_nothing(o)
            } else {
                Seq::empty()
            })
            &&& started(events) == Seq::<message::ToolCallView>::empty()
        }),
{
    let events = sse::text_event(o, reasoning);
    if events.len() > 0 {
        lemma_single(events[0], n);
        assert(events =~= seq![events[0]]);
    } else {
        assert(or_nothing(o) =~= Seq::empty());
        assert(started(events) =~= Seq::empty());
        assert(content_text(events) =~= Seq::empty());
        assert(reasoning_text(events) =~= Seq::empty());
    }
    assert(argument_text(events, n) =~= Seq::empty());
}

proof fn lemma_choices(cs: Seq<sse::ChoiceView>, fresh: Seq<Seq<char>>, i: int, n: u64)
    requires
        0 <= i <= cs.len(),
    ensures
        ({
            let events = sse::choices_events(cs, fresh, i);
            let part = cs.take(i);
            &&& argument_text(events, n) == choice_arguments(part, n)
            &&& content_text(events) == choice_contents(part)
            &&& reasoning_text(events) == choice_thoughts(part)
            &&& all_begin(started(events), choice_calls(part), fresh, 0)
            &&& sse::ids_needed_by(cs, i) == without_id(choice_calls(part))
        }),
    decreases i,
{
    let part = cs.take(i);
    if i > 0 {
        lemma_choices(cs, fresh, i - 1, n);
        assert(part.drop_last() =~= cs.take(i - 1));
        assert(part.last() == cs[i - 1]);
        let c = cs[i - 1];
        let ts = sse::tools_of(c);
        let before = sse::choices_events(cs, fresh, i - 1);
        let said = sse::text_event(c.delta.content, false);
        let thought = sse::text_event(c.delta.reasoning_content, true);
        let base = sse::ids_needed_by(cs, i - 1) as int;
        let tools = sse::tools_events(ts, fresh, base, ts.len() as int);
        lemma_text_event(c.delta.content, false, n);
        lemma_text_event(c.delta.reasoning_content, true, n);
        lemma_tools(ts, fresh, base, ts.len() as int, n);
        assert(ts.take(ts.len() as int) =~= ts);
        lemma_joined(before, said, n);
        lemma_joined(before + said, thought, n);
        lemma_joined(before + said + thought, tools, n);
        let xs = choice_calls(part.drop_last());
        let ys = named_calls(ts);
        assert(choice_calls(part) =~= xs + ys);
        lemma_all_begin(started(before), xs, started(tools), ys, fresh, 0);
        let events = sse::choices_events(cs, fresh, i);
        assert(events == before + said + thought + tools);
        assert(started(events) =~= started(before) + started(tools));
        assert(argument_text(events, n) =~= choice_arguments(part, n));
        assert(content_text(events) =~= choice_contents(part));
        assert(reasoning_text(events) =~= choice_thoughts(part));
    }
}

/// A chunk that reports no usage gives what its choices carry, in their order: the
/// content, the thinking, for every index the pieces of the arguments of the call
/// with that index, and the beginnings of calls, with their names and ids.
pub proof fn chunk_keeps_what_it_carries(c: sse::ChunkView, fresh: Seq<Seq<char>>, n: u64)
    requires
        c.usage is None,
    ensures
        ({
            let events = sse::chunk_outcome(c, fresh).events;
            &&& content_text(events) == choice_contents(c.choices)
            &&& reasoning_text(events) == choice_thoughts(c.choices)
            &&& argument_text(events, n) == choice_arguments(c.choices, n)
            &&& all_begin(started(events), choice_calls(c.choices), fresh, 0)
            &&& sse::chunk_outcome(c, fresh).usage is None
        }),
{
    lemma_choices(c.choices, fresh, c.choices.len() as int, n);
    assert(c.choices.take(c.choices.len() as int) =~= c.choices);
}

/// A chunk that reports usage gives no events, and the numbers that it reports: what it
/// does not report counts as zero, and the total is the sum.
pub proof fn chunk_reports_its_usage(c: sse::ChunkView, fresh: Seq<Seq<char>>)
    requires
        c.usage is Some,
        sse::usage_fits(c.usage->0),
    ensures
        ({
            let u = c.usage->0;
            let out = sse::chunk_outcome(c, fresh);
            &&& out.events.len() == 0
            &&& out.usage matches Some(r) && {
                &&& r.prompt_tokens == u.prompt_tokens.unwrap_or(0)
                &&& r.completion_tokens == u.completion_tokens.unwrap_or(0)
                &&& r.total_tokens == r.prompt_tokens + r.completion_tokens
                &&& r.cache_write_tokens == 0
                &&& match u.prompt_tokens_details {
                    Some(d) => r.cache_read_tokens == d.cached_tokens.unwrap_or(0),
                    None => r.cache_read_tokens == 0,
                }
                &&& match u.completion_tokens_details {
                    Some(d) => r.reasoning_tokens == d.reasoning_tokens.unwrap_or(0),
                    None => r.reasoning_tokens == 0,
                }
            }
        }),
{
}

/// The finish reason of a chunk is that of the last choice that gives one.
pub proof fn last_finish_reason_counts(c: sse::ChunkView, fresh: Seq<Seq<char>>, i: int)
    requires
        0 <= i < c.choices.len(),
        c.choices[i].finish_reason is Some,
        forall|k: int| i < k < c.choices.len() ==> (#[trigger] c.choices[k]).finish_reason is None,
    ensures
        sse::chunk_outcome(c, fresh).finish_reason == c.choices[i].finish_reason,
{
    lemma_finish(c.choices, c.choices.len() as int, i);
}

proof fn lemma_finish(cs: Seq<sse::ChoiceView>, n: int, i: int)
    requires
        0 <= i < n <= cs.len(),
        cs[i].finish_reason is Some,
        forall|k: int| i < k < n ==> (#[trigger] cs[k]).finish_reason is None,
    ensures
        sse::finish_reason_of(cs, n) == cs[i].finish_reason,
    decreases n,
{
    if i < n - 1 {
        lemma_finish(cs, n - 1, i);
    }
}

/// Where no choice of a chunk gives a finish reason, the chunk has none.
pub proof fn no_finish_reason_is_made_up(c: sse::ChunkView, fresh: Seq<Seq<char>>)
    requires
        forall|k: int| 0 <= k < c.choices.len() ==> (#[trigger] c.choices[k]).finish_reason is None,
    ensures
        sse::chunk_outcome(c, fresh).finish_reason is None,
{
    lemma_no_finish(c.choices, c.choices.len() as int);
}

proof fn lemma_no_finish(cs: Seq<sse::ChoiceView>, n: int)
    requires
        0 <= n <= cs.len(),
        forall|k: int| 0 <= k < n ==> (#[trigger] cs[k]).finish_reason is None,
    ensures
        sse::finish_reason_of(cs, n) is None,
    decreases n,
{
    if n > 0 {
        lemma_no_finish(cs, n - 1);
    }
}

/// The text that a member of a JSON object holds.
pub open spec fn text_at(v: json::JsonView, key: Seq<char>) -> Option<Seq<char>> {
    match v.get(key) {
        Some(json::JsonView::Text(s)) => Some(s),
        _ => None,
    }
}

/// The unsigned integer that a member of a JSON object holds.
pub open spec fn number_at(v: json::JsonView, key: Seq<char>) -> Option<u64> {
    match v.get(key) {
        Some(json::JsonView::Number(Some(n), _)) => Some(n),
        _ => None,
    }
}

/// A member is not there, or is null.
pub open spec fn is_missing(v: json::JsonView, key: Seq<char>) -> bool {
    v.get(key) is None || v.get(key) == Some(json::JsonView::Null)
}

/// A member is a string, or is missing.
pub open spec fn may_be_text(v: json::JsonView, key: Seq<char>) -> bool {
    is_missing(v, key) || text_at(v, key) is Some
}

/// A member is an unsigned integer, or is missing.
pub open spec fn may_be_number(v: json::JsonView, key: Seq<char>) -> bool {
    is_missing(v, key) || number_at(v, key) is Some
}

/// The object `v` can be read as what a chunk gives of a function.
pub open spec fn is_function_delta(v: json::JsonView) -> bool {
    v is Object && may_be_text(v, "name"@) && may_be_text(v, "arguments"@)
}

/// The object `v` can be read as what a chunk gives of a tool call.
pub open spec fn is_tool_delta(v: json::JsonView) -> bool {
    &&& v is Object
    &&& may_be_number(v, "index"@)
    &&& may_be_text(v, "id"@)
    &&& may_be_text(v, "type"@)
    &&& is_missing(v, "function"@) || is_function_delta(v.get("function"@)->0)
}

/// The object `v` can be read as what a chunk adds to a reply.
pub open spec fn is_delta(v: json::JsonView) -> bool {
    &&& v is Object
    &&& may_be_text(v, "content"@)
    &&& may_be_text(v, "reasoning_content"@)
    &&& is_missing(v, "tool_calls"@) || (v.get("tool_calls"@) matches Some(
        json::JsonView::Array(a),
    ) && forall|i: int| 0 <= i < a.len() ==> is_tool_delta(#[trigger] a[i]))
}

/// The object `v` can be read as a choice of a chunk.
pub open spec fn is_choice(v: json::JsonView) -> bool {
    v is Object && v.get("delta"@) is Some && is_delta(v.get("delta"@)->0) && may_be_text(
        v,
        "finish_reason"@,
    )
}

/// `t` holds what the object `v` says of a tool call.
pub open spec fn holds_tool(t: sse::ToolDeltaView, v: json::JsonView) -> bool {
    &&& t.index == number_at(v, "index"@)
    &&& t.id == text_at(v, "id"@)
    &&& t.kind == text_at(v, "type"@)
    &&& if is_missing(v, "function"@) {
        t.function is None
    } else {
        t.function matches Some(f) && f.name == text_at(v.get("function"@)->0, "name"@)
            && f.arguments == text_at(v.get("function"@)->0, "arguments"@)
    }
}

/// `d` holds what the object `v` adds to a reply.
pub open spec fn holds_delta(d: sse::DeltaView, v: json::JsonView) -> bool {
    &&& d.content == text_at(v, "content"@)
    &&& d.reasoning_content == text_at(v, "reasoning_content"@)
    &&& if is_missing(v, "tool_calls"@) {
        d.tool_calls is None
    } else {
        let a = v.get("tool_calls"@)->0->Array_0;
        d.tool_calls matches Some(ts) && ts.len() == a.len() && forall|i: int|
            0 <= i < ts.len() ==> holds_tool(#[trigger] ts[i], a[i])
    }
}

/// `c` holds what the object `v` says of a choice.
pub open spec fn holds_choice(c: sse::ChoiceView, v: json::JsonView) -> bool {
    holds_delta(c.delta, v.get("delta"@)->0) && c.finish_reason == text_at(v, "finish_reason"@)
}

proof fn lemma_tool_delta(v: json::JsonView)
    requires
        is_tool_delta(v),
    ensures
        sse::decoded_tool(v) matches Some(t) && holds_tool(t, v),
{
    if !is_missing(v, "function"@) {
        let f = v.get("function"@)->0;
        assert(sse::decoded_function(f) is Some);
    }
}

proof fn lemma_tool_deltas(a: Seq<json::JsonView>)
    requires
        forall|i: int| 0 <= i < a.len() ==> is_tool_delta(#[trigger] a[i]),
    ensures
        sse::decoded_tools(a) matches Some(ts) && ts.len() == a.len() && forall|i: int|
            0 <= i < ts.len() ==> holds_tool(#[trigger] ts[i], a[i]),
    decreases a.len(),
{
    if a.len() > 0 {
        let b = a.drop_last();
        assert forall|i: int| 0 <= i < b.len() implies is_tool_delta(#[trigger] b[i]) by {
            assert(b[i] == a[i]);
        }
        lemma_tool_deltas(b);
        assert(is_tool_delta(a[a.len() - 1]));
        lemma_tool_delta(a.last());
        let ts = sse::decoded_tools(a)->0;
        let us = sse::decoded_tools(b)->0;
        assert forall|i: int| 0 <= i < ts.len() implies holds_tool(#[trigger] ts[i], a[i]) by {
            if i < us.len() {
                assert(ts[i] == us[i]);
                assert(holds_tool(us[i], b[i]));
            }
        }
    }
}

proof fn lemma_choice(v: json::JsonView)
    requires
        is_choice(v),
    ensures
        sse::decoded_choice(v) matches Some(c) && holds_choice(c, v),
{
    let d = v.get("delta"@)->0;
    if !is_missing(d, "tool_calls"@) {
        lemma_tool_deltas(d.get("tool_calls"@)->0->Array_0);
    }
}

proof fn lemma_decoded_choices(a: Seq<json::JsonView>)
    requires
        forall|i: int| 0 <= i < a.len() ==> is_choice(#[trigger] a[i]),
    ensures
        sse::decoded_choices(a) matches Some(cs) && cs.len() == a.len() && forall|i: int|
            0 <= i < cs.len() ==> holds_choice(#[trigger] cs[i], a[i]),
    decreases a.len(),
{
    if a.len() > 0 {
        let b = a.drop_last();
        assert forall|i: int| 0 <= i < b.len() implies is_choice(#[trigger] b[i]) by {
            assert(b[i] == a[i]);
        }
        lemma_decoded_choices(b);
        assert(is_choice(a[a.len() - 1]));
        lemma_choice(a.last());
        let cs = sse::decoded_choices(a)->0;
        let ds = sse::decoded_choices(b)->0;
        assert forall|i: int| 0 <= i < cs.len() implies holds_choice(#[trigger] cs[i], a[i]) by {
            if i < ds.len() {
                assert(cs[i] == ds[i]);
                assert(holds_choice(ds[i], b[i]));
            }
        }
    }
}

/// The object `v` can be read as a usage.
pub open spec fn is_usage(v: json::JsonView) -> bool {
    &&& v is Object
    &&& may_be_number(v, "prompt_tokens"@)
    &&& may_be_number(v, "completion_tokens"@)
    &&& is_missing(v, "prompt_tokens_details"@) || (v.get("prompt_tokens_details"@)->0 is Object
        && may_be_number(v.get("prompt_tokens_details"@)->0, "cached_tokens"@))
    &&& is_missing(v, "completion_tokens_details"@) || (v.get(
        "completion_tokens_details"@,
    )->0 is Object && may_be_number(
        v.get("completion_tokens_details"@)->0,
        "reasoning_tokens"@,
    ))
}

/// `u` holds the numbers that the object `v` reports.
pub open spec fn holds_usage(u: sse::NativeUsage, v: json::JsonView) -> bool {
    &&& u.prompt_tokens == number_at(v, "prompt_tokens"@)
    &&& u.completion_tokens == number_at(v, "completion_tokens"@)
    &&& if is_missing(v, "prompt_tokens_details"@) {
        u.prompt_tokens_details is None
    } else {
        u.prompt_tokens_details matches Some(d) && d.cached_tokens == number_at(
            v.get("prompt_tokens_details"@)->0,
            "cached_tokens"@,
        )
    }
    &&& if is_missing(v, "completion_tokens_details"@) {
        u.completion_tokens_details is None
    } else {
        u.completion_tokens_details matches Some(d) && d.reasoning_tokens == number_at(
            v.get("completion_tokens_details"@)->0,
            "reasoning_tokens"@,
        )
    }
}

/// The usage of a reply or a chunk is read as it is reported.
pub proof fn usage_is_read(v: json::JsonView)
    requires
        is_missing(v, "usage"@) || is_usage(v.get("usage"@)->0),
    ensures
        if is_missing(v, "usage"@) {
            sse::usage_member(v) == Some(None::<sse::NativeUsage>)
        } else {
            sse::usage_member(v) matches Some(Some(u)) && holds_usage(u, v.get("usage"@)->0)
        },
{
    if !is_missing(v, "usage"@) {
        let u = v.get("usage"@)->0;
        assert(sse::decoded_usage(u) is Some);
    }
}

/// A chunk is read as its JSON object writes it: each choice with its delta and its
/// finish reason, and the usage.
pub proof fn chunk_is_read(v: json::JsonView)
    requires
        v is Object,
        v.get("choices"@) is Some ==> (v.get("choices"@) matches Some(json::JsonView::Array(a))
            && forall|i: int| 0 <= i < a.len() ==> is_choice(#[trigger] a[i])),
        is_missing(v, "usage"@) || is_usage(v.get("usage"@)->0),
    ensures
        sse::decoded_chunk(v) matches Some(c) && {
            &&& match v.get("choices"@) {
                Some(json::JsonView::Array(a)) => c.choices.len() == a.len() && forall|i: int|
                    0 <= i < a.len() ==> holds_choice(#[trigger] c.choices[i], a[i]),
                _ => c.choices.len() == 0,
            }
            &&& if is_missing(v, "usage"@) {
                c.usage is None
            } else {
                c.usage matches Some(u) && holds_usage(u, v.get("usage"@)->0)
            }
        },
{
    usage_is_read(v);
    if v.get("choices"@) is Some {
        lemma_decoded_choices(v.get("choices"@)->0->Array_0);
    }
}

/// The line of a chunk is its JSON text behind `data: `. The end mark, and a line that
/// does not begin so, carries no chunk.
pub proof fn data_lines_are_read(line: Seq<char>, data: Seq<char>)
    requires
        text::trimmed(line) == "data: "@ + data,
    ensures
        data == "[DONE]"@ ==> sse::line_chunk(line) is None,
        data != "[DONE]"@ ==> sse::line_chunk(line) == (match json::json_of_text(data) {
            Some(v) => sse::decoded_chunk(v),
            None => None,
        }),
{
    reveal_strlit("data: ");
    let t = text::trimmed(line);
    assert(t.skip(6) =~= data);
    assert(t.subrange(0, 6) =~= "data: "@);
}

/// A line that does not begin with `data: ` carries no chunk.
pub proof fn other_lines_are_passed_over(line: Seq<char>)
    requires
        !("data: "@.is_prefix_of(text::trimmed(line))),
    ensures
        sse::line_chunk(line) is None,
        forall|fresh: Seq<Seq<char>>|
            #![trigger sse::line_outcome(line, fresh)]
            sse::line_outcome(line, fresh).events.len() == 0 && sse::line_outcome(
                line,
                fresh,
            ).usage is None && sse::line_outcome(line, fresh).finish_reason is None,
{
    reveal_strlit("data: ");
    let t = text::trimmed(line);
    if text::stands_at(t, "data: "@, 0) {
        assert("data: "@ =~= t.subrange(0, 6));
    }
}

/// What a choice carries comes behind what the choices before it carry: its content first,
/// then its thinking, then its tool calls.
pub proof fn choices_speak_in_turn(
    cs: Seq<sse::ChoiceView>,
    c: sse::ChoiceView,
    fresh: Seq<Seq<char>>,
) -> (tools: Seq<types::StreamEventView>)
    ensures
        sse::choices_events(cs.push(c), fresh, cs.len() as int + 1) == sse::choices_events(
            cs,
            fresh,
            cs.len() as int,
        ) + (if or_nothing(c.delta.content).len() > 0 {
            seq![types::StreamEventView::Content(or_nothing(c.delta.content))]
        } else {
            Seq::empty()
        }) + (if or_nothing(c.delta.reasoning_content).len() > 0 {
            seq![
                types::StreamEventView::ReasoningContent(or_nothing(c.delta.reasoning_content)),
            ]
        } else {
            Seq::empty()
        }) + tools,
        content_text(tools).len() == 0,
        reasoning_text(tools).len() == 0,
        c.delta.tool_calls is None ==> tools.len() == 0,
{
    let n = cs.len() as int;
    let more = cs.push(c);
    lemma_same_choices(cs, more, fresh, n);
    assert(more[n] == c);
    let ts = sse::tools_of(c);
    let base = sse::ids_needed_by(more, n) as int;
    lemma_tools(ts, fresh, base, ts.len() as int, 0);
    sse::tools_events(ts, fresh, base, ts.len() as int)
}

proof fn lemma_same_choices(
    a: Seq<sse::ChoiceView>,
    b: Seq<sse::ChoiceView>,
    fresh: Seq<Seq<char>>,
    n: int,
)
    requires
        0 <= n <= a.len(),
        n <= b.len(),
        forall|k: int| 0 <= k < n ==> a[k] == b[k],
    ensures
        sse::choices_events(a, fresh, n) == sse::choices_events(b, fresh, n),
        sse::ids_needed_by(a, n) == sse::ids_needed_by(b, n),
    decreases n,
{
    if n > 0 {
        lemma_same_choices(a, b, fresh, n - 1);
    }
}

/// The deltas of tool calls speak in turn: what one gives comes behind what those before it
/// give, and takes the next of the ids where it needs one.
pub proof fn deltas_speak_in_turn(
    ts: Seq<sse::ToolDeltaView>,
    t: sse::ToolDeltaView,
    fresh: Seq<Seq<char>>,
    base: int,
)
    ensures
        ({
            let n = ts.len() as int;
            sse::tools_events(ts.push(t), fresh, base, n + 1) == sse::tools_events(
                ts,
                fresh,
                base,
                n,
            ) + sse::tool_events(t, fresh[base + without_id(named_calls(ts))])
        }),
        sse::tools_events(ts, fresh, base, 0).len() == 0,
{
    let n = ts.len() as int;
    lemma_same_deltas(ts, ts.push(t), fresh, base, n);
    lemma_tools(ts, fresh, base, n, 0);
    assert(ts.take(n) =~= ts);
    assert(ts.push(t)[n] == t);
}

proof fn lemma_same_deltas(
    a: Seq<sse::ToolDeltaView>,
    b: Seq<sse::ToolDeltaView>,
    fresh: Seq<Seq<char>>,
    base: int,
    n: int,
)
    requires
        0 <= n <= a.len(),
        n <= b.len(),
        forall|k: int| 0 <= k < n ==> a[k] == b[k],
    ensures
        sse::tools_events(a, fresh, base, n) == sse::tools_events(b, fresh, base, n),
        sse::ids_needed(a, n) == sse::ids_needed(b, n),
    decreases n,
{
    if n > 0 {
        lemma_same_deltas(a, b, fresh, base, n - 1);
    }
}

/// A chunk with a choice that cannot be read is not read at all: one without a delta, with
/// a finish reason, a content or a thinking that is no text, or with a tool call whose
/// index, id or arguments are not what they have to be.
pub proof fn malformed_chunks_are_passed_over(
    v: json::JsonView,
    a: Seq<json::JsonView>,
    i: int,
    d: json::JsonView,
    calls: Seq<json::JsonView>,
    j: int,
)
    requires
        v is Object,
        v.get("choices"@) == Some(json::JsonView::Array(a)),
        0 <= i < a.len(),
        a[i] is Object,
        ({
            ||| a[i].get("delta"@) is None
            ||| !may_be_text(a[i], "finish_reason"@)
            ||| a[i].get("delta"@) == Some(d) && d is Object && !may_be_text(d, "content"@)
            ||| a[i].get("delta"@) == Some(d) && d is Object && !may_be_text(
                d,
                "reasoning_content"@,
            )
            ||| a[i].get("delta"@) == Some(d) && d is Object && d.get("tool_calls"@) == Some(
                json::JsonView::Array(calls),
            ) && 0 <= j < calls.len() && calls[j] is Object && (!may_be_number(
                calls[j],
                "index"@,
            ) || !may_be_text(calls[j], "id"@) || (calls[j].get("function"@) matches Some(f)
                && f is Object && (!may_be_text(f, "name"@) || !may_be_text(f, "arguments"@))))
        }),
    ensures
        sse::decoded_chunk(v) is None,
{
    if a[i].get("delta"@) == Some(d) && d is Object && d.get("tool_calls"@) == Some(
        json::JsonView::Array(calls),
    ) && 0 <= j < calls.len() && sse::decoded_tool(calls[j]) is None {
        sse::lemma_bad_tool(calls, j);
    }
    assert(sse::decoded_choice(a[i]) is None);
    sse::lemma_bad_choice(a, i);
}

/// A line gives what its chunk gives, with a fresh id for each call that has none.
pub proof fn lines_give_what_their_chunk_gives(line: Seq<char>, r: sse::LineView) -> (fresh: Seq<
    Seq<char>,
>)
    requires
        sse::is_line_outcome(line, r),
    ensures
        match sse::line_chunk(line) {
            Some(c) => r == sse::chunk_outcome(c, fresh) && fresh.len() == without_id(
                choice_calls(c.choices),
            ),
            None => r.events.len() == 0 && r.usage is None && r.finish_reason is None,
        },
        forall|i: int| 0 <= i < fresh.len() ==> ids::uuid_text(#[trigger] fresh[i]),
{
    let fresh = choose|fresh: Seq<Seq<char>>|
        {
            &&& fresh.len() == sse::line_ids(line)
            &&& forall|i: int| 0 <= i < fresh.len() ==> ids::uuid_text(#[trigger] fresh[i])
            &&& r == #[trigger] sse::line_outcome(line, fresh)
        };
    if let Some(c) = sse::line_chunk(line) {
        lemma_choices(c.choices, fresh, c.choices.len() as int, 0);
        assert(c.choices.take(c.choices.len() as int) =~= c.choices);
    }
    fresh
}

/// Each piece of arguments that a chunk carries, and that is not empty, is given as one
/// chunk of arguments with the index of its call.
pub proof fn pieces_reach_their_call(
    c: sse::ChunkView,
    fresh: Seq<Seq<char>>,
    i: int,
    j: int,
) -> (k: int)
    requires
        c.usage is None,
        0 <= i < c.choices.len(),
        c.choices[i].delta.tool_calls is Some,
        0 <= j < c.choices[i].delta.tool_calls->0.len(),
        c.choices[i].delta.tool_calls->0[j].function is Some,
        c.choices[i].delta.tool_calls->0[j].function->0.arguments is Some,
        c.choices[i].delta.tool_calls->0[j].function->0.arguments->0.len() > 0,
    ensures
        ({
            let t = c.choices[i].delta.tool_calls->0[j];
            let events = sse::chunk_outcome(c, fresh).events;
            &&& 0 <= k < events.len()
            &&& events[k] matches types::StreamEventView::ToolCallChunk(n, a) && a
                == t.function->0.arguments->0 && (t.index matches Some(x) ==> n == x) && (
            t.index is None ==> n == 0)
        }),
{
    let n = c.choices.len() as int;
    let ts = c.choices[i].delta.tool_calls->0;
    let base = sse::ids_needed_by(c.choices, i) as int;
    let at = lemma_piece_in_tools(ts, fresh, base, ts.len() as int, j);
    lemma_piece_in_choices(c.choices, fresh, n, i, at)
}

proof fn lemma_piece_in_tools(
    ts: Seq<sse::ToolDeltaView>,
    fresh: Seq<Seq<char>>,
    base: int,
    n: int,
    j: int,
) -> (k: int)
    requires
        0 <= j < n <= ts.len(),
        ts[j].function is Some,
        ts[j].function->0.arguments is Some,
        ts[j].function->0.arguments->0.len() > 0,
    ensures
        0 <= k < sse::tools_events(ts, fresh, base, n).len(),
        sse::tools_events(ts, fresh, base, n)[k] == types::StreamEventView::ToolCallChunk(
            match ts[j].index {
                Some(x) => x,
                None => 0,
            },
            ts[j].function->0.arguments->0,
        ),
    decreases n,
{
    if j == n - 1 {
        let id = fresh[base + sse::ids_needed(ts, n - 1)];
        delta_gives_its_piece(ts[j], id, 0);
        sse::tools_events(ts, fresh, base, n).len() - 1
    } else {
        lemma_piece_in_tools(ts, fresh, base, n - 1, j)
    }
}

proof fn lemma_piece_in_choices(
    cs: Seq<sse::ChoiceView>,
    fresh: Seq<Seq<char>>,
    n: int,
    i: int,
    at: int,
) -> (k: int)
    requires
        0 <= i < n <= cs.len(),
        0 <= at < sse::tools_events(
            sse::tools_of(cs[i]),
            fresh,
            sse::ids_needed_by(cs, i) as int,
            sse::tools_of(cs[i]).len() as int,
        ).len(),
    ensures
        0 <= k < sse::choices_events(cs, fresh, n).len(),
        sse::choices_events(cs, fresh, n)[k] == sse::tools_events(
            sse::tools_of(cs[i]),
            fresh,
            sse::ids_needed_by(cs, i) as int,
            sse::tools_of(cs[i]).len() as int,
        )[at],
    decreases n,
{
    let all = sse::choices_events(cs, fresh, n);
    if i == n - 1 {
        let tools = sse::tools_events(
            sse::tools_of(cs[i]),
            fresh,
            sse::ids_needed_by(cs, i) as int,
            sse::tools_of(cs[i]).len() as int,
        );
        all.len() - tools.len() + at
    } else {
        lemma_piece_in_choices(cs, fresh, n - 1, i, at)
    }
}

} // verus!
