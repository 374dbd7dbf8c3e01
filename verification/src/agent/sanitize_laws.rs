//! What cleaning leaves of a history: everything but what has to go.

use crate::agent::sanitize;
use crate::agent::session::restorer_laws::Said;
use crate::agent::session::restorer_laws;
use crate::json;
use crate::message::MessageRole;
use crate::message;
use vstd::prelude::*;

verus! {

/// `m` without its tool calls.
pub open spec fn spoken_part(m: message::MessageView) -> message::MessageView {
    message::MessageView { tool_calls: None, ..m }
}

/// What the messages of `ms` say, without their tool calls, as far as `q` holds of it.
pub open spec fn spoken(
    ms: Seq<message::MessageView>,
    q: spec_fn(message::MessageView) -> bool,
) -> Seq<message::MessageView> {
    ms.map_values(|m: message::MessageView| spoken_part(m)).filter(q)
}

/// Some message of `ms` asks for the tool call `id`.
pub open spec fn is_asked(ms: Seq<message::MessageView>, id: Seq<char>) -> bool {
    exists|i: int, j: int|
        0 <= i < ms.len() && ms[i].tool_calls is Some && 0 <= j < ms[i].tool_calls->0.len()
            && (#[trigger] ms[i].tool_calls->0[j]).id == id
}

/// Some tool result of `ms` answers the tool call `id`.
pub open spec fn is_answered(ms: Seq<message::MessageView>, id: Seq<char>) -> bool {
    exists|i: int|
        0 <= i < ms.len() && (#[trigger] ms[i]).role == MessageRole::Tool && ms[i].tool_call_id
            == Some(id)
}

/// The tool calls of all messages, in their order.
pub open spec fn all_calls(ms: Seq<message::MessageView>) -> Seq<message::ToolCallView>
    decreases ms.len(),
{
    if ms.len() == 0 {
        Seq::empty()
    } else {
        all_calls(ms.drop_last()) + match ms.last().tool_calls {
            Some(cs) => cs,
            None => Seq::empty(),
        }
    }
}

/// A history in which nothing is wrong stays as it is: all arguments are JSON, every call
/// has its result, every result its call, no assistant is silent, and there is no
/// second system message.
pub proof fn clean_history_is_kept(ms: Seq<message::MessageView>)
    requires
        forall|i: int, j: int|
            0 <= i < ms.len() && ms[i].tool_calls is Some && 0 <= j < ms[i].tool_calls->0.len()
                ==> json::json_of_text((#[trigger] ms[i].tool_calls->0[j]).arguments) is Some
                && is_answered(ms, ms[i].tool_calls->0[j].id),
        forall|i: int|
            0 <= i < ms.len() && (#[trigger] ms[i]).role == MessageRole::Tool
                && ms[i].tool_call_id is Some ==> is_asked(ms, ms[i].tool_call_id->0),
        forall|i: int|
            0 <= i < ms.len() && (#[trigger] ms[i]).role == MessageRole::Assistant ==> (
            ms[i].content.len() > 0 || (ms[i].tool_calls is Some && ms[i].tool_calls->0.len() > 0)),
        forall|i: int, j: int|
            0 <= i < j < ms.len() ==> !((#[trigger] ms[i]).role == MessageRole::System && (
            #[trigger] ms[j]).role == MessageRole::System),
    ensures
        sanitize::sanitized(ms) == ms,
{
    assert forall|i: int| 0 <= i < ms.len() implies sanitize::with_repaired_calls(
        #[trigger] ms[i],
    ) == ms[i] by {
        if ms[i].tool_calls is Some {
            let calls = ms[i].tool_calls->0;
            assert forall|j: int| 0 <= j < calls.len() implies sanitize::repaired(
                #[trigger] calls[j],
            ) == calls[j] by {
                assert(json::json_of_text(ms[i].tool_calls->0[j].arguments) is Some);
            }
            assert(calls.map_values(|c: message::ToolCallView| sanitize::repaired(c)) =~= calls);
        }
    }
    assert(sanitize::repaired_all(ms) =~= ms);
    assert forall|i: int| 0 <= i < ms.len() implies !sanitize::is_orphan_result(
        #[trigger] ms[i],
        ms,
    ) by {
        if ms[i].role == MessageRole::Tool && ms[i].tool_call_id is Some {
            lemma_asked(ms, ms[i].tool_call_id->0);
        }
    }
    lemma_filter_all(ms, |m: message::MessageView| !sanitize::is_orphan_result(m, ms));
    assert forall|i: int| 0 <= i < ms.len() implies sanitize::without_unanswered(
        #[trigger] ms[i],
        ms,
    ) == ms[i] by {
        if ms[i].tool_calls is Some {
            let calls = ms[i].tool_calls->0;
            let p = |c: message::ToolCallView| sanitize::answered(ms, c.id);
            assert forall|j: int| 0 <= j < calls.len() implies p(#[trigger] calls[j]) by {
                assert(is_answered(ms, ms[i].tool_calls->0[j].id));
                lemma_answered(ms, calls[j].id);
            }
            crate::list::lemma_filter_all(calls, p);
        }
    }
    assert(sanitize::without_unanswered_calls(ms) =~= ms);
    lemma_filter_all(ms, |m: message::MessageView| !sanitize::is_empty_assistant(m));
    lemma_single_system(ms);
}

proof fn lemma_filter_all(s: Seq<message::MessageView>, p: spec_fn(message::MessageView) -> bool)
    requires
        forall|i: int| 0 <= i < s.len() ==> p(#[trigger] s[i]),
    ensures
        s.filter(p) == s,
{
    crate::list::lemma_filter_all(s, p);
}

proof fn lemma_single_system(ms: Seq<message::MessageView>)
    requires
        forall|i: int, j: int|
            0 <= i < j < ms.len() ==> !((#[trigger] ms[i]).role == MessageRole::System && (
            #[trigger] ms[j]).role == MessageRole::System),
    ensures
        sanitize::one_system(ms) == ms,
    decreases ms.len(),
{
    if ms.len() > 0 {
        let t = ms.drop_last();
        assert forall|i: int, j: int| 0 <= i < j < t.len() implies !((#[trigger] t[i]).role
            == MessageRole::System && (#[trigger] t[j]).role == MessageRole::System) by {
            assert(t[i] == ms[i] && t[j] == ms[j]);
        }
        lemma_single_system(t);
        if ms.last().role == MessageRole::System && sanitize::has_system(t) {
            let k = choose|k: int| 0 <= k < t.len() && (#[trigger] t[k]).role == MessageRole::System;
            assert(ms[k].role == MessageRole::System);
            assert(ms[ms.len() - 1].role == MessageRole::System);
        }
        assert(t.push(ms.last()) =~= ms);
    }
}

proof fn lemma_asked(ms: Seq<message::MessageView>, id: Seq<char>)
    ensures
        sanitize::asked(ms, id) == is_asked(ms, id),
{
    if sanitize::asked(ms, id) {
        let i = choose|i: int| 0 <= i < ms.len() && sanitize::asks(#[trigger] ms[i], id);
        let j = choose|j: int|
            0 <= j < ms[i].tool_calls->0.len() && (#[trigger] ms[i].tool_calls->0[j]).id == id;
        assert(ms[i].tool_calls->0[j].id == id);
    }
    if is_asked(ms, id) {
        let (i, j) = choose|i: int, j: int|
            0 <= i < ms.len() && ms[i].tool_calls is Some && 0 <= j < ms[i].tool_calls->0.len() && (
            #[trigger] ms[i].tool_calls->0[j]).id == id;
        assert(sanitize::asks(ms[i], id));
    }
}

proof fn lemma_answered(ms: Seq<message::MessageView>, id: Seq<char>)
    ensures
        sanitize::answered(ms, id) == is_answered(ms, id),
{
    if sanitize::answered(ms, id) {
        let i = choose|i: int| 0 <= i < ms.len() && sanitize::answers(#[trigger] ms[i], id);
        assert(ms[i].role == MessageRole::Tool);
    }
    if is_answered(ms, id) {
        let i = choose|i: int|
            0 <= i < ms.len() && (#[trigger] ms[i]).role == MessageRole::Tool && ms[i].tool_call_id
                == Some(id);
        assert(sanitize::answers(ms[i], id));
    }
}

/// A step that drops the messages for which `p` does not hold.
proof fn lemma_dropped(
    s: Seq<message::MessageView>,
    p: spec_fn(message::MessageView) -> bool,
    q: spec_fn(message::MessageView) -> bool,
    r: spec_fn(message::MessageView) -> bool,
)
    requires
        forall|i: int|
            0 <= i < s.len() ==> r(spoken_part(#[trigger] s[i])) == (p(s[i]) && q(
                spoken_part(s[i]),
            )),
    ensures
        spoken(s.filter(p), q) == spoken(s, r),
    decreases s.len(),
{
    reveal(Seq::filter);
    let f = |m: message::MessageView| spoken_part(m);
    if s.len() > 0 {
        let t = s.drop_last();
        let m = s.last();
        assert forall|i: int| 0 <= i < t.len() implies r(spoken_part(#[trigger] t[i])) == (p(t[i])
            && q(spoken_part(t[i]))) by {
            assert(t[i] == s[i]);
        }
        lemma_dropped(t, p, q, r);
        assert(s.map_values(f).drop_last() =~= t.map_values(f));
        assert(s.map_values(f).last() == f(m));
        assert(s[s.len() - 1] == m);
        if p(m) {
            let k = t.filter(p);
            assert(s.filter(p) =~= k.push(m));
            assert(k.push(m).map_values(f).drop_last() =~= k.map_values(f));
            assert(k.push(m).map_values(f).last() == f(m));
        }
    } else {
        assert(s.filter(p).map_values(f) =~= Seq::empty());
        assert(s.map_values(f) =~= Seq::empty());
    }
}

proof fn lemma_systems(
    s: Seq<message::MessageView>,
    q: spec_fn(message::MessageView) -> bool,
)
    requires
        forall|m: message::MessageView| #[trigger] q(m) ==> m.role != MessageRole::System,
    ensures
        spoken(sanitize::one_system(s), q) == spoken(s, q),
    decreases s.len(),
{
    reveal(Seq::filter);
    let f = |m: message::MessageView| spoken_part(m);
    if s.len() > 0 {
        let t = s.drop_last();
        let m = s.last();
        lemma_systems(t, q);
        assert(s.map_values(f).drop_last() =~= t.map_values(f));
        assert(s.map_values(f).last() == f(m));
        let k = sanitize::one_system(t);
        if m.role == MessageRole::System && sanitize::has_system(t) {
            assert(!q(f(m)));
        } else {
            assert(k.push(m).map_values(f).drop_last() =~= k.map_values(f));
            assert(k.push(m).map_values(f).last() == f(m));
        }
    }
}

proof fn lemma_first_system(s: Seq<message::MessageView>)
    ensures
        ({
            let q = |m: message::MessageView| m.role == MessageRole::System;
            &&& spoken(sanitize::one_system(s), q) == (if spoken(s, q).len() > 0 {
                spoken(s, q).take(1)
            } else {
                spoken(s, q)
            })
            &&& sanitize::has_system(s) == (spoken(s, q).len() > 0)
        }),
    decreases s.len(),
{
    reveal(Seq::filter);
    let q = |m: message::MessageView| m.role == MessageRole::System;
    let f = |m: message::MessageView| spoken_part(m);
    if s.len() > 0 {
        let t = s.drop_last();
        let m = s.last();
        lemma_first_system(t);
        assert(s.map_values(f).drop_last() =~= t.map_values(f));
        assert(s.map_values(f).last() == f(m));
        let k = sanitize::one_system(t);
        assert(k.push(m).map_values(f).drop_last() =~= k.map_values(f));
        assert(k.push(m).map_values(f).last() == f(m));
        if sanitize::has_system(t) {
            let i = choose|i: int| 0 <= i < t.len() && (#[trigger] t[i]).role == MessageRole::System;
            assert(s[i].role == MessageRole::System);
            if m.role == MessageRole::System {
                assert(spoken(s, q).take(1) =~= spoken(t, q).take(1));
            }
        } else if m.role == MessageRole::System {
            assert(s[s.len() - 1].role == MessageRole::System);
            assert(spoken(s, q).take(1) =~= spoken(s, q));
        } else if sanitize::has_system(s) {
            let i = choose|i: int| 0 <= i < s.len() && (#[trigger] s[i]).role == MessageRole::System;
            assert(t[i].role == MessageRole::System);
        }
    } else {
        assert(s.map_values(f) =~= Seq::empty());
    }
}

/// Cleaning keeps what was said, in its order: all that users say, all that the
/// assistant says in words, the results of all tool calls that are asked for, and the
/// first system message.
pub proof fn sanitizing_keeps_what_was_said(ms: Seq<message::MessageView>)
    ensures
        ({
            let r = sanitize::sanitized(ms);
            let words = |m: message::MessageView|
                m.role == MessageRole::User || (m.role == MessageRole::Assistant && m.content.len()
                    > 0);
            let system = |m: message::MessageView| m.role == MessageRole::System;
            let tool = |m: message::MessageView| m.role == MessageRole::Tool;
            let kept = |m: message::MessageView|
                m.role == MessageRole::Tool && (m.tool_call_id is None || is_asked(
                    ms,
                    m.tool_call_id->0,
                ));
            &&& spoken(r, words) == spoken(ms, words)
            &&& spoken(r, |m: message::MessageView| words(m) || tool(m)) == spoken(
                ms,
                |m: message::MessageView| words(m) || kept(m),
            )
            &&& spoken(r, tool) == spoken(ms, kept)
            &&& spoken(r, system) == (if spoken(ms, system).len() > 0 {
                spoken(ms, system).take(1)
            } else {
                spoken(ms, system)
            })
        }),
{
    let words = |m: message::MessageView|
        m.role == MessageRole::User || (m.role == MessageRole::Assistant && m.content.len() > 0);
    let system = |m: message::MessageView| m.role == MessageRole::System;
    let tool = |m: message::MessageView| m.role == MessageRole::Tool;
    let kept = |m: message::MessageView|
        m.role == MessageRole::Tool && (m.tool_call_id is None || is_asked(
            ms,
            m.tool_call_id->0,
        ));
    let f = |m: message::MessageView| spoken_part(m);
    let m1 = sanitize::repaired_all(ms);
    let m2 = sanitize::without_orphan_results(m1);
    let m3 = sanitize::without_unanswered_calls(m2);
    let m4 = sanitize::without_empty_assistants(m3);
    assert(m1.map_values(f) =~= ms.map_values(f));
    assert(m3.map_values(f) =~= m2.map_values(f));
    let orphan = |m: message::MessageView| !sanitize::is_orphan_result(m, m1);
    let full = |m: message::MessageView| !sanitize::is_empty_assistant(m);
    lemma_asked_after_repair(ms);
    assert forall|i: int| 0 <= i < m1.len() implies kept(spoken_part(#[trigger] m1[i])) == (orphan(
        m1[i],
    ) && tool(spoken_part(m1[i]))) by {
        if m1[i].role == MessageRole::Tool && m1[i].tool_call_id is Some {
            let id = m1[i].tool_call_id->0;
            assert(sanitize::asked(m1, id) == is_asked(ms, id));
        }
    }
    let all = |m: message::MessageView| words(m) || tool(m);
    let left = |m: message::MessageView| words(m) || kept(m);
    assert forall|i: int| 0 <= i < m1.len() implies left(spoken_part(#[trigger] m1[i])) == (orphan(
        m1[i],
    ) && all(spoken_part(m1[i]))) by {
        assert(kept(spoken_part(m1[i])) == (orphan(m1[i]) && tool(spoken_part(m1[i]))));
    }
    lemma_dropped(m1, orphan, all, left);
    lemma_dropped(m3, full, all, all);
    lemma_systems(m4, all);
    lemma_dropped(m1, orphan, words, words);
    lemma_dropped(m1, orphan, tool, kept);
    lemma_dropped(m1, orphan, system, system);
    lemma_dropped(m3, full, words, words);
    lemma_dropped(m3, full, tool, tool);
    lemma_dropped(m3, full, system, system);
    lemma_systems(m4, words);
    lemma_systems(m4, tool);
    lemma_first_system(m4);
}

proof fn lemma_asked_after_repair(ms: Seq<message::MessageView>)
    ensures
        forall|id: Seq<char>| #[trigger]
            sanitize::asked(sanitize::repaired_all(ms), id) == is_asked(ms, id),
{
    let m1 = sanitize::repaired_all(ms);
    assert forall|id: Seq<char>| #[trigger] sanitize::asked(m1, id) == is_asked(ms, id) by {
        lemma_asked(m1, id);
        if is_asked(m1, id) {
            let (i, j) = choose|i: int, j: int|
                0 <= i < m1.len() && m1[i].tool_calls is Some && 0 <= j
                    < m1[i].tool_calls->0.len() && (#[trigger] m1[i].tool_calls->0[j]).id == id;
            assert(ms[i].tool_calls->0[j].id == id);
        }
        if is_asked(ms, id) {
            let (i, j) = choose|i: int, j: int|
                0 <= i < ms.len() && ms[i].tool_calls is Some && 0 <= j
                    < ms[i].tool_calls->0.len() && (#[trigger] ms[i].tool_calls->0[j]).id == id;
            assert(m1[i].tool_calls->0[j].id == id);
        }
    }
}

/// A call with arguments that are JSON: where they are not, the empty object stands in
/// their place.
pub open spec fn with_json_arguments(c: message::ToolCallView) -> message::ToolCallView {
    if json::json_of_text(c.arguments) is Some {
        c
    } else {
        message::ToolCallView { arguments: "{}"@, ..c }
    }
}

/// Cleaning keeps, in their order, exactly the tool calls that are answered, each as it
/// is but for arguments that are no JSON.
pub proof fn sanitizing_keeps_answered_calls(ms: Seq<message::MessageView>)
    requires
        forall|i: int|
            0 <= i < ms.len() && (#[trigger] ms[i]).tool_calls is Some ==> ms[i].role
                == MessageRole::Assistant || ms[i].role == MessageRole::User,
    ensures
        all_calls(sanitize::sanitized(ms)) == all_calls(ms).filter(
            |c: message::ToolCallView| is_answered(ms, c.id),
        ).map_values(|c: message::ToolCallView| with_json_arguments(c)),
{
    let m1 = sanitize::repaired_all(ms);
    let m2 = sanitize::without_orphan_results(m1);
    let m3 = sanitize::without_unanswered_calls(m2);
    let m4 = sanitize::without_empty_assistants(m3);
    let orphan = |m: message::MessageView| !sanitize::is_orphan_result(m, m1);
    let full = |m: message::MessageView| !sanitize::is_empty_assistant(m);
    let g = |c: message::ToolCallView| sanitize::repaired(c);
    let h = |c: message::ToolCallView| with_json_arguments(c);
    let p = |c: message::ToolCallView| sanitize::answered(m2, c.id);
    let q = |c: message::ToolCallView| is_answered(ms, c.id);
    lemma_repaired_calls(ms);
    lemma_calls_of_kept(m1, orphan);
    lemma_calls_answered(m2);
    assert forall|i: int| 0 <= i < m3.len() && !full(#[trigger] m3[i]) implies (
    m3[i].tool_calls matches Some(cs) ==> cs.len() == 0) by {
    }
    lemma_calls_of_kept(m3, full);
    crate::list::lemma_filter_members(m1, orphan);
    crate::list::lemma_filter_members(m3, full);
    assert forall|i: int| 0 <= i < m4.len() && (#[trigger] m4[i]).role
        == MessageRole::System implies (m4[i].tool_calls matches Some(cs) ==> cs.len() == 0) by {
        let a = choose|a: int| 0 <= a < m3.len() && m3[a] == m4[i];
        let b = choose|b: int| 0 <= b < m1.len() && m1[b] == m2[a];
        assert(m1[b] == sanitize::with_repaired_calls(ms[b]));
    }
    lemma_calls_one_system(m4);
    let calls = all_calls(ms);
    assert forall|k: int| 0 <= k < calls.len() implies p(g(#[trigger] calls[k])) == q(calls[k]) by {
        lemma_member(ms, k);
        let id = calls[k].id;
        lemma_asked_after_repair(ms);
        assert(is_asked(ms, id));
        if is_answered(ms, id) {
            let i = choose|i: int|
                0 <= i < ms.len() && (#[trigger] ms[i]).role == MessageRole::Tool
                    && ms[i].tool_call_id == Some(id);
            assert(sanitize::asked(m1, id));
            assert(orphan(m1[i]));
            let j = choose|j: int| 0 <= j < m2.len() && m2[j] == m1[i];
            assert(sanitize::answers(m2[j], id));
        }
        if sanitize::answered(m2, id) {
            let j = choose|j: int| 0 <= j < m2.len() && sanitize::answers(#[trigger] m2[j], id);
            let i = choose|i: int| 0 <= i < m1.len() && m1[i] == m2[j];
            assert(ms[i].role == MessageRole::Tool);
        }
    }
    lemma_filter_mapped(calls, g, p, q);
    let out = calls.filter(q);
    assert(out.map_values(g) =~= out.map_values(h));
}

proof fn lemma_filter_mapped(
    s: Seq<message::ToolCallView>,
    g: spec_fn(message::ToolCallView) -> message::ToolCallView,
    p: spec_fn(message::ToolCallView) -> bool,
    q: spec_fn(message::ToolCallView) -> bool,
)
    requires
        forall|k: int| 0 <= k < s.len() ==> p(g(#[trigger] s[k])) == q(s[k]),
    ensures
        s.map_values(g).filter(p) == s.filter(q).map_values(g),
    decreases s.len(),
{
    reveal(Seq::filter);
    if s.len() > 0 {
        let t = s.drop_last();
        assert forall|k: int| 0 <= k < t.len() implies p(g(#[trigger] t[k])) == q(t[k]) by {
            assert(t[k] == s[k]);
        }
        lemma_filter_mapped(t, g, p, q);
        assert(s.map_values(g).drop_last() =~= t.map_values(g));
        assert(s[s.len() - 1] == s.last());
        assert(s.map_values(g).filter(p) =~= s.filter(q).map_values(g));
    } else {
        assert(s.map_values(g).filter(p) =~= s.filter(q).map_values(g));
    }
}

proof fn lemma_member(ms: Seq<message::MessageView>, k: int)
    requires
        0 <= k < all_calls(ms).len(),
    ensures
        is_asked(ms, all_calls(ms)[k].id),
    decreases ms.len(),
{
    let t = ms.drop_last();
    let before = all_calls(t);
    let n = ms.len() - 1;
    if k < before.len() {
        lemma_member(t, k);
        let id = all_calls(ms)[k].id;
        let (i, j) = choose|i: int, j: int|
            0 <= i < t.len() && t[i].tool_calls is Some && 0 <= j < t[i].tool_calls->0.len() && (
            #[trigger] t[i].tool_calls->0[j]).id == id;
        assert(ms[i].tool_calls->0[j].id == id);
    } else {
        assert(ms[n].tool_calls->0[k - before.len()].id == all_calls(ms)[k].id);
    }
}

proof fn lemma_repaired_calls(ms: Seq<message::MessageView>)
    ensures
        all_calls(sanitize::repaired_all(ms)) == all_calls(ms).map_values(
            |c: message::ToolCallView| sanitize::repaired(c),
        ),
    decreases ms.len(),
{
    let g = |c: message::ToolCallView| sanitize::repaired(c);
    let m1 = sanitize::repaired_all(ms);
    if ms.len() > 0 {
        lemma_repaired_calls(ms.drop_last());
        assert(m1.drop_last() =~= sanitize::repaired_all(ms.drop_last()));
        assert(m1.last() == sanitize::with_repaired_calls(ms.last()));
        assert(all_calls(m1) =~= all_calls(ms).map_values(g));
    } else {
        assert(all_calls(m1) =~= all_calls(ms).map_values(g));
    }
}

proof fn lemma_calls_of_kept(
    s: Seq<message::MessageView>,
    p: spec_fn(message::MessageView) -> bool,
)
    requires
        forall|i: int|
            0 <= i < s.len() && !p(#[trigger] s[i]) ==> (s[i].tool_calls matches Some(cs)
                ==> cs.len() == 0),
    ensures
        all_calls(s.filter(p)) == all_calls(s),
    decreases s.len(),
{
    reveal(Seq::filter);
    if s.len() > 0 {
        let t = s.drop_last();
        assert forall|i: int| 0 <= i < t.len() && !p(#[trigger] t[i]) implies (
        t[i].tool_calls matches Some(cs) ==> cs.len() == 0) by {
            assert(t[i] == s[i]);
        }
        lemma_calls_of_kept(t, p);
        if p(s.last()) {
            assert(s.filter(p).drop_last() =~= t.filter(p));
        } else {
            assert(s[s.len() - 1] == s.last());
            assert(all_calls(s) =~= all_calls(t));
        }
    }
}

proof fn lemma_filter_concat(
    a: Seq<message::ToolCallView>,
    b: Seq<message::ToolCallView>,
    p: spec_fn(message::ToolCallView) -> bool,
)
    ensures
        (a + b).filter(p) == a.filter(p) + b.filter(p),
    decreases b.len(),
{
    reveal(Seq::filter);
    if b.len() == 0 {
        assert(a + b =~= a);
        assert(a.filter(p) + b.filter(p) =~= a.filter(p));
    } else {
        assert((a + b).drop_last() =~= a + b.drop_last());
        lemma_filter_concat(a, b.drop_last(), p);
        assert((a + b).filter(p) =~= a.filter(p) + b.filter(p));
    }
}

proof fn lemma_calls_answered(ms: Seq<message::MessageView>)
    ensures
        all_calls(sanitize::without_unanswered_calls(ms)) == all_calls(ms).filter(
            |c: message::ToolCallView| sanitize::answered(ms, c.id),
        ),
{
    lemma_calls_answered_in(ms, ms);
    assert(sanitize::without_unanswered_calls(ms) =~= ms.map_values(
        |m: message::MessageView| sanitize::without_unanswered(m, ms),
    ));
}

proof fn lemma_calls_answered_in(s: Seq<message::MessageView>, ms: Seq<message::MessageView>)
    ensures
        all_calls(
            s.map_values(|m: message::MessageView| sanitize::without_unanswered(m, ms)),
        ) == all_calls(s).filter(|c: message::ToolCallView| sanitize::answered(ms, c.id)),
    decreases s.len(),
{
    reveal(Seq::filter);
    let w = |m: message::MessageView| sanitize::without_unanswered(m, ms);
    let p = |c: message::ToolCallView| sanitize::answered(ms, c.id);
    let r = s.map_values(w);
    if s.len() > 0 {
        let t = s.drop_last();
        lemma_calls_answered_in(t, ms);
        assert(r.drop_last() =~= t.map_values(w));
        assert(r.last() == w(s.last()));
        let last = match s.last().tool_calls {
            Some(cs) => cs,
            None => Seq::empty(),
        };
        lemma_filter_concat(all_calls(t), last, p);
        assert(all_calls(r) =~= all_calls(s).filter(p));
    } else {
        assert(all_calls(r) =~= all_calls(s).filter(p));
    }
}

proof fn lemma_calls_one_system(s: Seq<message::MessageView>)
    requires
        forall|i: int|
            0 <= i < s.len() && (#[trigger] s[i]).role == MessageRole::System ==> (
            s[i].tool_calls matches Some(cs) ==> cs.len() == 0),
    ensures
        all_calls(sanitize::one_system(s)) == all_calls(s),
    decreases s.len(),
{
    if s.len() > 0 {
        let t = s.drop_last();
        assert forall|i: int| 0 <= i < t.len() && (#[trigger] t[i]).role
            == MessageRole::System implies (t[i].tool_calls matches Some(cs) ==> cs.len() == 0) by {
            assert(t[i] == s[i]);
        }
        lemma_calls_one_system(t);
        if s.last().role == MessageRole::System && sanitize::has_system(t) {
            assert(s[s.len() - 1] == s.last());
            assert(all_calls(s) =~= all_calls(t));
        } else {
            assert(sanitize::one_system(t).push(s.last()).drop_last() =~= sanitize::one_system(t));
        }
    }
}

/// Each message that is left is one that there was, with those of its own calls that are
/// answered: no call moves from one message to another.
pub proof fn calls_stay_with_their_message(ms: Seq<message::MessageView>, i: int) -> (k: int)
    requires
        0 <= i < sanitize::sanitized(ms).len(),
    ensures
        0 <= k < ms.len(),
        ({
            let m = sanitize::sanitized(ms)[i];
            &&& spoken_part(m) == spoken_part(ms[k])
            &&& match m.tool_calls {
                Some(cs) => ms[k].tool_calls matches Some(all) && cs == all.map_values(
                    |c: message::ToolCallView| with_json_arguments(c),
                ).filter(
                    |c: message::ToolCallView|
                        sanitize::answered(
                            sanitize::without_orphan_results(sanitize::repaired_all(ms)),
                            c.id,
                        ),
                ),
                None => true,
            }
        }),
{
    let m1 = sanitize::repaired_all(ms);
    let m2 = sanitize::without_orphan_results(m1);
    let r = sanitize::sanitized(ms);
    let orphan = |m: message::MessageView| !sanitize::is_orphan_result(m, m1);
    sanitize::lemma_steps(ms);
    crate::list::lemma_filter_members(m1, orphan);
    let a = choose|a: int|
        0 <= a < m2.len() && sanitize::without_unanswered(#[trigger] m2[a], m2) == r[i];
    assert(m1.contains(m2[a]));
    let k = choose|k: int| 0 <= k < m1.len() && m1[k] == m2[a];
    assert(m1[k] == sanitize::with_repaired_calls(ms[k]));
    if ms[k].tool_calls is Some {
        let all = ms[k].tool_calls->0;
        assert(all.map_values(|c: message::ToolCallView| sanitize::repaired(c)) =~= all.map_values(
            |c: message::ToolCallView| with_json_arguments(c),
        ));
    }
    k
}

/// Of what is said in `ms`, `x` stays: a call that is answered, an answer that is asked
/// for, or anything else.
pub open spec fn stays(ms: Seq<message::MessageView>, x: Said) -> bool {
    match x {
        Said::Call(id, _, _) => is_answered(ms, id),
        Said::Answer(id, _, _) => is_asked(ms, id),
        _ => true,
    }
}

/// A call with arguments that are JSON, or what else was said.
pub open spec fn mended(x: Said) -> Said {
    match x {
        Said::Call(id, name, arguments) => if json::json_of_text(arguments) is Some {
            x
        } else {
            Said::Call(id, name, "{}"@)
        },
        _ => x,
    }
}

/// Only one of the messages at most is a system message.
pub open spec fn one_system_at_most(ms: Seq<message::MessageView>) -> bool {
    forall|i: int, j: int|
        0 <= i < j < ms.len() ==> !((#[trigger] ms[i]).role == MessageRole::System && (
        #[trigger] ms[j]).role == MessageRole::System)
}

/// Only an assistant calls tools, an answer has the id of its call, and a summary is not
/// empty.
pub open spec fn is_conversation(ms: Seq<message::MessageView>) -> bool {
    forall|i: int| 0 <= i < ms.len() ==> is_turn(#[trigger] ms[i])
}

/// See `is_conversation`.
pub open spec fn is_turn(m: message::MessageView) -> bool {
    &&& m.tool_calls is Some ==> m.role == MessageRole::Assistant
    &&& m.role == MessageRole::Tool ==> m.tool_call_id is Some
    &&& m.role == MessageRole::Assistant && m.name == Some("compaction_summary"@) ==> m.content.len()
        > 0
}

/// Cleaning a conversation keeps all that is said in it, each thing in its place, but for
/// calls that are not answered and answers that are not asked for.
pub proof fn sanitizing_keeps_the_conversation(ms: Seq<message::MessageView>)
    requires
        is_conversation(ms),
        one_system_at_most(ms),
    ensures
        restorer_laws::history_says(sanitize::sanitized(ms)) == restorer_laws::history_says(
            ms,
        ).filter(|x: Said| stays(ms, x)).map_values(|x: Said| mended(x)),
{
    let m1 = sanitize::repaired_all(ms);
    let m2 = sanitize::without_orphan_results(m1);
    let m3 = sanitize::without_unanswered_calls(m2);
    let m4 = sanitize::without_empty_assistants(m3);
    let orphan = |m: message::MessageView| !sanitize::is_orphan_result(m, m1);
    let full = |m: message::MessageView| !sanitize::is_empty_assistant(m);
    let f = |x: Said| mended(x);
    let q1 = |x: Said| x is Answer ==> is_asked(ms, x->Answer_0);
    let q2 = |x: Said| x is Call ==> sanitize::answered(m2, x->Call_0);
    let any = |x: Said| true;
    let said = restorer_laws::history_says(ms);
    lemma_says_repaired(ms);
    lemma_asked_after_repair(ms);
    assert forall|i: int| 0 <= i < m1.len() implies is_turn(#[trigger] m1[i]) by {
        assert(is_turn(ms[i]));
    }
    assert forall|i: int, k: int|
        0 <= i < m1.len() && 0 <= k < restorer_laws::message_says(m1[i]).len() implies q1(
        #[trigger] restorer_laws::message_says(m1[i])[k],
    ) == orphan(m1[i]) by {
        assert(is_turn(m1[i]));
        let id = m1[i].tool_call_id->0;
        assert(sanitize::asked(m1, id) == is_asked(ms, id));
    }
    lemma_says_filter(m1, orphan, q1);
    crate::list::lemma_filter_members(m1, orphan);
    assert forall|i: int| 0 <= i < m2.len() implies is_turn(#[trigger] m2[i]) by {
        let k = choose|k: int| 0 <= k < m1.len() && m1[k] == m2[i];
        assert(is_turn(m1[k]));
    }
    lemma_says_answered(m2, m2);
    assert(m3 =~= m2.map_values(|m: message::MessageView| sanitize::without_unanswered(m, m2)));
    assert forall|i: int, k: int|
        0 <= i < m3.len() && 0 <= k < restorer_laws::message_says(m3[i]).len() implies any(
        #[trigger] restorer_laws::message_says(m3[i])[k],
    ) == full(m3[i]) by {
        assert(is_turn(m2[i]));
        if !full(m3[i]) {
            assert(restorer_laws::message_calls(m3[i]).len() == 0);
        }
    }
    lemma_says_filter(m3, full, any);
    let s3 = restorer_laws::history_says(m3);
    crate::list::lemma_filter_all(s3, any);
    lemma_one_left(m1, orphan);
    lemma_one_left(m3, full);
    lemma_single_system(m4);
    assert forall|k: int| 0 <= k < said.len() implies #[trigger] stays(ms, said[k]) == (q1(
        f(said[k]),
    ) && q2(f(said[k]))) by {
        if said[k] is Call {
            let id = said[k]->Call_0;
            lemma_call_is_asked(ms, k);
            lemma_still_answered(ms, id);
        }
    }
    lemma_twice_filtered(said, f, q1, q2, |x: Said| stays(ms, x));
}

proof fn lemma_still_answered(ms: Seq<message::MessageView>, id: Seq<char>)
    requires
        is_asked(ms, id),
    ensures
        sanitize::answered(
            sanitize::without_orphan_results(sanitize::repaired_all(ms)),
            id,
        ) == is_answered(ms, id),
{
    let m1 = sanitize::repaired_all(ms);
    let m2 = sanitize::without_orphan_results(m1);
    let orphan = |m: message::MessageView| !sanitize::is_orphan_result(m, m1);
    crate::list::lemma_filter_members(m1, orphan);
    lemma_asked_after_repair(ms);
    if is_answered(ms, id) {
        let i = choose|i: int|
            0 <= i < ms.len() && (#[trigger] ms[i]).role == MessageRole::Tool && ms[i].tool_call_id
                == Some(id);
        assert(sanitize::asked(m1, id));
        assert(orphan(m1[i]));
        let j = choose|j: int| 0 <= j < m2.len() && m2[j] == m1[i];
        assert(sanitize::answers(m2[j], id));
    }
    if sanitize::answered(m2, id) {
        let j = choose|j: int| 0 <= j < m2.len() && sanitize::answers(#[trigger] m2[j], id);
        let i = choose|i: int| 0 <= i < m1.len() && m1[i] == m2[j];
        assert(ms[i].role == MessageRole::Tool);
    }
}

proof fn lemma_call_is_asked(ms: Seq<message::MessageView>, k: int)
    requires
        0 <= k < restorer_laws::history_says(ms).len(),
        restorer_laws::history_says(ms)[k] is Call,
    ensures
        is_asked(ms, restorer_laws::history_says(ms)[k]->Call_0),
    decreases ms.len(),
{
    let t = ms.drop_last();
    let before = restorer_laws::history_says(t);
    let n = ms.len() - 1;
    let id = restorer_laws::history_says(ms)[k]->Call_0;
    if k < before.len() {
        lemma_call_is_asked(t, k);
        let (i, j) = choose|i: int, j: int|
            0 <= i < t.len() && t[i].tool_calls is Some && 0 <= j < t[i].tool_calls->0.len() && (
            #[trigger] t[i].tool_calls->0[j]).id == id;
        assert(ms[i].tool_calls->0[j].id == id);
    } else {
        let more = restorer_laws::message_says(ms.last());
        let calls = restorer_laws::message_calls(ms.last());
        let at = k - before.len() - (more.len() - calls.len());
        assert(more[k - before.len()] == calls[at]);
        assert(ms[n].tool_calls->0[at].id == id);
    }
}

proof fn lemma_twice_filtered(
    s: Seq<Said>,
    f: spec_fn(Said) -> Said,
    p: spec_fn(Said) -> bool,
    q: spec_fn(Said) -> bool,
    r: spec_fn(Said) -> bool,
)
    requires
        forall|k: int| 0 <= k < s.len() ==> #[trigger] r(s[k]) == (p(f(s[k])) && q(f(s[k]))),
    ensures
        s.map_values(f).filter(p).filter(q) == s.filter(r).map_values(f),
    decreases s.len(),
{
    reveal(Seq::filter);
    if s.len() > 0 {
        let t = s.drop_last();
        let x = s.last();
        assert forall|k: int| 0 <= k < t.len() implies #[trigger] r(t[k]) == (p(f(t[k])) && q(
            f(t[k]),
        )) by {
            assert(r(s[k]) == (p(f(s[k])) && q(f(s[k]))));
        }
        lemma_twice_filtered(t, f, p, q, r);
        assert(s.map_values(f).drop_last() =~= t.map_values(f));
        assert(r(s[s.len() - 1]) == (p(f(x)) && q(f(x))));
        let a = t.map_values(f).filter(p);
        if p(f(x)) {
            assert(a.push(f(x)).drop_last() =~= a);
        }
        assert(s.map_values(f).filter(p).filter(q) =~= s.filter(r).map_values(f));
    } else {
        assert(s.map_values(f).filter(p).filter(q) =~= s.filter(r).map_values(f));
    }
}

proof fn lemma_says_repaired(ms: Seq<message::MessageView>)
    ensures
        restorer_laws::history_says(sanitize::repaired_all(ms)) == restorer_laws::history_says(
            ms,
        ).map_values(|x: Said| mended(x)),
    decreases ms.len(),
{
    let f = |x: Said| mended(x);
    let m1 = sanitize::repaired_all(ms);
    if ms.len() > 0 {
        lemma_says_repaired(ms.drop_last());
        assert(m1.drop_last() =~= sanitize::repaired_all(ms.drop_last()));
        let a = ms.last();
        let b = sanitize::with_repaired_calls(a);
        assert(m1.last() == b);
        assert(restorer_laws::message_calls(b) =~= restorer_laws::message_calls(a).map_values(f));
        assert(restorer_laws::message_says(b) =~= restorer_laws::message_says(a).map_values(f));
        assert(restorer_laws::history_says(m1) =~= restorer_laws::history_says(ms).map_values(f));
    } else {
        assert(restorer_laws::history_says(m1) =~= restorer_laws::history_says(ms).map_values(f));
    }
}

proof fn lemma_said_concat(a: Seq<Said>, b: Seq<Said>, q: spec_fn(Said) -> bool)
    ensures
        (a + b).filter(q) == a.filter(q) + b.filter(q),
    decreases b.len(),
{
    reveal(Seq::filter);
    if b.len() == 0 {
        assert(a + b =~= a);
        assert(a.filter(q) + b.filter(q) =~= a.filter(q));
    } else {
        assert((a + b).drop_last() =~= a + b.drop_last());
        lemma_said_concat(a, b.drop_last(), q);
        assert((a + b).filter(q) =~= a.filter(q) + b.filter(q));
    }
}

proof fn lemma_said_none(a: Seq<Said>, q: spec_fn(Said) -> bool)
    requires
        forall|k: int| 0 <= k < a.len() ==> !q(#[trigger] a[k]),
    ensures
        a.filter(q) == Seq::<Said>::empty(),
    decreases a.len(),
{
    reveal(Seq::filter);
    if a.len() > 0 {
        lemma_said_none(a.drop_last(), q);
    }
    assert(a.filter(q) =~= Seq::<Said>::empty());
}

proof fn lemma_says_filter(
    s: Seq<message::MessageView>,
    p: spec_fn(message::MessageView) -> bool,
    q: spec_fn(Said) -> bool,
)
    requires
        forall|i: int, k: int|
            0 <= i < s.len() && 0 <= k < restorer_laws::message_says(s[i]).len() ==> q(
                #[trigger] restorer_laws::message_says(s[i])[k],
            ) == p(s[i]),
    ensures
        restorer_laws::history_says(s.filter(p)) == restorer_laws::history_says(s).filter(q),
    decreases s.len(),
{
    reveal(Seq::filter);
    if s.len() > 0 {
        let t = s.drop_last();
        let m = s.last();
        let n = s.len() - 1;
        assert forall|i: int, k: int|
            0 <= i < t.len() && 0 <= k < restorer_laws::message_says(t[i]).len() implies q(
            #[trigger] restorer_laws::message_says(t[i])[k],
        ) == p(t[i]) by {
            assert(q(restorer_laws::message_says(s[i])[k]) == p(s[i]));
        }
        lemma_says_filter(t, p, q);
        let more = restorer_laws::message_says(m);
        assert forall|k: int| 0 <= k < more.len() implies q(#[trigger] more[k]) == p(m) by {
            assert(q(restorer_laws::message_says(s[n])[k]) == p(s[n]));
        }
        lemma_said_concat(restorer_laws::history_says(t), more, q);
        if p(m) {
            crate::list::lemma_filter_all(more, q);
            assert(s.filter(p).drop_last() =~= t.filter(p));
        } else {
            lemma_said_none(more, q);
            let a = restorer_laws::history_says(t).filter(q);
            assert(a + Seq::<Said>::empty() =~= a);
        }
    } else {
        assert(restorer_laws::history_says(s.filter(p)) =~= restorer_laws::history_says(s).filter(
            q,
        ));
    }
}

proof fn lemma_says_answered(s: Seq<message::MessageView>, ms: Seq<message::MessageView>)
    requires
        is_conversation(s),
    ensures
        restorer_laws::history_says(
            s.map_values(|m: message::MessageView| sanitize::without_unanswered(m, ms)),
        ) == restorer_laws::history_says(s).filter(
            |x: Said| x is Call ==> sanitize::answered(ms, x->Call_0),
        ),
    decreases s.len(),
{
    reveal(Seq::filter);
    let w = |m: message::MessageView| sanitize::without_unanswered(m, ms);
    let q = |x: Said| x is Call ==> sanitize::answered(ms, x->Call_0);
    let r = s.map_values(w);
    if s.len() > 0 {
        let t = s.drop_last();
        let m = s.last();
        assert(is_turn(s[s.len() - 1]));
        assert forall|i: int| 0 <= i < t.len() implies is_turn(#[trigger] t[i]) by {
            assert(is_turn(s[i]));
        }
        lemma_says_answered(t, ms);
        assert(r.drop_last() =~= t.map_values(w));
        assert(r.last() == w(m));
        lemma_said_concat(restorer_laws::history_says(t), restorer_laws::message_says(m), q);
        lemma_turn_answered(m, ms);
    } else {
        assert(restorer_laws::history_says(r) =~= restorer_laws::history_says(s).filter(q));
    }
}

proof fn lemma_turn_answered(m: message::MessageView, ms: Seq<message::MessageView>)
    requires
        is_turn(m),
    ensures
        restorer_laws::message_says(sanitize::without_unanswered(m, ms))
            == restorer_laws::message_says(m).filter(
            |x: Said| x is Call ==> sanitize::answered(ms, x->Call_0),
        ),
{
    let q = |x: Said| x is Call ==> sanitize::answered(ms, x->Call_0);
    let v = sanitize::without_unanswered(m, ms);
    let calls = restorer_laws::message_calls(m);
    let all = restorer_laws::message_says(m);
    if m.role == MessageRole::Assistant {
        let head = all.take(all.len() - calls.len());
        assert(all =~= head + calls);
        lemma_said_concat(head, calls, q);
        crate::list::lemma_filter_all(head, q);
        if m.tool_calls is Some {
            let cs = m.tool_calls->0;
            lemma_calls_filtered(cs, ms);
            assert(restorer_laws::message_calls(v) =~= calls.filter(q));
        } else {
            lemma_said_none(calls, q);
            assert(restorer_laws::message_calls(v) =~= calls.filter(q));
        }
        assert(restorer_laws::message_says(v) =~= head + restorer_laws::message_calls(v));
    } else {
        crate::list::lemma_filter_all(all, q);
    }
}

proof fn lemma_calls_filtered(cs: Seq<message::ToolCallView>, ms: Seq<message::MessageView>)
    ensures
        cs.map_values(
            |c: message::ToolCallView| Said::Call(c.id, c.name, c.arguments),
        ).filter(|x: Said| x is Call ==> sanitize::answered(ms, x->Call_0)) == cs.filter(
            |c: message::ToolCallView| sanitize::answered(ms, c.id),
        ).map_values(|c: message::ToolCallView| Said::Call(c.id, c.name, c.arguments)),
    decreases cs.len(),
{
    reveal(Seq::filter);
    let g = |c: message::ToolCallView| Said::Call(c.id, c.name, c.arguments);
    let q = |x: Said| x is Call ==> sanitize::answered(ms, x->Call_0);
    let p = |c: message::ToolCallView| sanitize::answered(ms, c.id);
    if cs.len() > 0 {
        let t = cs.drop_last();
        lemma_calls_filtered(t, ms);
        assert(cs.map_values(g).drop_last() =~= t.map_values(g));
        assert(cs.map_values(g).last() == g(cs.last()));
        assert(cs.map_values(g).filter(q) =~= cs.filter(p).map_values(g));
    } else {
        assert(cs.map_values(g).filter(q) =~= cs.filter(p).map_values(g));
    }
}

proof fn lemma_one_left(s: Seq<message::MessageView>, p: spec_fn(message::MessageView) -> bool)
    requires
        one_system_at_most(s),
    ensures
        one_system_at_most(s.filter(p)),
    decreases s.len(),
{
    reveal(Seq::filter);
    if s.len() > 0 {
        let t = s.drop_last();
        assert forall|i: int, j: int| 0 <= i < j < t.len() implies !((#[trigger] t[i]).role
            == MessageRole::System && (#[trigger] t[j]).role == MessageRole::System) by {
            assert(t[i] == s[i] && t[j] == s[j]);
        }
        lemma_one_left(t, p);
        if p(s.last()) {
            let f = t.filter(p);
            let g = s.filter(p);
            crate::list::lemma_filter_members(t, p);
            assert forall|i: int, j: int| 0 <= i < j < g.len() implies !((#[trigger] g[i]).role
                == MessageRole::System && (#[trigger] g[j]).role == MessageRole::System) by {
                assert(g[i] == f[i]);
                if j < f.len() {
                    assert(g[j] == f[j]);
                } else {
                    assert(t.contains(f[i]));
                    let k = choose|k: int| 0 <= k < t.len() && t[k] == f[i];
                    assert(s[k] == f[i]);
                    assert(s[s.len() - 1] == g[j]);
                }
            }
        }
    }
}

} // verus!
