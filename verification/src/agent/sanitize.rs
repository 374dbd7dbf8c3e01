//! Cleaning of a message history before it is sent to a model.

use crate::json;
use crate::list;
use crate::message::{ChatMessage, MessageRole, ToolCall};
use crate::message;
use crate::text;
use vstd::prelude::*;

verus! {

/// A tool call whose arguments are a JSON text: where they are not, `{}`
/// stands in their place.
pub open spec fn repaired(c: message::ToolCallView) -> message::ToolCallView {
    if json::is_json(c.arguments) {
        c
    } else {
        message::ToolCallView { arguments: "{}"@, ..c }
    }
}

/// `m` with each of its tool calls repaired.
pub open spec fn with_repaired_calls(m: message::MessageView) -> message::MessageView {
    message::MessageView {
        tool_calls: match m.tool_calls {
            Some(calls) => Some(calls.map_values(|c: message::ToolCallView| repaired(c))),
            None => None,
        },
        ..m
    }
}

/// `m` carries a tool call with the id `id`.
pub open spec fn asks(m: message::MessageView, id: Seq<char>) -> bool {
    m.tool_calls is Some && exists|j: int|
        0 <= j < m.tool_calls->0.len() && (#[trigger] m.tool_calls->0[j]).id == id
}

/// Some message of `ms` carries a tool call with the id `id`.
pub open spec fn asked(ms: Seq<message::MessageView>, id: Seq<char>) -> bool {
    exists|i: int| 0 <= i < ms.len() && asks(#[trigger] ms[i], id)
}

/// `m` is the result of the tool call `id`.
pub open spec fn answers(m: message::MessageView, id: Seq<char>) -> bool {
    m.role == MessageRole::Tool && m.tool_call_id == Some(id)
}

/// Some message of `ms` is the result of the tool call `id`.
pub open spec fn answered(ms: Seq<message::MessageView>, id: Seq<char>) -> bool {
    exists|i: int| 0 <= i < ms.len() && answers(#[trigger] ms[i], id)
}

/// `m` is a tool result for a call that no message of `ms` carries.
pub open spec fn is_orphan_result(
    m: message::MessageView,
    ms: Seq<message::MessageView>,
) -> bool {
    m.role == MessageRole::Tool && m.tool_call_id is Some && !asked(ms, m.tool_call_id->0)
}

/// `m` without the tool calls that no message of `ms` answers.
pub open spec fn without_unanswered(
    m: message::MessageView,
    ms: Seq<message::MessageView>,
) -> message::MessageView {
    message::MessageView {
        tool_calls: match m.tool_calls {
            Some(calls) => {
                let kept = calls.filter(|c: message::ToolCallView| answered(ms, c.id));
                if kept.len() == 0 && calls.len() > 0 {
                    None
                } else {
                    Some(kept)
                }
            },
            None => None,
        },
        ..m
    }
}

/// `m` is an assistant message with neither content nor tool calls.
pub open spec fn is_empty_assistant(m: message::MessageView) -> bool {
    &&& m.role == MessageRole::Assistant
    &&& m.content.len() == 0
    &&& !(m.tool_calls matches Some(calls) && calls.len() > 0)
}

/// Some message of `ms` is a system message.
pub open spec fn has_system(ms: Seq<message::MessageView>) -> bool {
    exists|i: int| 0 <= i < ms.len() && (#[trigger] ms[i]).role == MessageRole::System
}

/// `ms` without its system messages but the first.
pub open spec fn one_system(ms: Seq<message::MessageView>) -> Seq<message::MessageView>
    decreases ms.len(),
{
    if ms.len() == 0 {
        ms
    } else if ms.last().role == MessageRole::System && has_system(ms.drop_last()) {
        one_system(ms.drop_last())
    } else {
        one_system(ms.drop_last()).push(ms.last())
    }
}

pub open spec fn repaired_all(ms: Seq<message::MessageView>) -> Seq<message::MessageView> {
    ms.map_values(|m: message::MessageView| with_repaired_calls(m))
}

pub open spec fn without_orphan_results(ms: Seq<message::MessageView>) -> Seq<
    message::MessageView,
> {
    ms.filter(|m: message::MessageView| !is_orphan_result(m, ms))
}

pub open spec fn without_unanswered_calls(ms: Seq<message::MessageView>) -> Seq<
    message::MessageView,
> {
    ms.map_values(|m: message::MessageView| without_unanswered(m, ms))
}

pub open spec fn without_empty_assistants(ms: Seq<message::MessageView>) -> Seq<
    message::MessageView,
> {
    ms.filter(|m: message::MessageView| !is_empty_assistant(m))
}

/// `ms` cleaned: arguments that are not JSON replaced by `{}`, results without
/// a call dropped, calls without a result dropped, empty assistant messages
/// dropped, and system messages but the first dropped, in this order.
pub open spec fn sanitized(ms: Seq<message::MessageView>) -> Seq<message::MessageView> {
    one_system(
        without_empty_assistants(
            without_unanswered_calls(without_orphan_results(repaired_all(ms))),
        ),
    )
}

/// Replaces the arguments of each call that are not a JSON text by `{}`.
fn repair_calls(calls: &mut Vec<ToolCall>)
    ensures
        message::call_views(final(calls)@) == message::call_views(old(calls)@).map_values(
            |c: message::ToolCallView| repaired(c),
        ),
{
    let ghost all: Seq<ToolCall> = calls@;
    let ghost goal: Seq<message::ToolCallView> = message::call_views(all).map_values(
        |c: message::ToolCallView| repaired(c),
    );
    let mut rest: Vec<ToolCall> = list::take_reversed(calls);
    while rest.len() > 0
        invariant
            rest@.len() <= all.len(),
            rest@ == all.skip(all.len() - rest@.len()).reverse(),
            goal == message::call_views(all).map_values(|c: message::ToolCallView| repaired(c)),
            message::call_views(calls@) == goal.take(all.len() - rest@.len()),
        decreases rest@.len(),
    {
        let ghost n: int = all.len() - rest@.len();
        let ghost before: Seq<ToolCall> = calls@;
        proof {
            assert(rest@.last() == all[n]);
        }
        if let Some(mut c) = rest.pop() {
            if !json::is_json_text(c.function.arguments.as_str()) {
                c.function.arguments = "{}".to_string();
            }
            proof {
                assert(c@ == goal[n]);
                assert(message::call_views(before.push(c)) =~= message::call_views(before).push(
                    c@,
                ));
            }
            calls.push(c);
        }
        proof {
            assert(rest@ =~= all.skip(n + 1).reverse());
            assert(message::call_views(calls@) =~= goal.take(n + 1));
        }
    }
    proof {
        assert(goal.take(all.len() as int) =~= goal);
    }
}

/// Whether some message carries a tool call with the id `id`.
pub fn is_asked(messages: &Vec<ChatMessage>, id: &str) -> (r: bool)
    ensures
        r == asked(message::message_views(messages@), id@),
{
    let ghost views: Seq<message::MessageView> = message::message_views(messages@);
    let mut i: usize = 0;
    while i < messages.len()
        invariant
            i <= messages@.len(),
            views == message::message_views(messages@),
            forall|k: int| 0 <= k < i ==> !asks(#[trigger] views[k], id@),
        decreases messages@.len() - i,
    {
        if let Some(calls) = &messages[i].tool_calls {
            let mut j: usize = 0;
            while j < calls.len()
                invariant
                    i < messages@.len(),
                    views == message::message_views(messages@),
                    messages@[i as int].tool_calls == Some(*calls),
                    j <= calls@.len(),
                    forall|k: int| 0 <= k < j ==> (#[trigger] calls@[k]).id@ != id@,
                decreases calls@.len() - j,
            {
                if text::same_text(calls[j].id.as_str(), id) {
                    proof {
                        let cv = message::call_views(calls@);
                        assert(views[i as int] == messages@[i as int]@);
                        assert(messages@[i as int]@.tool_calls->0 =~= cv);
                        assert(views[i as int].tool_calls->0[j as int].id == id@);
                        assert(0 <= j < cv.len() && cv[j as int].id == id@);
                        assert(asks(views[i as int], id@));
                    }
                    return true;
                }
                j = j + 1;
            }
            proof {
                assert forall|k: int| 0 <= k < calls@.len() implies (
                #[trigger] message::call_views(calls@)[k]).id != id@ by {
                    assert(calls@[k].id@ != id@);
                }
            }
        }
        proof {
            assert(!asks(views[i as int], id@));
        }
        i = i + 1;
    }
    false
}

/// Whether some message is the result of the tool call `id`.
pub fn is_answered(messages: &Vec<ChatMessage>, id: &str) -> (r: bool)
    ensures
        r == answered(message::message_views(messages@), id@),
{
    let ghost views: Seq<message::MessageView> = message::message_views(messages@);
    let mut i: usize = 0;
    while i < messages.len()
        invariant
            i <= messages@.len(),
            views == message::message_views(messages@),
            forall|k: int| 0 <= k < i ==> !answers(#[trigger] views[k], id@),
        decreases messages@.len() - i,
    {
        if messages[i].role == MessageRole::Tool && message::opt_is(&messages[i].tool_call_id, id) {
            proof {
                assert(answers(views[i as int], id@));
            }
            return true;
        }
        proof {
            assert(!answers(views[i as int], id@));
        }
        i = i + 1;
    }
    false
}

fn repair_arguments(messages: &mut Vec<ChatMessage>)
    ensures
        message::message_views(final(messages)@) == repaired_all(
            message::message_views(old(messages)@),
        ),
{
    let ghost all: Seq<ChatMessage> = messages@;
    let ghost goal: Seq<message::MessageView> = repaired_all(message::message_views(all));
    let mut rest: Vec<ChatMessage> = list::take_reversed(messages);
    while rest.len() > 0
        invariant
            rest@.len() <= all.len(),
            rest@ == all.skip(all.len() - rest@.len()).reverse(),
            goal == repaired_all(message::message_views(all)),
            message::message_views(messages@) == goal.take(all.len() - rest@.len()),
        decreases rest@.len(),
    {
        let ghost n: int = all.len() - rest@.len();
        let ghost before: Seq<ChatMessage> = messages@;
        proof {
            assert(rest@.last() == all[n]);
        }
        if let Some(mut m) = rest.pop() {
            if let Some(mut calls) = m.tool_calls.take() {
                repair_calls(&mut calls);
                m.tool_calls = Some(calls);
            }
            proof {
                assert(m@ == goal[n]);
                assert(message::message_views(before.push(m)) =~= message::message_views(
                    before,
                ).push(m@));
            }
            messages.push(m);
        }
        proof {
            assert(rest@ =~= all.skip(n + 1).reverse());
            assert(message::message_views(messages@) =~= goal.take(n + 1));
        }
    }
    proof {
        assert(goal.take(all.len() as int) =~= goal);
    }
}

fn drop_orphan_results(messages: &mut Vec<ChatMessage>)
    ensures
        message::message_views(final(messages)@) == without_orphan_results(
            message::message_views(old(messages)@),
        ),
{
    let ghost all: Seq<ChatMessage> = messages@;
    let ghost views: Seq<message::MessageView> = message::message_views(all);
    let mut keep: Vec<bool> = Vec::new();
    let mut i: usize = 0;
    while i < messages.len()
        invariant
            messages@ == all,
            views == message::message_views(all),
            i <= all.len(),
            keep@.len() == i,
            forall|k: int|
                0 <= k < i ==> keep@[k] == !is_orphan_result(#[trigger] all[k]@, views),
        decreases all.len() - i,
    {
        let orphan: bool = match &messages[i].tool_call_id {
            Some(id) => messages[i].role == MessageRole::Tool && !is_asked(messages, id.as_str()),
            None => false,
        };
        keep.push(!orphan);
        i = i + 1;
    }
    list::retain(messages, &keep);
    proof {
        list::lemma_picked_is_filter(
            all,
            keep@,
            |m: ChatMessage| m@,
            |m: message::MessageView| !is_orphan_result(m, views),
        );
    }
}

/// The calls of `calls` that some message answers.
fn answered_calls(calls: Vec<ToolCall>, messages: &Vec<ChatMessage>) -> (r: Vec<ToolCall>)
    ensures
        message::call_views(r@) == message::call_views(calls@).filter(
            |c: message::ToolCallView| answered(message::message_views(messages@), c.id),
        ),
{
    let ghost views: Seq<message::MessageView> = message::message_views(messages@);
    let mut keep: Vec<bool> = Vec::new();
    let mut i: usize = 0;
    while i < calls.len()
        invariant
            views == message::message_views(messages@),
            i <= calls@.len(),
            keep@.len() == i,
            forall|k: int| 0 <= k < i ==> keep@[k] == answered(views, (#[trigger] calls@[k])@.id),
        decreases calls@.len() - i,
    {
        keep.push(is_answered(messages, calls[i].id.as_str()));
        i = i + 1;
    }
    let mut out: Vec<ToolCall> = calls;
    list::retain(&mut out, &keep);
    proof {
        list::lemma_picked_is_filter(
            calls@,
            keep@,
            |c: ToolCall| c@,
            |c: message::ToolCallView| answered(views, c.id),
        );
    }
    out
}

fn drop_unanswered_calls(messages: &mut Vec<ChatMessage>)
    ensures
        message::message_views(final(messages)@) == without_unanswered_calls(
            message::message_views(old(messages)@),
        ),
{
    let ghost all: Seq<ChatMessage> = messages@;
    let ghost views: Seq<message::MessageView> = message::message_views(all);
    let ghost goal: Seq<message::MessageView> = without_unanswered_calls(views);
    let n: usize = messages.len();
    let mut i: usize = 0;
    while i < n
        invariant
            n == all.len(),
            i <= n,
            messages@.len() == n,
            views == message::message_views(all),
            goal == without_unanswered_calls(views),
            forall|k: int| 0 <= k < i ==> (#[trigger] messages@[k])@ == goal[k],
            forall|k: int| i <= k < n ==> #[trigger] messages@[k] == all[k],
            forall|k: int|
                0 <= k < n ==> (#[trigger] messages@[k])@.role == all[k]@.role
                    && messages@[k]@.tool_call_id == all[k]@.tool_call_id,
        decreases n - i,
    {
        proof {
            assert forall|id: Seq<char>|
                #![trigger answered(views, id)]
                answered(message::message_views(messages@), id) == answered(views, id) by {
                let now = message::message_views(messages@);
                if answered(now, id) {
                    let k = choose|k: int| 0 <= k < now.len() && answers(#[trigger] now[k], id);
                    assert(messages@[k]@.role == all[k]@.role);
                    assert(answers(views[k], id));
                }
                if answered(views, id) {
                    let k = choose|k: int| 0 <= k < views.len() && answers(#[trigger] views[k], id);
                    assert(messages@[k]@.role == all[k]@.role);
                    assert(answers(now[k], id));
                }
            }
        }
        if messages[i].tool_calls.is_some() {
            let mut m: ChatMessage = messages[i].clone();
            if let Some(calls) = m.tool_calls.take() {
                let before: usize = calls.len();
                let kept: Vec<ToolCall> = answered_calls(calls, messages);
                proof {
                    let p = |c: message::ToolCallView| answered(views, c.id);
                    let q = |c: message::ToolCallView|
                        answered(message::message_views(messages@), c.id);
                    assert(p =~= q);
                }
                if kept.len() > 0 || before == 0 {
                    m.tool_calls = Some(kept);
                }
            }
            proof {
                assert(m@ == goal[i as int]);
            }
            messages.set(i, m);
        }
        i = i + 1;
    }
    proof {
        assert(message::message_views(messages@) =~= goal);
    }
}

fn drop_empty_assistants(messages: &mut Vec<ChatMessage>)
    ensures
        message::message_views(final(messages)@) == without_empty_assistants(
            message::message_views(old(messages)@),
        ),
{
    let ghost all: Seq<ChatMessage> = messages@;
    let mut keep: Vec<bool> = Vec::new();
    let mut i: usize = 0;
    while i < messages.len()
        invariant
            messages@ == all,
            i <= all.len(),
            keep@.len() == i,
            forall|k: int| 0 <= k < i ==> keep@[k] == !is_empty_assistant((#[trigger] all[k])@),
        decreases all.len() - i,
    {
        let has_calls: bool = match &messages[i].tool_calls {
            Some(calls) => calls.len() > 0,
            None => false,
        };
        let empty: bool = messages[i].role == MessageRole::Assistant
            && messages[i].content.as_str().is_empty() && !has_calls;
        keep.push(!empty);
        i = i + 1;
    }
    list::retain(messages, &keep);
    proof {
        list::lemma_picked_is_filter(
            all,
            keep@,
            |m: ChatMessage| m@,
            |m: message::MessageView| !is_empty_assistant(m),
        );
    }
}

fn drop_later_systems(messages: &mut Vec<ChatMessage>)
    ensures
        message::message_views(final(messages)@) == one_system(
            message::message_views(old(messages)@),
        ),
{
    let ghost all: Seq<ChatMessage> = messages@;
    let ghost views: Seq<message::MessageView> = message::message_views(all);
    let mut seen: bool = false;
    let mut rest: Vec<ChatMessage> = list::take_reversed(messages);
    while rest.len() > 0
        invariant
            rest@.len() <= all.len(),
            rest@ == all.skip(all.len() - rest@.len()).reverse(),
            views == message::message_views(all),
            seen == has_system(views.take(all.len() - rest@.len())),
            message::message_views(messages@) == one_system(views.take(all.len() - rest@.len())),
        decreases rest@.len(),
    {
        let ghost n: int = all.len() - rest@.len();
        let ghost before: Seq<ChatMessage> = messages@;
        proof {
            assert(rest@.last() == all[n]);
            let t = views.take(n + 1);
            assert(t.drop_last() =~= views.take(n));
            assert(t.last() == all[n]@);
            if has_system(views.take(n)) {
                let k = choose|k: int|
                    0 <= k < n && (#[trigger] views.take(n)[k]).role == MessageRole::System;
                assert(t[k].role == MessageRole::System);
            }
            if has_system(t) && all[n].role != MessageRole::System {
                let k = choose|k: int|
                    0 <= k < n + 1 && (#[trigger] t[k]).role == MessageRole::System;
                assert(views.take(n)[k].role == MessageRole::System);
            }
        }
        if let Some(m) = rest.pop() {
            let system: bool = m.role == MessageRole::System;
            if system && seen {
            } else {
                if system {
                    proof {
                        assert(views.take(n + 1)[n].role == MessageRole::System);
                    }
                    seen = true;
                }
                proof {
                    assert(message::message_views(before.push(m)) =~= message::message_views(
                        before,
                    ).push(m@));
                }
                messages.push(m);
            }
        }
        proof {
            assert(rest@ =~= all.skip(n + 1).reverse());
        }
    }
    proof {
        assert(views.take(all.len() as int) =~= views);
    }
}

/// Cleans a message history: see `sanitized`.
pub fn sanitize(messages: &mut Vec<ChatMessage>)
    ensures
        message::message_views(final(messages)@) == sanitized(
            message::message_views(old(messages)@),
        ),
{
    repair_arguments(messages);
    drop_orphan_results(messages);
    drop_unanswered_calls(messages);
    drop_empty_assistants(messages);
    drop_later_systems(messages);
}

/// Each tool call that some message of `ms` answers stands in some message.
pub open spec fn results_have_calls(ms: Seq<message::MessageView>) -> bool {
    forall|id: Seq<char>| #![trigger answered(ms, id)] answered(ms, id) ==> asked(ms, id)
}

/// Each tool call of `ms` is answered by some message.
pub open spec fn calls_have_results(ms: Seq<message::MessageView>) -> bool {
    forall|id: Seq<char>| #![trigger asked(ms, id)] asked(ms, id) ==> answered(ms, id)
}

/// The arguments of each tool call of `ms` are a JSON text.
pub open spec fn arguments_are_json(ms: Seq<message::MessageView>) -> bool {
    forall|i: int, j: int|
        0 <= i < ms.len() && ms[i].tool_calls is Some && 0 <= j < ms[i].tool_calls->0.len()
            ==> json::is_json((#[trigger] ms[i].tool_calls->0[j]).arguments)
}

/// At most one message of `ms` is a system message.
pub open spec fn at_most_one_system(ms: Seq<message::MessageView>) -> bool {
    forall|i: int, j: int|
        0 <= i < j < ms.len() ==> !((#[trigger] ms[i]).role == MessageRole::System && (
        #[trigger] ms[j]).role == MessageRole::System)
}

proof fn lemma_one_system(ms: Seq<message::MessageView>)
    ensures
        at_most_one_system(one_system(ms)),
        forall|i: int|
            0 <= i < one_system(ms).len() ==> ms.contains(#[trigger] one_system(ms)[i]),
        forall|i: int|
            0 <= i < ms.len() && (#[trigger] ms[i]).role != MessageRole::System ==> one_system(
                ms,
            ).contains(ms[i]),
        at_most_one_system(ms) ==> one_system(ms) == ms,
    decreases ms.len(),
{
    if ms.len() > 0 {
        let t = ms.drop_last();
        let r = one_system(t);
        let o = one_system(ms);
        lemma_one_system(t);
        assert forall|i: int| 0 <= i < o.len() implies ms.contains(#[trigger] o[i]) by {
            if i < r.len() {
                assert(o[i] == r[i]);
                let k = choose|k: int| 0 <= k < t.len() && t[k] == r[i];
                assert(ms[k] == o[i]);
            } else {
                assert(o[i] == ms[ms.len() - 1]);
            }
        }
        assert forall|i: int|
            0 <= i < ms.len() && (#[trigger] ms[i]).role != MessageRole::System implies o.contains(
            ms[i],
        ) by {
            if i < t.len() {
                assert(t[i] == ms[i]);
                let k = choose|k: int| 0 <= k < r.len() && r[k] == t[i];
                assert(o[k] == ms[i]);
            } else {
                assert(o.last() == ms[i]);
            }
        }
        assert forall|i: int, j: int|
            0 <= i < j < o.len() implies !((#[trigger] o[i]).role == MessageRole::System && (
        #[trigger] o[j]).role == MessageRole::System) by {
            assert(o[i] == r[i]);
            if j < r.len() {
                assert(o[j] == r[j]);
            } else if o[i].role == MessageRole::System && o[j].role == MessageRole::System {
                let k = choose|k: int| 0 <= k < t.len() && t[k] == r[i];
                assert(has_system(t));
            }
        }
        if at_most_one_system(ms) {
            assert forall|i: int, j: int|
                0 <= i < j < t.len() implies !((#[trigger] t[i]).role == MessageRole::System && (
            #[trigger] t[j]).role == MessageRole::System) by {
                assert(t[i] == ms[i] && t[j] == ms[j]);
            }
            if ms.last().role == MessageRole::System && has_system(t) {
                let k = choose|k: int|
                    0 <= k < t.len() && (#[trigger] t[k]).role == MessageRole::System;
                assert(ms[k].role == MessageRole::System);
                assert(ms[ms.len() - 1].role == MessageRole::System);
            }
            assert(o =~= ms);
        }
    }
}

/// What the steps of the cleaning leave of each message of `ms`.
pub(crate) proof fn lemma_steps(ms: Seq<message::MessageView>)
    ensures
        ({
            let m2 = without_orphan_results(repaired_all(ms));
            let r = sanitized(ms);
            &&& forall|i: int|
                0 <= i < r.len() ==> (exists|k: int|
                    0 <= k < m2.len() && without_unanswered(#[trigger] m2[k], m2) == #[trigger] r[i])
                    && !is_empty_assistant(r[i])
            &&& forall|k: int|
                0 <= k < m2.len() && !is_empty_assistant(without_unanswered(m2[k], m2))
                    && m2[k].role != MessageRole::System ==> r.contains(
                    without_unanswered(#[trigger] m2[k], m2),
                )
        }),
{
    let m2 = without_orphan_results(repaired_all(ms));
    let m3 = without_unanswered_calls(m2);
    let m4 = without_empty_assistants(m3);
    let r = sanitized(ms);
    list::lemma_filter_members(m3, |m: message::MessageView| !is_empty_assistant(m));
    lemma_one_system(m4);
    assert forall|i: int| 0 <= i < r.len() implies (exists|k: int|
        0 <= k < m2.len() && without_unanswered(#[trigger] m2[k], m2) == #[trigger] r[i])
        && !is_empty_assistant(r[i]) by {
        let a = choose|a: int| 0 <= a < m4.len() && m4[a] == r[i];
        let b = choose|b: int| 0 <= b < m3.len() && m3[b] == m4[a];
        assert(without_unanswered(m2[b], m2) == r[i]);
    }
    assert forall|k: int|
        0 <= k < m2.len() && !is_empty_assistant(without_unanswered(m2[k], m2)) && m2[k].role
            != MessageRole::System implies r.contains(
        without_unanswered(#[trigger] m2[k], m2),
    ) by {
        assert(m3[k] == without_unanswered(m2[k], m2));
        let a = choose|a: int| 0 <= a < m4.len() && m4[a] == m3[k];
        assert(m4[a].role != MessageRole::System);
    }
}

/// In a cleaned history the arguments of each tool call are JSON, each tool
/// call has its result, no assistant message is empty, and at most one message
/// is a system message.
pub proof fn sanitized_is_clean(ms: Seq<message::MessageView>)
    ensures
        arguments_are_json(sanitized(ms)),
        calls_have_results(sanitized(ms)),
        forall|i: int| 0 <= i < sanitized(ms).len() ==> !is_empty_assistant(#[trigger] sanitized(ms)[i]),
        at_most_one_system(sanitized(ms)),
{
    let m1 = repaired_all(ms);
    let m2 = without_orphan_results(m1);
    let r = sanitized(ms);
    lemma_steps(ms);
    lemma_one_system(without_empty_assistants(without_unanswered_calls(m2)));
    list::lemma_filter_members(m1, |m: message::MessageView| !is_orphan_result(m, m1));
    assert forall|i: int, j: int|
        0 <= i < r.len() && r[i].tool_calls is Some && 0 <= j < r[i].tool_calls->0.len() implies {
        &&& json::is_json((#[trigger] r[i].tool_calls->0[j]).arguments)
        &&& answered(m2, r[i].tool_calls->0[j].id)
    } by {
        let k = choose|k: int|
            0 <= k < m2.len() && without_unanswered(#[trigger] m2[k], m2) == r[i];
        let calls = m2[k].tool_calls->0;
        let p = |c: message::ToolCallView| answered(m2, c.id);
        list::lemma_filter_members(calls, p);
        assert(r[i].tool_calls->0 == calls.filter(p));
        let c = choose|c: int| 0 <= c < calls.len() && calls[c] == r[i].tool_calls->0[j];
        let o = choose|o: int| 0 <= o < m1.len() && m1[o] == m2[k];
        assert(m1[o] == with_repaired_calls(ms[o]));
        assert(calls[c] == repaired(ms[o].tool_calls->0[c]));
    }
    assert forall|id: Seq<char>| #![trigger asked(r, id)] asked(r, id) implies answered(r, id) by {
        let i = choose|i: int| 0 <= i < r.len() && asks(#[trigger] r[i], id);
        let j = choose|j: int|
            0 <= j < r[i].tool_calls->0.len() && (#[trigger] r[i].tool_calls->0[j]).id == id;
        assert(answered(m2, id));
        let k = choose|k: int| 0 <= k < m2.len() && answers(#[trigger] m2[k], id);
        let w = without_unanswered(m2[k], m2);
        assert(r.contains(w));
        let q = choose|q: int| 0 <= q < r.len() && r[q] == w;
        assert(answers(r[q], id));
    }
}

/// Cleaning a cleaned history changes nothing, unless the first pass dropped
/// every message that carries some call whose result it kept.
pub proof fn sanitize_is_idempotent(ms: Seq<message::MessageView>)
    requires
        results_have_calls(sanitized(ms)),
    ensures
        sanitized(sanitized(ms)) == sanitized(ms),
{
    let r = sanitized(ms);
    sanitized_is_clean(ms);
    assert forall|i: int| 0 <= i < r.len() implies with_repaired_calls(#[trigger] r[i]) == r[i] by {
        if r[i].tool_calls is Some {
            let calls = r[i].tool_calls->0;
            assert(calls.map_values(|c: message::ToolCallView| repaired(c)) =~= calls);
        }
    }
    assert(repaired_all(r) =~= r);
    assert forall|i: int| 0 <= i < r.len() implies !is_orphan_result(#[trigger] r[i], r) by {
        if r[i].role == MessageRole::Tool && r[i].tool_call_id is Some {
            assert(answers(r[i], r[i].tool_call_id->0));
            assert(answered(r, r[i].tool_call_id->0));
        }
    }
    list::lemma_filter_all(r, |m: message::MessageView| !is_orphan_result(m, r));
    assert forall|i: int| 0 <= i < r.len() implies without_unanswered(#[trigger] r[i], r)
        == r[i] by {
        if r[i].tool_calls is Some {
            let calls = r[i].tool_calls->0;
            let p = |c: message::ToolCallView| answered(r, c.id);
            assert forall|j: int| 0 <= j < calls.len() implies p(#[trigger] calls[j]) by {
                assert(asks(r[i], calls[j].id));
                assert(asked(r, calls[j].id));
            }
            list::lemma_filter_all(calls, p);
        }
    }
    assert(without_unanswered_calls(r) =~= r);
    list::lemma_filter_all(r, |m: message::MessageView| !is_empty_assistant(m));
    lemma_one_system(r);
}

/// Where neither a system message nor a tool result carries tool calls, each
/// result of a cleaned history has its call, and cleaning it again changes
/// nothing.
pub proof fn sanitized_is_paired(ms: Seq<message::MessageView>)
    requires
        forall|i: int|
            0 <= i < ms.len() && (#[trigger] ms[i]).tool_calls is Some ==> ms[i].role
                == MessageRole::Assistant || ms[i].role == MessageRole::User,
    ensures
        results_have_calls(sanitized(ms)),
        calls_have_results(sanitized(ms)),
        sanitized(sanitized(ms)) == sanitized(ms),
{
    let m1 = repaired_all(ms);
    let m2 = without_orphan_results(m1);
    let r = sanitized(ms);
    lemma_steps(ms);
    list::lemma_filter_members(m1, |m: message::MessageView| !is_orphan_result(m, m1));
    assert forall|id: Seq<char>| #![trigger answered(r, id)] answered(r, id) implies asked(
        r,
        id,
    ) by {
        let i = choose|i: int| 0 <= i < r.len() && answers(#[trigger] r[i], id);
        let k = choose|k: int|
            0 <= k < m2.len() && without_unanswered(#[trigger] m2[k], m2) == r[i];
        assert(answers(m2[k], id));
        assert(answered(m2, id));
        assert(!is_orphan_result(m2[k], m1));
        let o = choose|o: int| 0 <= o < m1.len() && asks(#[trigger] m1[o], id);
        assert(m1[o] == with_repaired_calls(ms[o]));
        assert(ms[o].tool_calls is Some);
        let q = choose|q: int| 0 <= q < m2.len() && m2[q] == m1[o];
        let calls = m2[q].tool_calls->0;
        let p = |c: message::ToolCallView| answered(m2, c.id);
        let j = choose|j: int|
            0 <= j < m1[o].tool_calls->0.len() && (#[trigger] m1[o].tool_calls->0[j]).id == id;
        list::lemma_filter_members(calls, p);
        assert(p(calls[j]));
        let kept = calls.filter(p);
        let w = without_unanswered(m2[q], m2);
        assert(kept.contains(calls[j]));
        let x = choose|x: int| 0 <= x < kept.len() && kept[x] == calls[j];
        assert(w.tool_calls == Some(kept));
        assert(w.tool_calls->0[x].id == id);
        assert(asks(w, id));
        assert(r.contains(w));
        let y = choose|y: int| 0 <= y < r.len() && r[y] == w;
        assert(asks(r[y], id));
    }
    sanitized_is_clean(ms);
    sanitize_is_idempotent(ms);
}

} // verus!
