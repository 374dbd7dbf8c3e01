//! A session's history, rebuilt from its conversation file.
//!
//! The file is a log. Each of its entries becomes a message, or part of one, of
//! the history that the session had: thoughts are left out, a tool call is
//! joined to the assistant message before it, and a tool result whose call is
//! missing is dropped. Of what stands before the last compaction only the system
//! messages are kept.

use crate::agent::history::COMPACTION_SUMMARY;
use crate::agent::sanitize;
use crate::bytes;
use crate::conversation::entry::ConversationEntry;
use crate::conversation::entry;
use crate::conversation::pages::NOT_UTF8;
use crate::conversation::pages;
use crate::conversation::since;
use crate::json;
use crate::list;
use crate::message::{ChatMessage, FunctionCall, MessageRole, ToolCall};
use crate::message;
use crate::text;
use vstd::prelude::*;
use vstd::utf8::*;

verus! {

/// A restored history.
#[derive(Debug, PartialEq, Eq)]
pub struct RestoreOutcome {
    pub messages: Vec<ChatMessage>,
    /// The file holds the mark of a compaction.
    pub had_compaction: bool,
    /// How many entries went into the messages.
    pub replayed_entry_count: usize,
    /// How many entries did not, or could not be read.
    pub skipped_entry_count: usize,
}

/// Why a history could not be restored.
#[derive(Debug, PartialEq, Eq)]
pub enum RestoreError {
    /// The file could not be read.
    Io(String),
}

impl RestoreError {
    /// The error in words.
    pub fn message(&self) -> (r: String)
        ensures
            r@ == "io error: "@ + self->Io_0@,
    {
        let mut r: String = "io error: ".to_string();
        match self {
            RestoreError::Io(e) => {
                r.append(e.as_str());
            },
        }
        r
    }
}

/// The index before `end` of the last mark of a compaction.
pub open spec fn last_compaction(es: Seq<entry::EntryView>, end: int) -> Option<int>
    decreases end,
{
    if end <= 0 {
        None
    } else if es[end - 1].is_compaction() {
        Some(end - 1)
    } else {
        last_compaction(es, end - 1)
    }
}

/// A system message, and not the mark of anything.
pub open spec fn is_system_message(e: entry::EntryView) -> bool {
    e.role == "system"@ && (e.kind is None || e.kind == Some("message"@))
}

/// The entries that are replayed: all of them or, where there is the mark of a
/// compaction, the system messages before the last one, and the entries from it
/// on.
pub open spec fn working(es: Seq<entry::EntryView>) -> Seq<entry::EntryView> {
    match last_compaction(es, es.len() as int) {
        Some(i) => es.take(i).filter(|e: entry::EntryView| is_system_message(e)) + es.skip(i),
        None => es,
    }
}

/// The text of a member of an entry's metadata, or nothing.
pub open spec fn meta_text(e: entry::EntryView, key: Seq<char>) -> Seq<char> {
    match e.metadata {
        Some(m) => match m.str_at(key) {
            Some(s) => s,
            None => Seq::empty(),
        },
        None => Seq::empty(),
    }
}

/// The tool call of an entry.
pub open spec fn entry_call(e: entry::EntryView) -> message::ToolCallView {
    message::ToolCallView {
        id: meta_text(e, "tool_call_id"@),
        call_type: "function"@,
        name: meta_text(e, "tool_name"@),
        arguments: e.content,
    }
}

/// The messages with a tool call joined to the last one, where that is the
/// assistant's; behind others, an assistant message is added for it.
pub open spec fn with_call(
    ms: Seq<message::MessageView>,
    call: message::ToolCallView,
) -> Seq<message::MessageView> {
    if ms.len() > 0 && ms.last().role == MessageRole::Assistant {
        let m = ms.last();
        ms.update(
            ms.len() - 1,
            message::MessageView {
                tool_calls: Some(
                    match m.tool_calls {
                        Some(calls) => calls.push(call),
                        None => seq![call],
                    },
                ),
                ..m
            },
        )
    } else {
        ms.push(
            message::MessageView {
                tool_calls: Some(seq![call]),
                ..message::plain_message(MessageRole::Assistant, Seq::empty())
            },
        )
    }
}

/// The messages after the entry `e`, or `None` where it is passed over.
pub open spec fn replayed(ms: Seq<message::MessageView>, e: entry::EntryView) -> Option<
    Seq<message::MessageView>,
> {
    if e.is_compaction() {
        Some(
            ms.push(
                message::MessageView {
                    name: Some(COMPACTION_SUMMARY@),
                    ..message::plain_message(MessageRole::Assistant, e.content)
                },
            ),
        )
    } else if e.role == "system"@ {
        Some(ms.push(message::plain_message(MessageRole::System, e.content)))
    } else if e.role == "user"@ {
        Some(ms.push(message::plain_message(MessageRole::User, e.content)))
    } else if e.role == "assistant"@ {
        Some(ms.push(message::plain_message(MessageRole::Assistant, e.content)))
    } else if e.role == "tool_call"@ {
        if entry_call(e).id.len() == 0 || entry_call(e).name.len() == 0 {
            None
        } else {
            Some(with_call(ms, entry_call(e)))
        }
    } else if e.role == "tool_result"@ {
        if meta_text(e, "tool_call_id"@).len() == 0 {
            None
        } else {
            Some(
                ms.push(
                    message::MessageView {
                        tool_call_id: Some(meta_text(e, "tool_call_id"@)),
                        name: match e.metadata {
                            Some(m) => m.str_at("tool_name"@),
                            None => None,
                        },
                        ..message::plain_message(MessageRole::Tool, e.content)
                    },
                ),
            )
        }
    } else {
        None
    }
}

/// The messages after the first `n` entries.
pub open spec fn replay(es: Seq<entry::EntryView>, n: int) -> Seq<message::MessageView>
    decreases n,
{
    if n <= 0 {
        Seq::empty()
    } else {
        match replayed(replay(es, n - 1), es[n - 1]) {
            Some(ms) => ms,
            None => replay(es, n - 1),
        }
    }
}

/// How many of the first `n` entries are passed over.
pub open spec fn passed_over(es: Seq<entry::EntryView>, n: int) -> nat
    decreases n,
{
    if n <= 0 {
        0
    } else {
        passed_over(es, n - 1) + (if replayed(replay(es, n - 1), es[n - 1]) is None {
            1nat
        } else {
            0
        })
    }
}

/// One of the first `n` messages is the assistant's and asks for the tool call
/// `id`.
pub open spec fn requested(ms: Seq<message::MessageView>, n: int, id: Seq<char>) -> bool {
    exists|j: int|
        0 <= j < n && (#[trigger] ms[j]).role == MessageRole::Assistant && sanitize::asks(
            ms[j],
            id,
        )
}

/// The message is no tool result, or that of a call that stands before it.
pub open spec fn follows_call(ms: Seq<message::MessageView>, i: int) -> bool {
    ms[i].role != MessageRole::Tool || (ms[i].tool_call_id matches Some(id) && requested(
        ms,
        i,
        id,
    ))
}

/// The first `n` messages, without the tool results whose call does not stand
/// before them.
pub open spec fn paired(ms: Seq<message::MessageView>, n: int) -> Seq<message::MessageView>
    decreases n,
{
    if n <= 0 {
        Seq::empty()
    } else if follows_call(ms, n - 1) {
        paired(ms, n - 1).push(ms[n - 1])
    } else {
        paired(ms, n - 1)
    }
}

/// The messages of a restored history.
pub open spec fn restored(es: Seq<entry::EntryView>) -> Seq<message::MessageView> {
    let ms = replay(working(es), working(es).len() as int);
    paired(ms, ms.len() as int)
}

/// How many entries went into the messages of a restored history.
pub open spec fn restored_count(es: Seq<entry::EntryView>) -> int {
    let w = working(es);
    let ms = replay(w, w.len() as int);
    w.len() - passed_over(w, w.len() as int) - (ms.len() - paired(ms, ms.len() as int).len())
}

fn meta_string(e: &ConversationEntry, key: &str) -> (r: Option<String>)
    ensures
        text::opt_text(r) == (match e@.metadata {
            Some(m) => m.str_at(key@),
            None => None,
        }),
{
    match &e.metadata {
        Some(m) => m.str_at(key),
        None => None,
    }
}

fn meta_or_empty(e: &ConversationEntry, key: &str) -> (r: String)
    ensures
        r@ == meta_text(e@, key@),
{
    match meta_string(e, key) {
        Some(s) => s,
        None => {
            let r: String = String::new();
            proof {
                assert(r@ =~= Seq::empty());
            }
            r
        },
    }
}

fn join_call(messages: &mut Vec<ChatMessage>, call: ToolCall)
    ensures
        message::message_views(final(messages)@) == with_call(
            message::message_views(old(messages)@),
            call@,
        ),
{
    let ghost before: Seq<message::MessageView> = message::message_views(messages@);
    let ghost c: message::ToolCallView = call@;
    let n: usize = messages.len();
    if n > 0 && messages[n - 1].role == MessageRole::Assistant {
        if let Some(mut m) = messages.pop() {
            let ghost was: message::MessageView = m@;
            proof {
                assert(was == before.last());
            }
            let calls: Vec<ToolCall> = match m.tool_calls {
                Some(mut calls) => {
                    let ghost old_calls: Seq<ToolCall> = calls@;
                    calls.push(call);
                    proof {
                        assert(message::call_views(calls@) =~= message::call_views(old_calls).push(
                            c,
                        ));
                    }
                    calls
                },
                None => {
                    let mut calls: Vec<ToolCall> = Vec::new();
                    calls.push(call);
                    proof {
                        assert(message::call_views(calls@) =~= seq![c]);
                    }
                    calls
                },
            };
            m.tool_calls = Some(calls);
            messages.push(m);
        }
    } else {
        let mut calls: Vec<ToolCall> = Vec::new();
        calls.push(call);
        let m: ChatMessage = ChatMessage::assistant_with_tools(String::new(), calls);
        proof {
            assert(message::call_views(calls@) =~= seq![c]);
            assert(m@.content =~= Seq::empty());
        }
        messages.push(m);
    }
    proof {
        assert(message::message_views(messages@) =~= with_call(before, c));
    }
}

fn push_message(messages: &mut Vec<ChatMessage>, m: ChatMessage)
    ensures
        message::message_views(final(messages)@) == message::message_views(old(messages)@).push(m@),
{
    let ghost before: Seq<ChatMessage> = messages@;
    messages.push(m);
    proof {
        assert(message::message_views(messages@) =~= message::message_views(before).push(m@));
    }
}

/// Adds what an entry stands for to the messages, unless it is passed over.
/// Whether it was added is returned.
pub fn replay_entry(messages: &mut Vec<ChatMessage>, e: &ConversationEntry) -> (r: bool)
    ensures
        match replayed(message::message_views(old(messages)@), e@) {
            Some(ms) => r && message::message_views(final(messages)@) == ms,
            None => !r && final(messages)@ == old(messages)@,
        },
{
    let role: &str = e.role.as_str();
    if e.is_compaction() {
        let mut m: ChatMessage = ChatMessage::assistant(e.content.clone());
        m.name = Some(COMPACTION_SUMMARY.to_string());
        push_message(messages, m);
        return true;
    }
    if text::same_text(role, "system") {
        push_message(messages, ChatMessage::of_role(MessageRole::System, e.content.clone()));
        true
    } else if text::same_text(role, "user") {
        push_message(messages, ChatMessage::user(e.content.clone()));
        true
    } else if text::same_text(role, "assistant") {
        push_message(messages, ChatMessage::assistant(e.content.clone()));
        true
    } else if text::same_text(role, "tool_call") {
        let id: String = meta_or_empty(e, "tool_call_id");
        let name: String = meta_or_empty(e, "tool_name");
        if id.as_str().is_empty() || name.as_str().is_empty() {
            return false;
        }
        let call: ToolCall = ToolCall {
            id,
            call_type: "function".to_string(),
            function: FunctionCall { name, arguments: e.content.clone() },
        };
        join_call(messages, call);
        true
    } else if text::same_text(role, "tool_result") {
        let id: String = meta_or_empty(e, "tool_call_id");
        if id.as_str().is_empty() {
            return false;
        }
        let mut m: ChatMessage = ChatMessage::tool(id, e.content.clone());
        m.name = meta_string(e, "tool_name");
        push_message(messages, m);
        true
    } else {
        false
    }
}

fn is_requested(messages: &Vec<ChatMessage>, n: usize, id: &str) -> (r: bool)
    requires
        n <= messages@.len(),
    ensures
        r == requested(message::message_views(messages@), n as int, id@),
{
    let ghost views: Seq<message::MessageView> = message::message_views(messages@);
    let mut i: usize = 0;
    while i < n
        invariant
            i <= n <= messages@.len(),
            views == message::message_views(messages@),
            forall|k: int|
                0 <= k < i && (#[trigger] views[k]).role == MessageRole::Assistant
                    ==> !sanitize::asks(views[k], id@),
        decreases n - i,
    {
        if messages[i].role == MessageRole::Assistant && asks_for(&messages[i], id) {
            proof {
                assert(views[i as int].role == MessageRole::Assistant);
            }
            return true;
        }
        i = i + 1;
    }
    false
}

fn asks_for(m: &ChatMessage, id: &str) -> (r: bool)
    ensures
        r == sanitize::asks(m@, id@),
{
    match &m.tool_calls {
        Some(calls) => {
            let ghost cv: Seq<message::ToolCallView> = message::call_views(calls@);
            let mut j: usize = 0;
            while j < calls.len()
                invariant
                    j <= calls@.len(),
                    cv == message::call_views(calls@),
                    m@.tool_calls == Some(cv),
                    forall|k: int| 0 <= k < j ==> (#[trigger] cv[k]).id != id@,
                decreases calls@.len() - j,
            {
                if text::same_text(calls[j].id.as_str(), id) {
                    proof {
                        assert(m@.tool_calls->0[j as int].id == id@);
                    }
                    return true;
                }
                j = j + 1;
            }
            false
        },
        None => false,
    }
}

proof fn lemma_picked_is_paired(v: Seq<ChatMessage>, keep: Seq<bool>, n: int)
    requires
        0 <= n <= v.len(),
        keep.len() == v.len(),
        forall|i: int|
            0 <= i < v.len() ==> #[trigger] keep[i] == follows_call(message::message_views(v), i),
    ensures
        message::message_views(list::picked(v.take(n), keep.take(n))) == paired(
            message::message_views(v),
            n,
        ),
    decreases n,
{
    let views = message::message_views(v);
    if n > 0 {
        lemma_picked_is_paired(v, keep, n - 1);
        assert(v.take(n).drop_last() =~= v.take(n - 1));
        assert(keep.take(n).drop_last() =~= keep.take(n - 1));
        assert(keep.take(n).last() == keep[n - 1]);
        let rest = list::picked(v.take(n - 1), keep.take(n - 1));
        assert(message::message_views(rest.push(v[n - 1])) =~= message::message_views(rest).push(
            views[n - 1],
        ));
    } else {
        assert(message::message_views(list::picked(v.take(n), keep.take(n))) =~= paired(views, n));
    }
}

/// Drops the tool results whose call does not stand before them, and says how
/// many they were.
pub fn drop_orphan_tool_results(messages: &mut Vec<ChatMessage>) -> (r: usize)
    ensures
        ({
            let before = message::message_views(old(messages)@);
            let after = message::message_views(final(messages)@);
            after == paired(before, before.len() as int) && r == before.len() - after.len()
        }),
{
    let ghost v: Seq<ChatMessage> = messages@;
    let mut keep: Vec<bool> = Vec::new();
    let mut i: usize = 0;
    while i < messages.len()
        invariant
            i <= messages@.len(),
            messages@ == v,
            keep@.len() == i,
            forall|k: int|
                0 <= k < i ==> #[trigger] keep@[k] == follows_call(message::message_views(v), k),
        decreases messages@.len() - i,
    {
        let kept: bool = if messages[i].role == MessageRole::Tool {
            match &messages[i].tool_call_id {
                Some(id) => is_requested(&*messages, i, id.as_str()),
                None => false,
            }
        } else {
            true
        };
        keep.push(kept);
        i = i + 1;
    }
    let before: usize = messages.len();
    list::retain(messages, &keep);
    proof {
        lemma_picked_is_paired(v, keep@, v.len() as int);
        assert(v.take(v.len() as int) =~= v);
        assert(keep@.take(v.len() as int) =~= keep@);
        list::lemma_picked_len(v, keep@);
    }
    before - messages.len()
}

fn find_last_compaction(entries: &Vec<ConversationEntry>) -> (r: Option<usize>)
    ensures
        match r {
            Some(i) => i < entries@.len() && last_compaction(
                entry::entry_views(entries@),
                entries@.len() as int,
            ) == Some(i as int),
            None => last_compaction(entry::entry_views(entries@), entries@.len() as int) is None,
        },
{
    let mut end: usize = entries.len();
    while end > 0 && !entries[end - 1].is_compaction()
        invariant
            end <= entries@.len(),
            last_compaction(entry::entry_views(entries@), entries@.len() as int)
                == last_compaction(entry::entry_views(entries@), end as int),
        decreases end,
    {
        end = end - 1;
    }
    if end > 0 {
        Some(end - 1)
    } else {
        None
    }
}

fn keeps_before_compaction(e: &ConversationEntry) -> (r: bool)
    ensures
        r == is_system_message(e@),
{
    text::same_text(e.role.as_str(), "system") && match &e.kind {
        Some(k) => text::same_text(k.as_str(), "message"),
        None => true,
    }
}

/// The entries at the indices `at`.
spec fn selected(es: Seq<entry::EntryView>, at: Seq<usize>) -> Seq<entry::EntryView> {
    at.map_values(|k: usize| es[k as int])
}

fn working_indices(entries: &Vec<ConversationEntry>, last: Option<usize>) -> (r: Vec<usize>)
    requires
        match last {
            Some(i) => i < entries@.len() && last_compaction(
                entry::entry_views(entries@),
                entries@.len() as int,
            ) == Some(i as int),
            None => last_compaction(entry::entry_views(entries@), entries@.len() as int) is None,
        },
    ensures
        selected(entry::entry_views(entries@), r@) == working(entry::entry_views(entries@)),
        forall|k: int| 0 <= k < r@.len() ==> (#[trigger] r@[k]) < entries@.len(),
        r@.len() <= entries@.len(),
{
    let ghost es: Seq<entry::EntryView> = entry::entry_views(entries@);
    let ghost sys: spec_fn(entry::EntryView) -> bool = |e: entry::EntryView| is_system_message(e);
    let mut r: Vec<usize> = Vec::new();
    let start: usize = match last {
        Some(i) => i,
        None => 0,
    };
    let mut i: usize = 0;
    proof {
        reveal(Seq::filter);
        assert(selected(es, r@) =~= es.take(0).filter(sys));
    }
    while i < start
        invariant
            i <= start <= entries@.len(),
            es == entry::entry_views(entries@),
            sys == (|e: entry::EntryView| is_system_message(e)),
            selected(es, r@) == es.take(i as int).filter(sys),
            forall|k: int| 0 <= k < r@.len() ==> (#[trigger] r@[k]) < entries@.len(),
            r@.len() <= i,
        decreases start - i,
    {
        let ghost before: Seq<usize> = r@;
        proof {
            reveal(Seq::filter);
            assert(es.take(i + 1).drop_last() =~= es.take(i as int));
            assert(es.take(i + 1).last() == es[i as int]);
        }
        if keeps_before_compaction(&entries[i]) {
            r.push(i);
            proof {
                assert(selected(es, r@) =~= selected(es, before).push(es[i as int]));
            }
        }
        i = i + 1;
    }
    let ghost head: Seq<entry::EntryView> = es.take(start as int).filter(sys);
    proof {
        assert(selected(es, r@) =~= head + es.subrange(start as int, start as int));
    }
    while i < entries.len()
        invariant
            start <= i <= entries@.len(),
            es == entry::entry_views(entries@),
            selected(es, r@) == head + es.subrange(start as int, i as int),
            forall|k: int| 0 <= k < r@.len() ==> (#[trigger] r@[k]) < entries@.len(),
            r@.len() <= i,
        decreases entries@.len() - i,
    {
        let ghost before: Seq<usize> = r@;
        r.push(i);
        proof {
            assert(selected(es, r@) =~= selected(es, before).push(es[i as int]));
            assert(es.subrange(start as int, i + 1) =~= es.subrange(start as int, i as int).push(
                es[i as int],
            ));
            assert(selected(es, r@) =~= head + es.subrange(start as int, i + 1));
        }
        i = i + 1;
    }
    proof {
        assert(es.subrange(start as int, i as int) =~= es.skip(start as int));
        if last is None {
            reveal(Seq::filter);
            assert(es.take(0).filter(sys) =~= Seq::empty());
            assert(head + es.skip(0) =~= es);
        }
    }
    r
}

/// The history that entries stand for. `unread` is the number of lines that
/// could not be read.
pub fn restore_entries(entries: &Vec<ConversationEntry>, unread: usize) -> (r: RestoreOutcome)
    requires
        entries@.len() + unread <= usize::MAX,
    ensures
        ({
            let es = entry::entry_views(entries@);
            &&& message::message_views(r.messages@) == restored(es)
            &&& r.had_compaction == exists|i: int|
                0 <= i < es.len() && (#[trigger] es[i]).is_compaction()
            &&& r.replayed_entry_count == restored_count(es)
            &&& r.replayed_entry_count + r.skipped_entry_count == es.len() + unread
        }),
{
    let ghost es: Seq<entry::EntryView> = entry::entry_views(entries@);
    let last: Option<usize> = find_last_compaction(entries);
    let work: Vec<usize> = working_indices(entries, last);
    let ghost w: Seq<entry::EntryView> = working(es);
    let mut messages: Vec<ChatMessage> = Vec::new();
    let mut count: usize = 0;
    let mut i: usize = 0;
    proof {
        assert(message::message_views(messages@) =~= replay(w, 0));
        assert(work@.len() == selected(es, work@).len());
        lemma_last_compaction(es, es.len() as int);
    }
    while i < work.len()
        invariant
            i <= work@.len(),
            es == entry::entry_views(entries@),
            w == selected(es, work@),
            forall|k: int| 0 <= k < work@.len() ==> (#[trigger] work@[k]) < entries@.len(),
            message::message_views(messages@) == replay(w, i as int),
            count == i - passed_over(w, i as int),
            messages@.len() <= count,
        decreases work@.len() - i,
    {
        proof {
            assert(w[i as int] == entries@[work@[i as int] as int]@);
            lemma_replay_len(w, i as int);
        }
        if replay_entry(&mut messages, &entries[work[i]]) {
            count = count + 1;
        }
        i = i + 1;
        proof {
            lemma_replay_len(w, i as int);
            assert(messages@.len() == message::message_views(messages@).len());
        }
    }
    proof {
        assert(messages@.len() == message::message_views(messages@).len());
    }
    let dropped: usize = drop_orphan_tool_results(&mut messages);
    RestoreOutcome {
        messages,
        had_compaction: last.is_some(),
        replayed_entry_count: count - dropped,
        skipped_entry_count: entries.len() + unread - (count - dropped),
    }
}

proof fn lemma_replay_len(w: Seq<entry::EntryView>, n: int)
    requires
        0 <= n,
    ensures
        replay(w, n).len() + passed_over(w, n) <= n,
    decreases n,
{
    if n > 0 {
        lemma_replay_len(w, n - 1);
    }
}

proof fn lemma_last_compaction(es: Seq<entry::EntryView>, end: int)
    requires
        0 <= end <= es.len(),
    ensures
        match last_compaction(es, end) {
            Some(i) => 0 <= i < end && es[i].is_compaction() && forall|k: int|
                i < k < end ==> !(#[trigger] es[k]).is_compaction(),
            None => forall|k: int| 0 <= k < end ==> !(#[trigger] es[k]).is_compaction(),
        },
    decreases end,
{
    if end > 0 && !es[end - 1].is_compaction() {
        lemma_last_compaction(es, end - 1);
    }
}

/// The line at `i` is UTF-8 and holds white space alone.
pub open spec fn is_blank(c: Seq<u8>, i: int) -> bool {
    let b = c.subrange(i, since::text_end(c, i));
    valid_utf8(b) && text::trimmed(decode_utf8(b)).len() == 0
}

/// The entries of the lines from `i` on.
pub open spec fn log_entries(c: Seq<u8>, i: int) -> Seq<entry::EntryView>
    decreases c.len() - i,
    when i >= 0
    via log_entries_decreases
{
    if i >= c.len() {
        Seq::empty()
    } else {
        let rest = log_entries(c, bytes::next_line(c, i));
        match since::entry_at(c, i) {
            Some(e) => if is_blank(c, i) {
                rest
            } else {
                seq![e] + rest
            },
            None => rest,
        }
    }
}

#[via_fn]
proof fn log_entries_decreases(c: Seq<u8>, i: int) {
    bytes::lemma_line_end(c, i);
}

/// How many of the lines from `i` on are not blank and stand for no entry.
pub open spec fn log_unread(c: Seq<u8>, i: int) -> nat
    decreases c.len() - i,
    when i >= 0
    via log_unread_decreases
{
    if i >= c.len() {
        0
    } else {
        log_unread(c, bytes::next_line(c, i)) + (if !is_blank(c, i) && since::entry_at(c, i) is None {
            1nat
        } else {
            0
        })
    }
}

#[via_fn]
proof fn log_unread_decreases(c: Seq<u8>, i: int) {
    bytes::lemma_line_end(c, i);
}

/// The entries of the lines from `start` on, and how many lines stand for none
/// though they are not blank.
pub fn read_log(c: &Vec<u8>, start: usize) -> (r: (Vec<ConversationEntry>, usize))
    requires
        start <= c@.len(),
    ensures
        entry::entry_views(r.0@) == log_entries(c@, start as int),
        r.1 == log_unread(c@, start as int),
        r.0@.len() + r.1 <= usize::MAX,
{
    let mut entries: Vec<ConversationEntry> = Vec::new();
    let mut unread: usize = 0;
    let mut i: usize = start;
    proof {
        assert(entry::entry_views(entries@) + log_entries(c@, start as int) =~= log_entries(
            c@,
            start as int,
        ));
    }
    while i < c.len()
        invariant
            start <= i <= c@.len(),
            entries@.len() + unread <= i - start,
            log_entries(c@, start as int) == entry::entry_views(entries@) + log_entries(
                c@,
                i as int,
            ),
            log_unread(c@, start as int) == unread + log_unread(c@, i as int),
        decreases c@.len() - i,
    {
        proof {
            bytes::lemma_line_end(c@, i as int);
        }
        let e: usize = bytes::find_line_end(c, i);
        let next: usize = if e < c.len() {
            e + 1
        } else {
            e
        };
        let end: usize = if i < e && e < c.len() && c[e - 1] == since::RETURN {
            e - 1
        } else {
            e
        };
        let ghost rest: Seq<entry::EntryView> = log_entries(c@, next as int);
        let ghost before: Seq<ConversationEntry> = entries@;
        match bytes::text_exact(bytes::part(c, i, end)) {
            Some(line) => {
                let bare: String = text::trim(line.as_str());
                if !bare.as_str().is_empty() {
                    match entry::read_entry(line.as_str()) {
                        Some(entry) => {
                            let ghost v: entry::EntryView = entry@;
                            entries.push(entry);
                            proof {
                                assert(entry::entry_views(entries@) =~= entry::entry_views(
                                    before,
                                ).push(v));
                                assert(entry::entry_views(before) + (seq![v] + rest)
                                    =~= entry::entry_views(entries@) + rest);
                            }
                        },
                        None => {
                            unread = unread + 1;
                        },
                    }
                } else {
                    proof {
                        assert(bare@.len() == 0);
                    }
                }
            },
            None => {
                unread = unread + 1;
            },
        }
        i = next;
    }
    proof {
        assert(entry::entry_views(entries@) + Seq::<entry::EntryView>::empty()
            =~= entry::entry_views(entries@));
    }
    (entries, unread)
}

/// The history that the conversation file with the contents `c` stands for.
pub fn restore_history_from_jsonl(c: &Vec<u8>) -> (r: Result<RestoreOutcome, RestoreError>)
    ensures
        match pages::data_start(c@) {
            None => r matches Err(RestoreError::Io(e)) && e@ == NOT_UTF8@,
            Some(start) => r matches Ok(o) && ({
                let es = log_entries(c@, start);
                &&& message::message_views(o.messages@) == restored(es)
                &&& o.had_compaction == exists|i: int|
                    0 <= i < es.len() && (#[trigger] es[i]).is_compaction()
                &&& o.replayed_entry_count == restored_count(es)
                &&& o.replayed_entry_count + o.skipped_entry_count == es.len() + log_unread(
                    c@,
                    start,
                )
            }),
        },
{
    match pages::metadata_end_offset(c) {
        Some(start) => {
            let (entries, unread): (Vec<ConversationEntry>, usize) = read_log(c, start);
            Ok(restore_entries(&entries, unread))
        },
        None => Err(RestoreError::Io(NOT_UTF8.to_string())),
    }
}

/// In a restored history each tool result follows the assistant message that
/// asks for it.
pub proof fn restored_results_follow_their_calls(es: Seq<entry::EntryView>, i: int)
    requires
        0 <= i < restored(es).len(),
    ensures
        follows_call(restored(es), i),
{
    let ms = replay(working(es), working(es).len() as int);
    lemma_paired(ms, ms.len() as int, i);
}

proof fn lemma_paired(ms: Seq<message::MessageView>, n: int, i: int)
    requires
        0 <= n <= ms.len(),
        0 <= i < paired(ms, n).len(),
    ensures
        follows_call(paired(ms, n), i),
    decreases n,
{
    let rest = paired(ms, n - 1);
    let all = paired(ms, n);
    if i < rest.len() {
        lemma_paired(ms, n - 1, i);
        assert(all[i] == rest[i]);
        if let Some(id) = all[i].tool_call_id {
            if all[i].role == MessageRole::Tool {
                let k = choose|k: int|
                    0 <= k < i && (#[trigger] rest[k]).role == MessageRole::Assistant
                        && sanitize::asks(rest[k], id);
                assert(all[k] == rest[k]);
            }
        }
    } else if all[i].role == MessageRole::Tool {
        let id = all[i].tool_call_id->0;
        let k = choose|k: int|
            0 <= k < n - 1 && (#[trigger] ms[k]).role == MessageRole::Assistant && sanitize::asks(
                ms[k],
                id,
            );
        let p = lemma_paired_keeps(ms, n - 1, k);
        assert(all[p] == ms[k]);
    }
}

/// Where a message that is no tool result stands among those that are kept.
pub(crate) proof fn lemma_paired_keeps(ms: Seq<message::MessageView>, n: int, k: int) -> (p: int)
    requires
        0 <= k < n <= ms.len(),
        ms[k].role != MessageRole::Tool,
    ensures
        0 <= p < paired(ms, n).len(),
        paired(ms, n)[p] == ms[k],
    decreases n,
{
    if k == n - 1 {
        paired(ms, n).len() - 1
    } else {
        lemma_paired_keeps(ms, n - 1, k)
    }
}

/// What stands before the last mark of a compaction, but for its system
/// messages, does not matter for the restored history.
pub proof fn compacted_entries_do_not_matter(
    a: Seq<entry::EntryView>,
    b: Seq<entry::EntryView>,
    mark: entry::EntryView,
    tail: Seq<entry::EntryView>,
)
    requires
        mark.is_compaction(),
        forall|i: int| 0 <= i < tail.len() ==> !(#[trigger] tail[i]).is_compaction(),
        a.filter(|e: entry::EntryView| is_system_message(e)) == b.filter(
            |e: entry::EntryView| is_system_message(e),
        ),
    ensures
        restored(a.push(mark) + tail) == restored(b.push(mark) + tail),
        working(a.push(mark) + tail) == a.filter(|e: entry::EntryView| is_system_message(e)).push(
            mark,
        ) + tail,
{
    lemma_working(a, mark, tail);
    lemma_working(b, mark, tail);
}

proof fn lemma_working(
    a: Seq<entry::EntryView>,
    mark: entry::EntryView,
    tail: Seq<entry::EntryView>,
)
    requires
        mark.is_compaction(),
        forall|i: int| 0 <= i < tail.len() ==> !(#[trigger] tail[i]).is_compaction(),
    ensures
        working(a.push(mark) + tail) == a.filter(|e: entry::EntryView| is_system_message(e)).push(
            mark,
        ) + tail,
{
    let es = a.push(mark) + tail;
    lemma_last_compaction(es, es.len() as int);
    let n = a.len() as int;
    assert(es[n] == mark);
    match last_compaction(es, es.len() as int) {
        Some(i) => {
            if i > n {
                assert(es[i] == tail[i - n - 1]);
            }
            assert(i == n);
        },
        None => {},
    }
    assert(es.take(n) =~= a);
    assert(working(es) =~= a.filter(|e: entry::EntryView| is_system_message(e)).push(mark) + tail);
}

/// A thought never becomes a message.
pub proof fn thoughts_are_left_out(ms: Seq<message::MessageView>, e: entry::EntryView)
    requires
        e.role == "thought"@,
        !e.is_compaction(),
    ensures
        replayed(ms, e) is None,
{
    reveal_strlit("thought");
    reveal_strlit("system");
    reveal_strlit("user");
    reveal_strlit("assistant");
    reveal_strlit("tool_call");
    reveal_strlit("tool_result");
    assert("thought"@.len() == 7);
    assert("system"@.len() == 6);
    assert("user"@.len() == 4);
    assert("assistant"@.len() == 9);
    assert("tool_call"@.len() == 9);
    assert("tool_result"@.len() == 11);
}

pub(crate) proof fn lemma_end_is(c: Seq<u8>, i: int, e: int)
    requires
        0 <= i <= e < c.len(),
        c[e] == bytes::NEWLINE,
        forall|k: int| i <= k < e ==> c[k] != bytes::NEWLINE,
    ensures
        bytes::line_end(c, i) == e,
    decreases e - i,
{
    if i < e {
        lemma_end_is(c, i + 1, e);
    }
}

pub(crate) proof fn lemma_last_newline(c: Seq<u8>, i: int)
    requires
        0 <= i < c.len(),
        c.last() == bytes::NEWLINE,
    ensures
        bytes::line_end(c, i) < c.len(),
    decreases c.len() - i,
{
    if c[i] != bytes::NEWLINE {
        lemma_last_newline(c, i + 1);
    }
}

/// An entry that is appended to a log that ends where a line ends is replayed
/// behind those that the log holds.
pub proof fn appended_entry_is_replayed(c: Seq<u8>, i: int, line: Seq<char>, e: entry::EntryView)
    requires
        0 <= i <= c.len(),
        i < c.len() ==> c.last() == bytes::NEWLINE,
        json::is_line(line),
        entry::entry_of_text(line) == Some(e),
    ensures
        log_entries(c + encode_utf8(line.push('\n')), i) == log_entries(c, i).push(e),
    decreases c.len() - i,
{
    let b = encode_utf8(line);
    let full = line.push('\n');
    text::lemma_encode_last(full);
    assert(full.drop_last() =~= line);
    assert(encode_utf8(full) == b.push(10u8));
    text::lemma_encode_no_newline(line);
    text::lemma_encode_last(line);
    let d = c + encode_utf8(full);
    let n = c.len() as int;
    let end = d.len() as int;
    if i == n {
        assert(d[end - 1] == 10u8);
        assert forall|k: int| n <= k < end - 1 implies d[k] != bytes::NEWLINE by {
            assert(d[k] == b[k - n]);
        }
        lemma_end_is(d, n, end - 1);
        lemma_no_return(line);
        assert(d[end - 2] == b.last());
        assert(since::text_end(d, n) == end - 1);
        assert(d.subrange(n, end - 1) =~= b);
        encode_utf8_valid_utf8(line);
        encode_utf8_decode_utf8(line);
        assert(text::trimmed(line) == line);
        assert(log_entries(d, end) =~= Seq::empty());
        assert(log_entries(d, n) =~= seq![e]);
        assert(log_entries(c, n) =~= Seq::empty());
        assert(Seq::<entry::EntryView>::empty().push(e) =~= seq![e]);
    } else {
        lemma_last_newline(c, i);
        bytes::lemma_line_end(c, i);
        let x = bytes::line_end(c, i);
        assert forall|k: int| i <= k < x implies d[k] != bytes::NEWLINE by {
            assert(d[k] == c[k]);
        }
        assert(d[x] == c[x]);
        lemma_end_is(d, i, x);
        let next = x + 1;
        assert(since::text_end(d, i) == since::text_end(c, i)) by {
            if i < x {
                assert(d[x - 1] == c[x - 1]);
            }
        }
        assert(d.subrange(i, since::text_end(d, i)) =~= c.subrange(i, since::text_end(c, i)));
        appended_entry_is_replayed(c, next, line, e);
        let rest = log_entries(c, next);
        if let Some(h) = since::entry_at(c, i) {
            assert(seq![h] + rest.push(e) =~= (seq![h] + rest).push(e));
        }
    }
}

pub(crate) proof fn lemma_no_return(line: Seq<char>)
    requires
        json::is_line(line),
    ensures
        encode_utf8(line).len() > 0,
        encode_utf8(line).last() != since::RETURN,
{
    text::lemma_encode_last(line);
    text::lemma_char_range(line.last());
    assert(text::white_space('\r'));
    if line.last() as u32 <= 0x7f {
        assert(encode_utf8(line).last() == line.last() as u8);
        if line.last() as u8 == 13u8 {
            assert(line.last() == '\r');
        }
    }
}

} // verus!
