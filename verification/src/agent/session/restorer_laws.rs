//! A restored history says what its log says.

use crate::agent::sanitize;
use crate::agent::session::restorer;
use crate::conversation::entry;
use crate::json;
use crate::message::MessageRole;
use crate::message;
use vstd::prelude::*;

verus! {

/// Something that was said in a conversation.
pub enum Said {
    /// Somebody spoke.
    Words(MessageRole, Seq<char>),
    /// What stands for a compacted part.
    Summary(Seq<char>),
    /// A tool was called: the id, the name of the tool and its arguments.
    Call(Seq<char>, Seq<char>, Seq<char>),
    /// A tool answered: the id of the call, the name of the tool and the answer.
    Answer(Seq<char>, Option<Seq<char>>, Seq<char>),
}

/// The text of a member of an entry's metadata.
pub open spec fn noted(e: entry::EntryView, key: Seq<char>) -> Option<Seq<char>> {
    match e.metadata {
        Some(m) => match m.get(key) {
            Some(json::JsonView::Text(s)) => Some(s),
            _ => None,
        },
        None => None,
    }
}

/// The text of a member of an entry's metadata is there, and is not empty.
pub open spec fn is_noted(e: entry::EntryView, key: Seq<char>) -> bool {
    noted(e, key) is Some && noted(e, key)->0.len() > 0
}

/// What an entry of a log says. An entry of the assistant without words says nothing.
pub open spec fn entry_says(e: entry::EntryView) -> Seq<Said> {
    if e.kind == Some("compaction"@) {
        seq![Said::Summary(e.content)]
    } else if e.role == "system"@ {
        seq![Said::Words(MessageRole::System, e.content)]
    } else if e.role == "user"@ {
        seq![Said::Words(MessageRole::User, e.content)]
    } else if e.role == "assistant"@ && e.content.len() > 0 {
        seq![Said::Words(MessageRole::Assistant, e.content)]
    } else if e.role == "tool_call"@ && is_noted(e, "tool_call_id"@) && is_noted(e, "tool_name"@) {
        seq![
            Said::Call(noted(e, "tool_call_id"@)->0, noted(e, "tool_name"@)->0, e.content),
        ]
    } else if e.role == "tool_result"@ && is_noted(e, "tool_call_id"@) {
        seq![Said::Answer(noted(e, "tool_call_id"@)->0, noted(e, "tool_name"@), e.content)]
    } else {
        Seq::empty()
    }
}

/// What a log says.
pub open spec fn log_says(es: Seq<entry::EntryView>) -> Seq<Said>
    decreases es.len(),
{
    if es.len() == 0 {
        Seq::empty()
    } else {
        log_says(es.drop_last()) + entry_says(es.last())
    }
}

/// The calls of a message.
pub open spec fn message_calls(m: message::MessageView) -> Seq<Said> {
    match m.tool_calls {
        Some(cs) => cs.map_values(|c: message::ToolCallView| Said::Call(c.id, c.name, c.arguments)),
        None => Seq::empty(),
    }
}

/// What a message says: its words, then its calls.
pub open spec fn message_says(m: message::MessageView) -> Seq<Said> {
    match m.role {
        MessageRole::Tool => seq![Said::Answer(m.tool_call_id->0, m.name, m.content)],
        MessageRole::Assistant => (if m.name == Some("compaction_summary"@) {
            seq![Said::Summary(m.content)]
        } else if m.content.len() > 0 {
            seq![Said::Words(m.role, m.content)]
        } else {
            Seq::empty()
        }) + message_calls(m),
        _ => seq![Said::Words(m.role, m.content)],
    }
}

/// What a history says.
pub open spec fn history_says(ms: Seq<message::MessageView>) -> Seq<Said>
    decreases ms.len(),
{
    if ms.len() == 0 {
        Seq::empty()
    } else {
        history_says(ms.drop_last()) + message_says(ms.last())
    }
}

/// The tool call `id` is made in `s`.
pub open spec fn is_called(s: Seq<Said>, id: Seq<char>) -> bool {
    exists|i: int| 0 <= i < s.len() && (#[trigger] s[i]) is Call && s[i]->Call_0 == id
}

/// `s` without the answers whose call is not made before them.
pub open spec fn without_orphans(s: Seq<Said>) -> Seq<Said>
    decreases s.len(),
{
    if s.len() == 0 {
        Seq::empty()
    } else {
        let rest = without_orphans(s.drop_last());
        if s.last() is Answer && !is_called(s.drop_last(), s.last()->Answer_0) {
            rest
        } else {
            rest.push(s.last())
        }
    }
}

/// Restoring keeps what was said: the restored history says, in the same order, what the
/// replayed entries say, each message with the content of its entry, each call with
/// its id, its tool and its arguments, each answer with the id of its call. Only the
/// answers are left out whose call is not made before them.
pub proof fn restoring_keeps_what_was_said(es: Seq<entry::EntryView>)
    ensures
        history_says(restorer::restored(es)) == without_orphans(log_says(restorer::working(es))),
{
    let w = restorer::working(es);
    let n = w.len() as int;
    let ms = restorer::replay(w, n);
    lemma_replay(w, n);
    assert(w.take(n) =~= w);
    lemma_paired(ms, ms.len() as int);
    assert(ms.take(ms.len() as int) =~= ms);
}

/// All entries of a log without the mark of a compaction are replayed.
pub proof fn whole_log_is_replayed(es: Seq<entry::EntryView>)
    requires
        forall|i: int| 0 <= i < es.len() ==> (#[trigger] es[i]).kind != Some("compaction"@),
    ensures
        restorer::working(es) == es,
{
    lemma_no_compaction(es, es.len() as int);
}

proof fn lemma_no_compaction(es: Seq<entry::EntryView>, end: int)
    requires
        0 <= end <= es.len(),
        forall|i: int| 0 <= i < es.len() ==> (#[trigger] es[i]).kind != Some("compaction"@),
    ensures
        restorer::last_compaction(es, end) is None,
    decreases end,
{
    if end > 0 {
        lemma_no_compaction(es, end - 1);
    }
}

/// Of a log with the mark of a compaction, the entries from the last mark on are
/// replayed, behind the system messages before it.
pub proof fn compacted_log_is_replayed(
    a: Seq<entry::EntryView>,
    mark: entry::EntryView,
    tail: Seq<entry::EntryView>,
)
    requires
        mark.kind == Some("compaction"@),
        forall|i: int| 0 <= i < tail.len() ==> (#[trigger] tail[i]).kind != Some("compaction"@),
    ensures
        restorer::working(a.push(mark) + tail) == a.filter(
            |e: entry::EntryView|
                e.role == "system"@ && (e.kind is None || e.kind == Some("message"@)),
        ).push(mark) + tail,
{
    restorer::compacted_entries_do_not_matter(a, a, mark, tail);
    let p = |e: entry::EntryView| restorer::is_system_message(e);
    let q = |e: entry::EntryView|
        e.role == "system"@ && (e.kind is None || e.kind == Some("message"@));
    assert(p =~= q);
}

/// The roles of entries are told apart.
proof fn lemma_roles()
    ensures
        "system"@ != "user"@,
        "system"@ != "assistant"@,
        "system"@ != "tool_call"@,
        "system"@ != "tool_result"@,
        "user"@ != "assistant"@,
        "user"@ != "tool_call"@,
        "user"@ != "tool_result"@,
        "assistant"@ != "tool_call"@,
        "assistant"@ != "tool_result"@,
        "tool_call"@ != "tool_result"@,
{
    reveal_strlit("system");
    reveal_strlit("user");
    reveal_strlit("assistant");
    reveal_strlit("tool_call");
    reveal_strlit("tool_result");
    assert("system"@.len() == 6);
    assert("user"@.len() == 4);
    assert("assistant"@.len() == 9);
    assert("tool_call"@.len() == 9);
    assert("tool_result"@.len() == 11);
    assert("assistant"@[0] != "tool_call"@[0]);
}

/// An entry adds what it stands for behind the messages, and changes none of those
/// before it but the last: a tool call joins the assistant message that stands last.
pub proof fn entry_adds_what_it_says(ms: Seq<message::MessageView>, e: entry::EntryView)
    requires
        e.kind != Some("compaction"@),
    ensures
        match restorer::replayed(ms, e) {
            Some(r) => {
                &&& e.role != "tool_call"@ ==> {
                    &&& r.len() == ms.len() + 1
                    &&& r.drop_last() == ms
                    &&& r.last().content == e.content
                    &&& r.last().tool_calls is None
                    &&& r.last().content_parts is None
                    &&& r.last().reasoning_content is None
                    &&& e.role != "tool_result"@ ==> r.last().tool_call_id is None
                        && r.last().name is None
                    &&& e.role == "system"@ ==> r.last().role == MessageRole::System
                    &&& e.role == "user"@ ==> r.last().role == MessageRole::User
                    &&& e.role == "assistant"@ ==> r.last().role == MessageRole::Assistant
                        && r.last().name is None
                    &&& e.role == "tool_result"@ ==> r.last().role == MessageRole::Tool
                        && r.last().tool_call_id == noted(e, "tool_call_id"@) && r.last().name
                        == noted(e, "tool_name"@)
                }
                &&& e.role == "tool_call"@ ==> {
                    &&& r.last().role == MessageRole::Assistant
                    &&& r.last().tool_calls matches Some(cs) && cs.len() > 0 && Some(cs.last().id)
                        == noted(e, "tool_call_id"@) && Some(cs.last().name) == noted(
                        e,
                        "tool_name"@,
                    ) && cs.last().arguments == e.content && cs.last().call_type == "function"@
                    &&& if ms.len() > 0 && ms.last().role == MessageRole::Assistant {
                        &&& r.drop_last() == ms.drop_last()
                        &&& r.last() == (message::MessageView {
                            tool_calls: r.last().tool_calls,
                            ..ms.last()
                        })
                        &&& r.last().tool_calls->0.drop_last() == (match ms.last().tool_calls {
                            Some(cs) => cs,
                            None => Seq::empty(),
                        })
                    } else {
                        &&& r.drop_last() == ms
                        &&& r.last().content.len() == 0
                        &&& r.last().tool_calls->0.len() == 1
                    }
                }
            },
            None => {
                ||| e.role == "tool_call"@ && !(is_noted(e, "tool_call_id"@) && is_noted(
                    e,
                    "tool_name"@,
                ))
                ||| e.role == "tool_result"@ && !is_noted(e, "tool_call_id"@)
                ||| e.role != "system"@ && e.role != "user"@ && e.role != "assistant"@ && e.role
                    != "tool_call"@ && e.role != "tool_result"@
            },
        },
        e.role == "tool_call"@ && restorer::replayed(ms, e) is Some ==> is_noted(
            e,
            "tool_call_id"@,
        ) && is_noted(e, "tool_name"@),
        e.role == "tool_result"@ && restorer::replayed(ms, e) is Some ==> is_noted(
            e,
            "tool_call_id"@,
        ),
{
    lemma_roles();
    if let Some(r) = restorer::replayed(ms, e) {
        if e.role == "tool_call"@ {
            if ms.len() > 0 && ms.last().role == MessageRole::Assistant {
                assert(r.drop_last() =~= ms.drop_last());
                assert(r.last().tool_calls->0.drop_last() =~= match ms.last().tool_calls {
                    Some(cs) => cs,
                    None => Seq::empty(),
                });
            } else {
                assert(r.drop_last() =~= ms);
            }
        } else {
            assert(r.drop_last() =~= ms);
        }
    }
}

/// How many entries go into no message.
pub open spec fn silent_entries(es: Seq<entry::EntryView>) -> nat {
    es.filter(
        |e: entry::EntryView|
            e.kind != Some("compaction"@) && e.role != "assistant"@ && entry_says(e).len() == 0,
    ).len()
}

/// How many answers are given in `s`.
pub open spec fn answers(s: Seq<Said>) -> nat {
    s.filter(|x: Said| x is Answer).len()
}

proof fn lemma_words(ms: Seq<message::MessageView>, m: message::MessageView)
    ensures
        history_says(ms.push(m)) == history_says(ms) + message_says(m),
{
    assert(ms.push(m).drop_last() =~= ms);
}

/// The messages of a replayed log: only an assistant calls tools, and an answer has the
/// id of its call.
spec fn is_sound(ms: Seq<message::MessageView>) -> bool {
    forall|i: int|
        0 <= i < ms.len() ==> ((#[trigger] ms[i]).role != MessageRole::Assistant
            ==> ms[i].tool_calls is None) && (ms[i].role == MessageRole::Tool
            ==> ms[i].tool_call_id is Some)
}

proof fn lemma_replay(w: Seq<entry::EntryView>, n: int)
    requires
        0 <= n <= w.len(),
    ensures
        history_says(restorer::replay(w, n)) == log_says(w.take(n)),
        is_sound(restorer::replay(w, n)),
        restorer::passed_over(w, n) == silent_entries(w.take(n)),
    decreases n,
{
    reveal(Seq::filter);
    if n > 0 {
        lemma_replay(w, n - 1);
        let ms = restorer::replay(w, n - 1);
        let e = w[n - 1];
        let part = w.take(n);
        assert(part.drop_last() =~= w.take(n - 1));
        assert(part.last() == e);
        lemma_roles();
        lemma_step(ms, e);
    }
}

proof fn lemma_step(ms: Seq<message::MessageView>, e: entry::EntryView)
    requires
        is_sound(ms),
    ensures
        match restorer::replayed(ms, e) {
            Some(r) => history_says(r) == history_says(ms) + entry_says(e) && is_sound(r) && (
            entry_says(e).len() > 0 || e.role == "assistant"@),
            None => history_says(ms) == history_says(ms) + entry_says(e) && entry_says(e).len() == 0
                && e.role != "assistant"@ && e.kind != Some("compaction"@),
        },
{
    lemma_roles();
    match restorer::replayed(ms, e) {
        None => {
            assert(history_says(ms) =~= history_says(ms) + entry_says(e));
        },
        Some(r) => {
            if e.kind != Some("compaction"@) && e.role == "tool_call"@ {
                let call = restorer::entry_call(e);
                let said = Said::Call(call.id, call.name, call.arguments);
                assert(entry_says(e) =~= seq![said]);
                if ms.len() > 0 && ms.last().role == MessageRole::Assistant {
                    let old_last = ms.last();
                    let new_last = r.last();
                    assert(r.drop_last() =~= ms.drop_last());
                    assert(message_calls(new_last) =~= message_calls(old_last).push(said));
                    assert(message_says(new_last) =~= message_says(old_last).push(said));
                    assert(history_says(r) =~= history_says(ms) + entry_says(e));
                } else {
                    let m = r.last();
                    assert(r =~= ms.push(m));
                    lemma_words(ms, m);
                    assert(message_calls(m) =~= seq![said]);
                    assert(message_says(m) =~= seq![said]);
                }
            } else {
                let m = r.last();
                assert(r =~= ms.push(m));
                lemma_words(ms, m);
                assert(message_calls(m) =~= Seq::empty());
                assert(message_says(m) =~= entry_says(e));
            }
            assert forall|i: int| 0 <= i < r.len() implies ((#[trigger] r[i]).role
                != MessageRole::Assistant ==> r[i].tool_calls is None) && (r[i].role
                == MessageRole::Tool ==> r[i].tool_call_id is Some) by {
                if i < ms.len() {
                    assert(ms[i].role != MessageRole::Assistant ==> ms[i].tool_calls is None);
                }
            }
        },
    }
}

proof fn lemma_kept(a: Seq<Said>, b: Seq<Said>)
    requires
        forall|i: int| 0 <= i < b.len() ==> !((#[trigger] b[i]) is Answer),
    ensures
        without_orphans(a + b) == without_orphans(a) + b,
    decreases b.len(),
{
    if b.len() == 0 {
        assert(a + b =~= a);
        assert(without_orphans(a) + b =~= without_orphans(a));
    } else {
        assert((a + b).drop_last() =~= a + b.drop_last());
        assert((a + b).last() == b.last());
        lemma_kept(a, b.drop_last());
        assert(without_orphans(a + b) =~= without_orphans(a) + b);
    }
}

proof fn lemma_called(ms: Seq<message::MessageView>, n: int, id: Seq<char>)
    requires
        0 <= n <= ms.len(),
        is_sound(ms),
    ensures
        is_called(history_says(ms.take(n)), id) == restorer::requested(ms, n, id),
    decreases n,
{
    let all = history_says(ms.take(n));
    if n > 0 {
        lemma_called(ms, n - 1, id);
        let m = ms[n - 1];
        assert(ms.take(n).drop_last() =~= ms.take(n - 1));
        assert(ms.take(n).last() == m);
        let before = history_says(ms.take(n - 1));
        let more = message_says(m);
        assert(all == before + more);
        if is_called(all, id) {
            let i = choose|i: int| 0 <= i < all.len() && (#[trigger] all[i]) is Call && all[i]->Call_0
                == id;
            if i < before.len() {
                assert(before[i] == all[i]);
                assert(is_called(before, id));
                let j = choose|j: int|
                    0 <= j < n - 1 && (#[trigger] ms[j]).role == MessageRole::Assistant
                        && sanitize::asks(ms[j], id);
                assert(ms[j].role == MessageRole::Assistant);
            } else {
                let k = i - before.len();
                assert(more[k] == all[i]);
                let calls = message_calls(m);
                let at = k - (more.len() - calls.len());
                assert(0 <= at < calls.len() && calls[at] == more[k]);
                assert(m.tool_calls->0[at].id == id);
                assert(ms[n - 1].role == MessageRole::Assistant);
                assert(sanitize::asks(ms[n - 1], id));
            }
            assert(restorer::requested(ms, n, id));
        }
        if restorer::requested(ms, n, id) {
            let j = choose|j: int|
                0 <= j < n && (#[trigger] ms[j]).role == MessageRole::Assistant && sanitize::asks(
                    ms[j],
                    id,
                );
            if j < n - 1 {
                assert(ms[j].role == MessageRole::Assistant);
                assert(restorer::requested(ms, n - 1, id));
                let i = choose|i: int|
                    0 <= i < before.len() && (#[trigger] before[i]) is Call && before[i]->Call_0
                        == id;
                assert(all[i] == before[i]);
            } else {
                let at = choose|k: int|
                    0 <= k < m.tool_calls->0.len() && (#[trigger] m.tool_calls->0[k]).id == id;
                let calls = message_calls(m);
                let k = at + (more.len() - calls.len());
                assert(more[k] == calls[at]);
                assert(all[before.len() + k] == more[k]);
            }
            assert(is_called(all, id));
        }
    } else {
        assert(ms.take(0) =~= Seq::empty());
        assert(all.len() == 0);
    }
}

proof fn lemma_paired(ms: Seq<message::MessageView>, n: int)
    requires
        0 <= n <= ms.len(),
        is_sound(ms),
    ensures
        history_says(restorer::paired(ms, n)) == without_orphans(history_says(ms.take(n))),
    decreases n,
{
    if n > 0 {
        lemma_paired(ms, n - 1);
        let m = ms[n - 1];
        assert(ms.take(n).drop_last() =~= ms.take(n - 1));
        assert(ms.take(n).last() == m);
        let before = history_says(ms.take(n - 1));
        let more = message_says(m);
        let kept = restorer::paired(ms, n - 1);
        lemma_words(kept, m);
        if m.role == MessageRole::Tool {
            let id = m.tool_call_id->0;
            lemma_called(ms, n - 1, id);
            assert((before + more).drop_last() =~= before);
            assert((before + more).last() == more[0]);
            assert(without_orphans(before) + more =~= without_orphans(before).push(more[0]));
        } else {
            assert forall|i: int| 0 <= i < more.len() implies !((#[trigger] more[i]) is Answer) by {
            }
            lemma_kept(before, more);
        }
    } else {
        assert(ms.take(0) =~= Seq::empty());
        assert(history_says(ms.take(0)) =~= Seq::empty());
        assert(without_orphans(history_says(ms.take(0))) =~= Seq::empty());
        assert(history_says(restorer::paired(ms, n)) =~= Seq::empty());
    }
}

/// Every replayed entry that says something goes into the messages, but for the answers
/// without a call: all others are counted as passed over.
pub proof fn entries_are_counted(es: Seq<entry::EntryView>)
    ensures
        restorer::restored_count(es) == restorer::working(es).len() - silent_entries(
            restorer::working(es),
        ) - (answers(log_says(restorer::working(es))) - answers(
            without_orphans(log_says(restorer::working(es))),
        )),
{
    let w = restorer::working(es);
    let n = w.len() as int;
    lemma_replay(w, n);
    assert(w.take(n) =~= w);
    let ms = restorer::replay(w, n);
    lemma_paired(ms, ms.len() as int);
    assert(ms.take(ms.len() as int) =~= ms);
    lemma_answers(ms, ms.len() as int);
}

proof fn lemma_answers_joined(a: Seq<Said>, b: Seq<Said>)
    ensures
        answers(a + b) == answers(a) + answers(b),
    decreases b.len(),
{
    reveal(Seq::filter);
    if b.len() == 0 {
        assert(a + b =~= a);
    } else {
        assert((a + b).drop_last() =~= a + b.drop_last());
        lemma_answers_joined(a, b.drop_last());
    }
}

proof fn lemma_answers(ms: Seq<message::MessageView>, n: int)
    requires
        0 <= n <= ms.len(),
    ensures
        n - restorer::paired(ms, n).len() == answers(history_says(ms.take(n))) - answers(
            history_says(restorer::paired(ms, n)),
        ),
    decreases n,
{
    reveal(Seq::filter);
    if n > 0 {
        lemma_answers(ms, n - 1);
        let m = ms[n - 1];
        assert(ms.take(n).drop_last() =~= ms.take(n - 1));
        assert(ms.take(n).last() == m);
        let before = history_says(ms.take(n - 1));
        let more = message_says(m);
        let kept = restorer::paired(ms, n - 1);
        lemma_words(kept, m);
        lemma_answers_joined(before, more);
        lemma_answers_joined(history_says(kept), more);
        if m.role == MessageRole::Tool {
            assert(more.drop_last() =~= Seq::empty());
            assert(answers(more.drop_last()) == 0);
            assert(answers(more) == 1);
        }
    } else {
        assert(ms.take(0) =~= Seq::empty());
        assert(restorer::paired(ms, n) =~= ms.take(0));
    }
}

/// The mark of a compaction becomes the summary that it holds, which the assistant gives.
pub proof fn mark_becomes_the_summary(ms: Seq<message::MessageView>, e: entry::EntryView)
    requires
        e.kind == Some("compaction"@),
    ensures
        restorer::replayed(ms, e) matches Some(r) && {
            &&& r.len() == ms.len() + 1
            &&& r.drop_last() == ms
            &&& r.last().role == MessageRole::Assistant
            &&& r.last().name == Some("compaction_summary"@)
            &&& r.last().content == e.content
            &&& r.last().tool_calls is None
        },
{
    let r = restorer::replayed(ms, e)->0;
    assert(r.drop_last() =~= ms);
}

/// A tool call of the log is restored with its id, its tool and the arguments that it was
/// made with.
pub proof fn calls_keep_their_arguments(es: Seq<entry::EntryView>, k: int) -> (r: (int, int))
    requires
        0 <= k < restorer::working(es).len(),
        restorer::working(es)[k].role == "tool_call"@,
        restorer::working(es)[k].kind != Some("compaction"@),
        restorer::working(es)[k].metadata is Some,
        restorer::working(es)[k].metadata->0.get("tool_call_id"@) matches Some(
            json::JsonView::Text(id),
        ) && id.len() > 0,
        restorer::working(es)[k].metadata->0.get("tool_name"@) matches Some(
            json::JsonView::Text(name),
        ) && name.len() > 0,
    ensures
        ({
            let e = restorer::working(es)[k];
            let (p, c) = r;
            &&& 0 <= p < restorer::restored(es).len()
            &&& restorer::restored(es)[p].role == MessageRole::Assistant
            &&& restorer::restored(es)[p].tool_calls matches Some(calls) && 0 <= c < calls.len() && {
                &&& calls[c].arguments == e.content
                &&& Some(json::JsonView::Text(calls[c].id)) == e.metadata->0.get("tool_call_id"@)
                &&& Some(json::JsonView::Text(calls[c].name)) == e.metadata->0.get("tool_name"@)
                &&& calls[c].call_type == "function"@
            }
        }),
{
    let w = restorer::working(es);
    let n = w.len() as int;
    let ms = restorer::replay(w, n);
    let (p, c) = lemma_call_is_kept(w, n, k);
    let q = restorer::lemma_paired_keeps(ms, ms.len() as int, p);
    (q, c)
}

proof fn lemma_call_is_kept(w: Seq<entry::EntryView>, n: int, k: int) -> (r: (int, int))
    requires
        0 <= k < n <= w.len(),
        w[k].role == "tool_call"@,
        w[k].kind != Some("compaction"@),
        is_noted(w[k], "tool_call_id"@),
        is_noted(w[k], "tool_name"@),
    ensures
        ({
            let ms = restorer::replay(w, n);
            let (p, c) = r;
            &&& 0 <= p < ms.len()
            &&& ms[p].role == MessageRole::Assistant
            &&& ms[p].tool_calls matches Some(calls) && 0 <= c < calls.len() && calls[c].arguments
                == w[k].content && Some(calls[c].id) == noted(w[k], "tool_call_id"@) && Some(
                calls[c].name,
            ) == noted(w[k], "tool_name"@) && calls[c].call_type == "function"@
        }),
    decreases n,
{
    lemma_roles();
    let before = restorer::replay(w, n - 1);
    let after = restorer::replay(w, n);
    if k == n - 1 {
        let p = after.len() - 1;
        let c = after[p].tool_calls->0.len() - 1;
        (p, c)
    } else {
        let (p, c) = lemma_call_is_kept(w, n - 1, k);
        assert(after[p].tool_calls->0[c] == before[p].tool_calls->0[c]);
        (p, c)
    }
}

/// What a user, the assistant or the system says in the log is restored, with who said it
/// and in the same words.
pub proof fn words_are_restored(es: Seq<entry::EntryView>, k: int) -> (p: int)
    requires
        0 <= k < restorer::working(es).len(),
        restorer::working(es)[k].kind != Some("compaction"@),
        restorer::working(es)[k].role == "user"@ || restorer::working(es)[k].role == "assistant"@
            || restorer::working(es)[k].role == "system"@,
    ensures
        0 <= p < restorer::restored(es).len(),
        restorer::restored(es)[p].content == restorer::working(es)[k].content,
        restorer::working(es)[k].role == "user"@ ==> restorer::restored(es)[p].role
            == MessageRole::User,
        restorer::working(es)[k].role == "assistant"@ ==> restorer::restored(es)[p].role
            == MessageRole::Assistant,
        restorer::working(es)[k].role == "system"@ ==> restorer::restored(es)[p].role
            == MessageRole::System,
{
    lemma_roles();
    let w = restorer::working(es);
    let n = w.len() as int;
    let ms = restorer::replay(w, n);
    let p = lemma_words_are_kept(w, n, k);
    restorer::lemma_paired_keeps(ms, ms.len() as int, p)
}

proof fn lemma_words_are_kept(w: Seq<entry::EntryView>, n: int, k: int) -> (p: int)
    requires
        0 <= k < n <= w.len(),
        w[k].kind != Some("compaction"@),
        w[k].role == "user"@ || w[k].role == "assistant"@ || w[k].role == "system"@,
    ensures
        0 <= p < restorer::replay(w, n).len(),
        restorer::replay(w, n)[p].content == w[k].content,
        restorer::replay(w, n)[p].role == (if w[k].role == "user"@ {
            MessageRole::User
        } else if w[k].role == "assistant"@ {
            MessageRole::Assistant
        } else {
            MessageRole::System
        }),
    decreases n,
{
    lemma_roles();
    let before = restorer::replay(w, n - 1);
    let after = restorer::replay(w, n);
    if k == n - 1 {
        after.len() - 1
    } else {
        let p = lemma_words_are_kept(w, n - 1, k);
        assert(after[p].content == before[p].content && after[p].role == before[p].role);
        p
    }
}

/// A restored history makes nothing up: what a message says, if anything, stands in the
/// log.
pub proof fn nothing_is_made_up(es: Seq<entry::EntryView>, p: int)
    requires
        0 <= p < restorer::restored(es).len(),
        restorer::restored(es)[p].content.len() > 0,
    ensures
        exists|k: int|
            0 <= k < restorer::working(es).len() && (#[trigger] restorer::working(es)[k]).content
                == restorer::restored(es)[p].content,
{
    let w = restorer::working(es);
    let ms = restorer::replay(w, w.len() as int);
    let q = lemma_paired_member(ms, ms.len() as int, p);
    lemma_words_of_the_log(w, w.len() as int, q);
}

proof fn lemma_paired_member(ms: Seq<message::MessageView>, n: int, p: int) -> (q: int)
    requires
        0 <= n <= ms.len(),
        0 <= p < restorer::paired(ms, n).len(),
    ensures
        0 <= q < n,
        restorer::paired(ms, n)[p] == ms[q],
    decreases n,
{
    if p < restorer::paired(ms, n - 1).len() {
        lemma_paired_member(ms, n - 1, p)
    } else {
        n - 1
    }
}

proof fn lemma_words_of_the_log(w: Seq<entry::EntryView>, n: int, p: int)
    requires
        0 <= n <= w.len(),
        0 <= p < restorer::replay(w, n).len(),
        restorer::replay(w, n)[p].content.len() > 0,
    ensures
        exists|k: int|
            0 <= k < n && (#[trigger] w[k]).content == restorer::replay(w, n)[p].content,
    decreases n,
{
    lemma_roles();
    let before = restorer::replay(w, n - 1);
    let after = restorer::replay(w, n);
    if p < before.len() && after[p].content == before[p].content {
        lemma_words_of_the_log(w, n - 1, p);
        let k = choose|k: int|
            0 <= k < n - 1 && (#[trigger] w[k]).content == before[p].content;
        assert(w[k].content == after[p].content);
    } else {
        assert(w[n - 1].content == after[p].content);
    }
}

} // verus!
