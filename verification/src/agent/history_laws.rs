//! What every trim of a history keeps.

use crate::agent::history;
use crate::message::MessageRole;
use crate::message;
use vstd::prelude::*;

verus! {

/// `m` is a system message.
pub open spec fn is_system(m: message::MessageView) -> bool {
    m.role == MessageRole::System
}

/// The messages of `ms` that a trim may never remove: system messages and
/// compaction summaries.
pub open spec fn protected(ms: Seq<message::MessageView>) -> Seq<message::MessageView> {
    ms.filter(|m: message::MessageView| !history::removable(m))
}

/// The system messages of `ms`.
pub open spec fn systems(ms: Seq<message::MessageView>) -> Seq<message::MessageView> {
    ms.filter(|m: message::MessageView| is_system(m))
}

/// A trim from the oldest message on keeps every system message, in its order,
/// and accounts for every message: it is removed or kept.
pub proof fn fifo_keeps_systems(
    ms: Seq<message::MessageView>,
    counts: Seq<u64>,
    tokens: nat,
    max: nat,
    i: int,
)
    requires
        0 <= i <= ms.len(),
    ensures
        systems(history::fifo(ms, counts, tokens, max, i).kept) == systems(ms.take(i)),
        history::fifo(ms, counts, tokens, max, i).kept.len() + history::fifo(
            ms,
            counts,
            tokens,
            max,
            i,
        ).removed == i,
    decreases i,
{
    reveal(Seq::filter);
    let t = history::fifo(ms, counts, tokens, max, i);
    if i > 0 {
        fifo_keeps_systems(ms, counts, tokens, max, i - 1);
        let before = history::fifo(ms, counts, tokens, max, i - 1);
        assert(ms.take(i).drop_last() =~= ms.take(i - 1));
        assert(ms.take(i).last() == ms[i - 1]);
        if t.kept.len() > before.kept.len() {
            assert(t.kept.drop_last() =~= before.kept);
        }
    } else {
        assert(systems(t.kept) =~= systems(ms.take(i)));
    }
}

/// A trim from the oldest message on never removes the last message.
pub proof fn fifo_keeps_the_last(
    ms: Seq<message::MessageView>,
    counts: Seq<u64>,
    tokens: nat,
    max: nat,
)
    requires
        ms.len() > 0,
    ensures
        ({
            let kept = history::fifo(ms, counts, tokens, max, ms.len() as int).kept;
            kept.len() > 0 && kept.last() == ms.last()
        }),
{
}

/// A trim from the oldest message on brings the history within its budget, unless
/// it has removed all that it may: what stays is system messages and the last
/// message.
pub proof fn fifo_removes_enough(
    ms: Seq<message::MessageView>,
    counts: Seq<u64>,
    tokens: nat,
    max: nat,
    i: int,
)
    requires
        0 <= i <= ms.len(),
        history::fifo(ms, counts, tokens, max, i).tokens > max,
    ensures
        ({
            let kept = history::fifo(ms, counts, tokens, max, i).kept;
            forall|k: int|
                0 <= k < kept.len() && !(i == ms.len() && k == kept.len() - 1) ==> is_system(
                    #[trigger] kept[k],
                )
        }),
    decreases i,
{
    if i > 0 {
        let before = history::fifo(ms, counts, tokens, max, i - 1);
        assert(before.tokens > max);
        fifo_removes_enough(ms, counts, tokens, max, i - 1);
        let t = history::fifo(ms, counts, tokens, max, i);
        assert forall|k: int|
            0 <= k < t.kept.len() && !(i == ms.len() && k == t.kept.len() - 1) implies is_system(
            #[trigger] t.kept[k],
        ) by {
            if k < before.kept.len() {
                assert(t.kept[k] == before.kept[k]);
            }
        }
    }
}

/// An emergency trim keeps every system message and compaction summary, in their
/// order, and accounts for every message.
pub proof fn emergency_keeps_protected(
    ms: Seq<message::MessageView>,
    counts: Seq<u64>,
    tokens: nat,
    quota: nat,
    i: int,
)
    requires
        0 <= i <= ms.len(),
    ensures
        protected(history::emergency(ms, counts, tokens, quota, i).kept) == protected(ms.take(i)),
        history::emergency(ms, counts, tokens, quota, i).kept.len() + history::emergency(
            ms,
            counts,
            tokens,
            quota,
            i,
        ).removed == i,
    decreases i,
{
    reveal(Seq::filter);
    let t = history::emergency(ms, counts, tokens, quota, i);
    if i > 0 {
        emergency_keeps_protected(ms, counts, tokens, quota, i - 1);
        let before = history::emergency(ms, counts, tokens, quota, i - 1);
        assert(ms.take(i).drop_last() =~= ms.take(i - 1));
        assert(ms.take(i).last() == ms[i - 1]);
        if t.kept.len() > before.kept.len() {
            assert(t.kept.drop_last() =~= before.kept);
        }
    } else {
        assert(protected(t.kept) =~= protected(ms.take(i)));
    }
}

/// An emergency trim removes as many messages as it is to, or all that it may.
pub proof fn emergency_removes_its_quota(
    ms: Seq<message::MessageView>,
    counts: Seq<u64>,
    tokens: nat,
    quota: nat,
    i: int,
)
    requires
        0 <= i <= ms.len(),
    ensures
        history::emergency(ms, counts, tokens, quota, i).removed == (if quota
            < history::removable_count(ms, i) {
            quota
        } else {
            history::removable_count(ms, i)
        }),
    decreases i,
{
    if i > 0 {
        emergency_removes_its_quota(ms, counts, tokens, quota, i - 1);
    }
}

pub(crate) proof fn lemma_filter_concat(
    a: Seq<message::MessageView>,
    b: Seq<message::MessageView>,
    p: spec_fn(message::MessageView) -> bool,
)
    ensures
        (a + b).filter(p) == a.filter(p) + b.filter(p),
    decreases b.len(),
{
    reveal(Seq::filter);
    if b.len() == 0 {
        assert(a + b =~= a);
        assert(a.filter(p) + b.filter(p) =~= a.filter(p));
    } else {
        assert((a + b).drop_last() =~= a + b.drop_last());
        lemma_filter_concat(a, b.drop_last(), p);
        assert((a + b).filter(p) =~= a.filter(p) + b.filter(p));
    }
}

proof fn lemma_filter_twice(s: Seq<message::MessageView>, p: spec_fn(message::MessageView) -> bool)
    ensures
        s.filter(p).filter(p) == s.filter(p),
    decreases s.len(),
{
    reveal(Seq::filter);
    if s.len() > 0 {
        lemma_filter_twice(s.drop_last(), p);
        if p(s.last()) {
            assert(s.filter(p).drop_last() =~= s.drop_last().filter(p));
        }
    }
}

proof fn lemma_cut_range(
    ms: Seq<message::MessageView>,
    counts: Seq<u64>,
    tokens: nat,
    target: nat,
    i: int,
)
    requires
        0 <= i <= ms.len(),
    ensures
        i <= history::lossless_cut(ms, counts, tokens, target, i).0 <= ms.len(),
        i < ms.len() ==> history::lossless_cut(ms, counts, tokens, target, i).0 < ms.len(),
    decreases ms.len() - i,
{
    let end = history::round_end(ms, i);
    if !(tokens <= target || i >= ms.len() || end >= ms.len()) {
        history::lemma_next_user(ms, i + 1);
        lemma_cut_range(
            ms,
            counts,
            history::monus(tokens, history::round_tokens(ms, counts, i, end)),
            target,
            end,
        );
    }
}

proof fn lemma_leading(ms: Seq<message::MessageView>)
    ensures
        history::leading_systems(ms) <= ms.len(),
    decreases ms.len(),
{
    if ms.len() > 0 && ms[0].role == MessageRole::System {
        lemma_leading(ms.drop_first());
    }
}

/// A lossless trim keeps every compaction summary, in its order, the messages
/// before the first round as they are, and something of what was said last.
pub proof fn lossless_keeps_summaries(h: history::HistoryView, counts: Seq<u64>)
    ensures
        ({
            let after = history::lossless(h, counts).messages;
            let start = history::lossless_start(h.messages);
            &&& history::markers(after) == history::markers(h.messages)
            &&& after.take(start) == h.messages.take(start)
            &&& start < h.messages.len() ==> after.len() > 0 && after.last() == h.messages.last()
        }),
{
    let ms = h.messages;
    let p = |m: message::MessageView| history::is_marker(m);
    let target = (h.max_tokens * 4 / 5) as nat;
    let start = history::lossless_start(ms);
    lemma_leading(ms);
    if h.max_tokens == 0 || h.current_tokens <= target {
    } else {
        lemma_cut_range(ms, counts, h.current_tokens as nat, target, start);
        let end = history::lossless_cut(ms, counts, h.current_tokens as nat, target, start).0;
        let head = ms.take(start);
        let middle = ms.subrange(start, end);
        let tail = ms.skip(end);
        let after = history::lossless(h, counts).messages;
        assert(after == head + middle.filter(p) + tail);
        assert(ms =~= head + middle + tail);
        lemma_filter_concat(head + middle, tail, p);
        lemma_filter_concat(head, middle, p);
        lemma_filter_concat(head + middle.filter(p), tail, p);
        lemma_filter_concat(head, middle.filter(p), p);
        lemma_filter_twice(middle, p);
        assert(after.take(start) =~= ms.take(start));
    }
}

/// After a part of a history was replaced by a summary, the last summary is found
/// where it stands or behind it.
pub proof fn summary_is_found(
    h: history::HistoryView,
    summary: Seq<char>,
    keep: nat,
    counts: Seq<u64>,
    summary_tokens: u64,
)
    requires
        history::tail_start(h.messages, keep) > history::leading_systems(h.messages),
    ensures
        ({
            let after = history::with_summary(h, summary, keep, counts, summary_tokens).messages;
            let low = history::leading_systems(h.messages) as int;
            &&& after[low] == history::summary_message(summary)
            &&& history::last_marker(after, after.len() as int) matches Some(i) && low <= i
                < after.len()
        }),
{
    lemma_leading(h.messages);
    lemma_tail_range(h.messages, keep);
    let low = history::leading_systems(h.messages) as int;
    let after = history::with_summary(h, summary, keep, counts, summary_tokens).messages;
    assert(after[low] == history::summary_message(summary));
    lemma_last_marker(after, after.len() as int, low);
}

proof fn lemma_rounds_range(ms: Seq<message::MessageView>, k: nat, i: int)
    requires
        0 <= i,
    ensures
        history::rounds_from_end(ms, k, i) matches Some(s) ==> 0 <= s <= i,
    decreases i,
{
    if k > 0 && i > 0 {
        if history::begins_round(ms[i - 1]) {
            lemma_rounds_range(ms, (k - 1) as nat, i - 1);
        } else {
            lemma_rounds_range(ms, k, i - 1);
        }
    }
}

proof fn lemma_back_range(
    ms: Seq<message::MessageView>,
    tail: Seq<message::MessageView>,
    low: int,
    j: int,
    start: int,
)
    requires
        j < start,
    ensures
        history::extended_back(ms, tail, low, j, start) <= start,
    decreases j + 1 - low,
{
    if j < low || ms[j].role == MessageRole::User {
    } else if history::asks_for(ms[j], tail) {
        lemma_back_range(ms, tail, low, j - 1, j);
    } else {
        lemma_back_range(ms, tail, low, j - 1, start);
    }
}

proof fn lemma_tail_range(ms: Seq<message::MessageView>, keep: nat)
    ensures
        history::tail_start(ms, keep) <= ms.len(),
{
    lemma_leading(ms);
    lemma_rounds_range(ms, keep, ms.len() as int);
    let low = history::leading_systems(ms) as int;
    if let Some(s) = history::rounds_from_end(ms, keep, ms.len() as int) {
        lemma_back_range(ms, ms.skip(s), low, s - 1, s);
    }
}

proof fn lemma_last_marker(ms: Seq<message::MessageView>, end: int, at: int)
    requires
        0 <= at < end <= ms.len(),
        history::is_marker(ms[at]),
    ensures
        history::last_marker(ms, end) matches Some(i) && at <= i < end,
    decreases end,
{
    if !history::is_marker(ms[end - 1]) {
        lemma_last_marker(ms, end - 1, at);
    }
}

/// A compaction keeps the calls whose results it keeps: one that stands behind
/// the last user message before the kept rounds stays with its result.
pub proof fn calls_stay_with_their_results(
    ms: Seq<message::MessageView>,
    keep: nat,
    start: int,
    at: int,
)
    requires
        history::rounds_from_end(ms, keep, ms.len() as int) == Some(start),
        history::leading_systems(ms) <= at < start,
        forall|k: int| at <= k < start ==> (#[trigger] ms[k]).role != MessageRole::User,
        history::asks_for(ms[at], ms.skip(start)),
    ensures
        history::tail_start(ms, keep) <= at,
{
    lemma_rounds_range(ms, keep, ms.len() as int);
    lemma_extended_back(
        ms,
        ms.skip(start),
        history::leading_systems(ms) as int,
        start - 1,
        start,
        at,
    );
}

proof fn lemma_extended_back(
    ms: Seq<message::MessageView>,
    tail: Seq<message::MessageView>,
    low: int,
    j: int,
    start: int,
    at: int,
)
    requires
        low <= at,
        at <= j || start <= at,
        start <= ms.len(),
        j < ms.len(),
        at <= j ==> (forall|k: int| at <= k <= j ==> (#[trigger] ms[k]).role != MessageRole::User),
        at <= j ==> history::asks_for(ms[at], tail),
        j < start,
    ensures
        history::extended_back(ms, tail, low, j, start) <= at,
    decreases j + 1 - low,
{
    if j < low || ms[j].role == MessageRole::User {
    } else if history::asks_for(ms[j], tail) {
        lemma_extended_back(ms, tail, low, j - 1, j, at);
    } else {
        lemma_extended_back(ms, tail, low, j - 1, start, at);
    }
}

} // verus!
