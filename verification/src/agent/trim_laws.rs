//! How much a trim of a history removes: no more than it has to, and no less.

use crate::agent::history;
use crate::agent::history_laws;
use crate::agent::sanitize;
use crate::message::MessageRole;
use crate::message;
use crate::text;
use vstd::prelude::*;
use vstd::utf8::*;

verus! {

/// `m` stands for a compacted part of a history.
pub open spec fn is_summary(m: message::MessageView) -> bool {
    m.role == MessageRole::Assistant && m.name == Some("compaction_summary"@)
}

/// `m` is no system message.
pub open spec fn is_spoken(m: message::MessageView) -> bool {
    m.role != MessageRole::System
}

/// `m` is neither a system message nor named as a summary.
pub open spec fn may_go(m: message::MessageView) -> bool {
    m.role != MessageRole::System && m.name != Some("compaction_summary"@)
}

/// The tokens of those messages from `low` up to `high` for which `p` holds.
pub open spec fn tokens_of(
    ms: Seq<message::MessageView>,
    counts: Seq<u64>,
    p: spec_fn(message::MessageView) -> bool,
    low: int,
    high: int,
) -> nat
    decreases high - low,
{
    if high <= low {
        0
    } else {
        tokens_of(ms, counts, p, low, high - 1) + (if p(ms[high - 1]) {
            counts[high - 1] as nat
        } else {
            0
        })
    }
}

/// `a` less `b`, but not less than nothing.
pub open spec fn less(a: int, b: int) -> int {
    if a < b {
        0
    } else {
        a - b
    }
}

proof fn lemma_tokens_split(
    ms: Seq<message::MessageView>,
    counts: Seq<u64>,
    p: spec_fn(message::MessageView) -> bool,
    low: int,
    mid: int,
    high: int,
)
    requires
        low <= mid <= high,
    ensures
        tokens_of(ms, counts, p, low, high) == tokens_of(ms, counts, p, low, mid) + tokens_of(
            ms,
            counts,
            p,
            mid,
            high,
        ),
    decreases high - mid,
{
    if mid < high {
        lemma_tokens_split(ms, counts, p, low, mid, high - 1);
    }
}

proof fn lemma_tokens_none(
    ms: Seq<message::MessageView>,
    counts: Seq<u64>,
    p: spec_fn(message::MessageView) -> bool,
    low: int,
    high: int,
)
    requires
        forall|k: int| low <= k < high ==> !p(#[trigger] ms[k]),
    ensures
        tokens_of(ms, counts, p, low, high) == 0,
    decreases high - low,
{
    if low < high {
        lemma_tokens_none(ms, counts, p, low, high - 1);
    }
}

proof fn lemma_filter_none(s: Seq<message::MessageView>, p: spec_fn(message::MessageView) -> bool)
    requires
        forall|k: int| 0 <= k < s.len() ==> !p(#[trigger] s[k]),
    ensures
        s.filter(p).len() == 0,
    decreases s.len(),
{
    reveal(Seq::filter);
    if s.len() > 0 {
        lemma_filter_none(s.drop_last(), p);
    }
}

proof fn lemma_filter_all(s: Seq<message::MessageView>, p: spec_fn(message::MessageView) -> bool)
    requires
        forall|k: int| 0 <= k < s.len() ==> p(#[trigger] s[k]),
    ensures
        s.filter(p) == s,
    decreases s.len(),
{
    reveal(Seq::filter);
    if s.len() > 0 {
        lemma_filter_all(s.drop_last(), p);
        assert(s.drop_last().push(s.last()) =~= s);
    } else {
        assert(s.filter(p) =~= s);
    }
}

/// The system messages of `s`.
pub open spec fn systems(s: Seq<message::MessageView>) -> Seq<message::MessageView> {
    s.filter(|m: message::MessageView| !is_spoken(m))
}

/// A trim from the oldest message on removes exactly what is said before some place,
/// where it began over its budget and does not end there sooner than it has to: with
/// the last message that it removed the history is over the budget. It stays over the
/// budget only where nothing but system messages is left before the last message.
pub proof fn fifo_removes_no_more_than_it_has_to(
    ms: Seq<message::MessageView>,
    counts: Seq<u64>,
    tokens: nat,
    max: nat,
) -> (cut: int)
    requires
        ms.len() > 0,
        counts.len() == ms.len(),
    ensures
        ({
            let t = history::fifo(ms, counts, tokens, max, ms.len() as int);
            let spoken = |m: message::MessageView| is_spoken(m);
            &&& 0 <= cut < ms.len()
            &&& t.kept == systems(ms.take(cut)) + ms.skip(cut)
            &&& t.removed == ms.len() - t.kept.len()
            &&& t.tokens == less(tokens as int, tokens_of(ms, counts, spoken, 0, cut) as int)
            &&& cut > 0 ==> is_spoken(ms[cut - 1]) && less(
                tokens as int,
                tokens_of(ms, counts, spoken, 0, cut - 1) as int,
            ) > max
            &&& t.tokens > max ==> forall|k: int|
                cut <= k < ms.len() - 1 ==> !is_spoken(#[trigger] ms[k])
        }),
{
    let cut = lemma_fifo(ms, counts, tokens, max, ms.len() as int);
    assert(ms.subrange(cut, ms.len() as int) =~= ms.skip(cut));
    history_laws::fifo_keeps_systems(ms, counts, tokens, max, ms.len() as int);
    cut
}

proof fn lemma_fifo(
    ms: Seq<message::MessageView>,
    counts: Seq<u64>,
    tokens: nat,
    max: nat,
    i: int,
) -> (cut: int)
    requires
        0 <= i <= ms.len(),
        ms.len() > 0,
    ensures
        ({
            let t = history::fifo(ms, counts, tokens, max, i);
            let spoken = |m: message::MessageView| is_spoken(m);
            &&& 0 <= cut <= i
            &&& cut < ms.len()
            &&& t.kept == systems(ms.take(cut)) + ms.subrange(cut, i)
            &&& t.tokens == less(tokens as int, tokens_of(ms, counts, spoken, 0, cut) as int)
            &&& cut > 0 ==> is_spoken(ms[cut - 1]) && less(
                tokens as int,
                tokens_of(ms, counts, spoken, 0, cut - 1) as int,
            ) > max
            &&& t.tokens > max ==> forall|k: int|
                cut <= k < i && k < ms.len() - 1 ==> !is_spoken(#[trigger] ms[k])
        }),
    decreases i,
{
    let t = history::fifo(ms, counts, tokens, max, i);
    let spoken = |m: message::MessageView| is_spoken(m);
    let sys = |m: message::MessageView| !is_spoken(m);
    if i <= 0 {
        reveal(Seq::filter);
        assert(ms.take(0).filter(sys) =~= Seq::empty());
        assert(t.kept =~= systems(ms.take(0)) + ms.subrange(0, 0));
        0
    } else {
        let c = lemma_fifo(ms, counts, tokens, max, i - 1);
        let before = history::fifo(ms, counts, tokens, max, i - 1);
        if before.tokens > max && i < ms.len() && ms[i - 1].role != MessageRole::System {
            let mid = ms.subrange(c, i - 1);
            assert forall|k: int| 0 <= k < mid.len() implies sys(#[trigger] mid[k]) by {
                assert(mid[k] == ms[c + k]);
            }
            lemma_filter_all(mid, sys);
            history_laws::lemma_filter_concat(ms.take(c), mid, sys);
            assert(ms.take(i - 1) =~= ms.take(c) + mid);
            reveal(Seq::filter);
            assert(ms.take(i).drop_last() =~= ms.take(i - 1));
            assert(ms.take(i).last() == ms[i - 1]);
            assert(systems(ms.take(i)) == systems(ms.take(c)) + mid);
            assert(t.kept =~= systems(ms.take(i)) + ms.subrange(i, i));
            lemma_tokens_split(ms, counts, spoken, 0, c, i - 1);
            lemma_tokens_none(ms, counts, spoken, c, i - 1);
            i
        } else {
            assert(t.kept =~= systems(ms.take(c)) + ms.subrange(c, i));
            c
        }
    }
}

/// The smaller one.
pub open spec fn at_most(n: nat, limit: nat) -> nat {
    if n < limit {
        n
    } else {
        limit
    }
}

/// An emergency trim removes the oldest messages until four are left of those that it
/// may remove, and nothing where there are no more than four. Their tokens go with
/// them.
pub proof fn emergency_leaves_four(
    ms: Seq<message::MessageView>,
    counts: Seq<u64>,
    tokens: nat,
) -> (cut: int)
    requires
        counts.len() == ms.len(),
    ensures
        ({
            let n = ms.len() as int;
            let go = |m: message::MessageView| may_go(m);
            let quota = history::monus(
                history::removable_count(ms, n),
                history::EMERGENCY_KEEP as nat,
            );
            let t = history::emergency(ms, counts, tokens, quota, n);
            &&& 0 <= cut <= n
            &&& t.kept == ms.take(cut).filter(|m: message::MessageView| !may_go(m)) + ms.skip(cut)
            &&& t.kept.filter(go).len() == at_most(ms.filter(go).len(), 4)
            &&& t.removed == ms.len() - t.kept.len()
            &&& t.tokens == less(tokens as int, tokens_of(ms, counts, go, 0, cut) as int)
        }),
{
    let n = ms.len() as int;
    let go = |m: message::MessageView| may_go(m);
    let stay = |m: message::MessageView| !may_go(m);
    let quota = history::monus(history::removable_count(ms, n), history::EMERGENCY_KEEP as nat);
    let t = history::emergency(ms, counts, tokens, quota, n);
    let cut = lemma_emergency(ms, counts, tokens, quota, n);
    history_laws::emergency_keeps_protected(ms, counts, tokens, quota, n);
    history_laws::emergency_removes_its_quota(ms, counts, tokens, quota, n);
    assert(ms.subrange(cut, n) =~= ms.skip(cut));
    let head = ms.take(cut);
    assert(ms =~= head + ms.skip(cut));
    lemma_counted(ms, n);
    assert(ms.take(n) =~= ms);
    history_laws::lemma_filter_concat(head, ms.skip(cut), go);
    history_laws::lemma_filter_concat(head.filter(stay), ms.skip(cut), go);
    lemma_parts(head, go, stay);
    assert forall|k: int| 0 <= k < head.filter(stay).len() implies !go(
        #[trigger] head.filter(stay)[k],
    ) by {
        head.lemma_filter_pred(stay, k);
    }
    lemma_filter_none(head.filter(stay), go);
    cut
}

proof fn lemma_parts(
    s: Seq<message::MessageView>,
    p: spec_fn(message::MessageView) -> bool,
    q: spec_fn(message::MessageView) -> bool,
)
    requires
        forall|m: message::MessageView| #[trigger] p(m) == !q(m),
    ensures
        s.filter(p).len() + s.filter(q).len() == s.len(),
    decreases s.len(),
{
    reveal(Seq::filter);
    if s.len() > 0 {
        lemma_parts(s.drop_last(), p, q);
        assert(p(s.last()) == !q(s.last()));
    }
}

proof fn lemma_counted(ms: Seq<message::MessageView>, i: int)
    requires
        0 <= i <= ms.len(),
    ensures
        history::removable_count(ms, i) == ms.take(i).filter(
            |m: message::MessageView| may_go(m),
        ).len(),
    decreases i,
{
    reveal(Seq::filter);
    if i > 0 {
        lemma_counted(ms, i - 1);
        assert(ms.take(i).drop_last() =~= ms.take(i - 1));
        assert(ms.take(i).last() == ms[i - 1]);
    }
}

proof fn lemma_emergency(
    ms: Seq<message::MessageView>,
    counts: Seq<u64>,
    tokens: nat,
    quota: nat,
    i: int,
) -> (cut: int)
    requires
        0 <= i <= ms.len(),
    ensures
        ({
            let t = history::emergency(ms, counts, tokens, quota, i);
            let go = |m: message::MessageView| may_go(m);
            let stay = |m: message::MessageView| !may_go(m);
            &&& 0 <= cut <= i
            &&& t.kept == ms.take(cut).filter(stay) + ms.subrange(cut, i)
            &&& t.tokens == less(tokens as int, tokens_of(ms, counts, go, 0, cut) as int)
            &&& t.removed < quota ==> forall|k: int| cut <= k < i ==> !may_go(#[trigger] ms[k])
        }),
    decreases i,
{
    let t = history::emergency(ms, counts, tokens, quota, i);
    let go = |m: message::MessageView| may_go(m);
    let stay = |m: message::MessageView| !may_go(m);
    if i <= 0 {
        reveal(Seq::filter);
        assert(ms.take(0).filter(stay) =~= Seq::empty());
        assert(t.kept =~= ms.take(0).filter(stay) + ms.subrange(0, 0));
        0
    } else {
        let c = lemma_emergency(ms, counts, tokens, quota, i - 1);
        let before = history::emergency(ms, counts, tokens, quota, i - 1);
        if before.removed < quota && may_go(ms[i - 1]) {
            let mid = ms.subrange(c, i - 1);
            assert forall|k: int| 0 <= k < mid.len() implies stay(#[trigger] mid[k]) by {
                assert(mid[k] == ms[c + k]);
            }
            lemma_filter_all(mid, stay);
            history_laws::lemma_filter_concat(ms.take(c), mid, stay);
            assert(ms.take(i - 1) =~= ms.take(c) + mid);
            reveal(Seq::filter);
            assert(ms.take(i).drop_last() =~= ms.take(i - 1));
            assert(ms.take(i).last() == ms[i - 1]);
            assert(t.kept =~= ms.take(i).filter(stay) + ms.subrange(i, i));
            lemma_tokens_split(ms, counts, go, 0, c, i - 1);
            lemma_tokens_none(ms, counts, go, c, i - 1);
            i
        } else {
            assert(t.kept =~= ms.take(c).filter(stay) + ms.subrange(c, i));
            c
        }
    }
}

/// The message at `b` begins a round of the messages from `start` on: it is the first
/// of them, or a user's.
pub open spec fn opens_round(ms: Seq<message::MessageView>, start: int, b: int) -> bool {
    b == start || ms[b].role == MessageRole::User
}

/// The system messages at the head of `ms` end at `head`.
pub open spec fn is_head(ms: Seq<message::MessageView>, head: int) -> bool {
    &&& 0 <= head <= ms.len()
    &&& forall|k: int| 0 <= k < head ==> (#[trigger] ms[k]).role == MessageRole::System
    &&& head < ms.len() ==> ms[head].role != MessageRole::System
}

/// A lossless trim begins behind the system messages at the head and a summary that
/// follows them.
pub open spec fn is_start(ms: Seq<message::MessageView>, start: int) -> bool {
    exists|head: int| #[trigger]
        is_head(ms, head) && if head < ms.len() && is_summary(ms[head]) {
            start == head + 1
        } else {
            start == head
        }
}

/// A history within four fifths of its budget, or without one, stays as it is under a
/// lossless trim. Otherwise whole rounds go, from the oldest on, of which only the
/// summaries stay, and their tokens go with them. It drops no more than it has to: put
/// back the last round that it dropped, which begins at `last`, and the history is
/// over the four fifths. It stays over them only where no more than one round is
/// left.
pub proof fn lossless_drops_no_more_than_it_has_to(h: history::HistoryView, counts: Seq<u64>) -> (r: (
    int,
    int,
    int,
))
    requires
        counts.len() == h.messages.len(),
    ensures
        ({
            let (start, last, end) = r;
            let ms = h.messages;
            let after = history::lossless(h, counts);
            let gone = |m: message::MessageView| !is_summary(m);
            let target = h.max_tokens as int * 4 / 5;
            if h.max_tokens == 0 || h.current_tokens <= target {
                after == h
            } else {
                &&& is_start(ms, start)
                &&& 0 <= start <= last <= end <= ms.len()
                &&& after.messages == ms.take(start) + ms.subrange(start, end).filter(
                    |m: message::MessageView| is_summary(m),
                ) + ms.skip(end)
                &&& after.current_tokens == less(
                    h.current_tokens as int,
                    tokens_of(ms, counts, gone, start, end) as int,
                )
                &&& after.max_tokens == h.max_tokens
                &&& after.protocol_type == h.protocol_type
                &&& after.model_name == h.model_name
                &&& end > start ==> {
                    &&& end < ms.len() && ms[end].role == MessageRole::User
                    &&& last < end
                    &&& opens_round(ms, start, last)
                    &&& forall|k: int|
                        last < k < end ==> (#[trigger] ms[k]).role != MessageRole::User
                    &&& less(
                        h.current_tokens as int,
                        tokens_of(ms, counts, gone, start, last) as int,
                    ) > target
                }
                &&& after.current_tokens > target ==> forall|k: int|
                    end < k < ms.len() ==> (#[trigger] ms[k]).role != MessageRole::User
            }
        }),
{
    let ms = h.messages;
    let target = (h.max_tokens * 4 / 5) as nat;
    let gone = |m: message::MessageView| !is_summary(m);
    if h.max_tokens == 0 || h.current_tokens <= target {
        (0, 0, 0)
    } else {
        let start = history::lossless_start(ms);
        lemma_head(ms);
        let head = history::leading_systems(ms) as int;
        assert(is_head(ms, head));
        assert(is_start(ms, start));
        let (last, end) = lemma_cut(ms, counts, h.current_tokens as nat, target, start);
        let p = |m: message::MessageView| history::is_marker(m);
        let q = |m: message::MessageView| is_summary(m);
        assert(p =~= q);
        (start, last, end)
    }
}

proof fn lemma_head(ms: Seq<message::MessageView>)
    ensures
        is_head(ms, history::leading_systems(ms) as int),
    decreases ms.len(),
{
    if ms.len() > 0 && ms[0].role == MessageRole::System {
        let rest = ms.drop_first();
        lemma_head(rest);
        let head = history::leading_systems(ms) as int;
        assert forall|k: int| 0 <= k < head implies (#[trigger] ms[k]).role == MessageRole::System by {
            if k > 0 {
                assert(rest[k - 1] == ms[k]);
            }
        }
        if head < ms.len() {
            assert(rest[head - 1] == ms[head]);
        }
    }
}

proof fn lemma_next(ms: Seq<message::MessageView>, i: int)
    requires
        0 <= i <= ms.len(),
    ensures
        ({
            let e = history::next_user(ms, i);
            &&& i <= e <= ms.len()
            &&& e < ms.len() ==> ms[e].role == MessageRole::User
            &&& forall|k: int| i <= k < e ==> (#[trigger] ms[k]).role != MessageRole::User
        }),
    decreases ms.len() - i,
{
    if i < ms.len() && ms[i].role != MessageRole::User {
        lemma_next(ms, i + 1);
    }
}

proof fn lemma_round(ms: Seq<message::MessageView>, counts: Seq<u64>, i: int, end: int)
    requires
        0 <= i <= end,
    ensures
        history::round_tokens(ms, counts, i, end) == tokens_of(
            ms,
            counts,
            |m: message::MessageView| !is_summary(m),
            i,
            end,
        ),
    decreases end - i,
{
    if i < end {
        lemma_round(ms, counts, i, end - 1);
    }
}

proof fn lemma_cut(
    ms: Seq<message::MessageView>,
    counts: Seq<u64>,
    tokens: nat,
    target: nat,
    i: int,
) -> (r: (int, int))
    requires
        0 <= i <= ms.len(),
    ensures
        ({
            let (last, end) = r;
            let cut = history::lossless_cut(ms, counts, tokens, target, i);
            let gone = |m: message::MessageView| !is_summary(m);
            &&& cut.0 == end
            &&& cut.1 == less(tokens as int, tokens_of(ms, counts, gone, i, end) as int)
            &&& i <= last <= end <= ms.len()
            &&& end > i ==> {
                &&& end < ms.len() && ms[end].role == MessageRole::User
                &&& last < end
                &&& opens_round(ms, i, last)
                &&& forall|k: int| last < k < end ==> (#[trigger] ms[k]).role != MessageRole::User
                &&& less(tokens as int, tokens_of(ms, counts, gone, i, last) as int) > target
            }
            &&& cut.1 > target ==> forall|k: int|
                end < k < ms.len() ==> (#[trigger] ms[k]).role != MessageRole::User
        }),
    decreases ms.len() - i,
{
    let gone = |m: message::MessageView| !is_summary(m);
    if i >= ms.len() {
        (i, i)
    } else {
        let e = history::round_end(ms, i);
        lemma_next(ms, i + 1);
        if tokens <= target || e >= ms.len() {
            (i, i)
        } else {
            let left = history::monus(tokens, history::round_tokens(ms, counts, i, e));
            lemma_round(ms, counts, i, e);
            let (last, end) = lemma_cut(ms, counts, left, target, e);
            lemma_tokens_split(ms, counts, gone, i, e, end);
            if end > e {
                lemma_tokens_split(ms, counts, gone, i, e, last);
                (last, end)
            } else {
                (i, e)
            }
        }
    }
}

/// `m` asks for a tool call that a tool result of `tail` answers.
pub open spec fn calls_for(m: message::MessageView, tail: Seq<message::MessageView>) -> bool {
    &&& m.role == MessageRole::Assistant || m.role == MessageRole::Tool
    &&& m.tool_calls is Some
    &&& exists|i: int, j: int|
        0 <= i < m.tool_calls->0.len() && 0 <= j < tail.len() && tail[j].role == MessageRole::Tool
            && (#[trigger] tail[j]).tool_call_id == Some((#[trigger] m.tool_calls->0[i]).id)
}

/// One of the messages from `a` up to `b` is a user's.
pub open spec fn user_speaks(ms: Seq<message::MessageView>, a: int, b: int) -> bool {
    exists|k: int| a <= k < b && (#[trigger] ms[k]).role == MessageRole::User
}

/// How many of the messages from `i` on begin a round: a user speaks, or a tool
/// answers.
pub open spec fn rounds_from(ms: Seq<message::MessageView>, i: int) -> nat {
    ms.skip(i).filter(
        |m: message::MessageView| m.role == MessageRole::User || m.role == MessageRole::Tool,
    ).len()
}

/// The shortest tail of `ms` with `keep` rounds begins at `start`.
pub open spec fn is_tail(ms: Seq<message::MessageView>, keep: nat, start: int) -> bool {
    &&& 0 <= start <= ms.len()
    &&& rounds_from(ms, start) == keep
    &&& forall|k: int| start < k <= ms.len() ==> #[trigger] rounds_from(ms, k) < keep
}

/// A compaction replaces what stands between the system messages at the head and the
/// last `keep` rounds by the summary. The part that it keeps is longer only to hold the
/// calls that those rounds answer, and reaches back no further than to the first of
/// them behind the last user message. A history with fewer rounds, or with nothing
/// between, stays as it is.
pub proof fn compaction_keeps_the_last_rounds(
    h: history::HistoryView,
    summary: Seq<char>,
    keep: nat,
    counts: Seq<u64>,
    summary_tokens: u64,
) -> (r: (int, int, int))
    requires
        counts.len() == h.messages.len(),
        h.current_tokens + summary_tokens <= u64::MAX,
    ensures
        ({
            let (low, high, start) = r;
            let ms = h.messages;
            let after = history::with_summary(h, summary, keep, counts, summary_tokens);
            let any = |m: message::MessageView| true;
            if rounds_from(ms, 0) < keep {
                after == h
            } else {
                &&& is_head(ms, low)
                &&& is_tail(ms, keep, start)
                &&& 0 <= high <= start
                &&& high < start ==> low <= high && calls_for(ms[high], ms.skip(start)) && forall|
                    k: int,
                |
                    high <= k < start ==> (#[trigger] ms[k]).role != MessageRole::User
                &&& forall|j: int|
                    low <= j < high && #[trigger] calls_for(ms[j], ms.skip(start))
                        ==> user_speaks(ms, j, start)
                &&& if high <= low {
                    after == h
                } else {
                    &&& after.messages.len() == low + 1 + ms.len() - high
                    &&& after.messages.take(low) == ms.take(low)
                    &&& is_summary(after.messages[low])
                    &&& after.messages[low].content == summary
                    &&& after.messages[low].tool_calls is None
                    &&& after.messages.skip(low + 1) == ms.skip(high)
                    &&& after.current_tokens == less(
                        h.current_tokens as int,
                        tokens_of(ms, counts, any, low, high) as int,
                    ) + summary_tokens
                    &&& after.max_tokens == h.max_tokens
                }
            }
        }),
{
    let ms = h.messages;
    let n = ms.len() as int;
    let low = history::leading_systems(ms) as int;
    let any = |m: message::MessageView| true;
    lemma_head(ms);
    lemma_tail(ms, keep, n);
    lemma_rounds_from(ms, 0);
    match history::rounds_from_end(ms, keep, n) {
        None => (0, 0, 0),
        Some(start) => {
            let tail = ms.skip(start);
            lemma_rounds_from(ms, start);
            history_laws::lemma_filter_concat(
                ms.take(start),
                tail,
                |m: message::MessageView|
                    m.role == MessageRole::User || m.role == MessageRole::Tool,
            );
            assert(ms.skip(0) =~= ms.take(start) + tail);
            assert forall|k: int| start < k <= n implies #[trigger] rounds_from(ms, k) < keep by {
                lemma_rounds_from(ms, k);
                assert(rounds_in(ms, k, n) < keep);
            }
            let high = history::tail_start(ms, keep);
            lemma_back(ms, tail, low, start - 1, start);
            assert forall|j: int|
                low <= j < high && #[trigger] calls_for(ms[j], tail) implies user_speaks(
                ms,
                j,
                start,
            ) by {
                lemma_asks(ms[j], tail);
            }
            if high < start {
                lemma_asks(ms[high], tail);
            }
            if high > low {
                let after = history::with_summary(h, summary, keep, counts, summary_tokens);
                assert(after.messages.take(low) =~= ms.take(low));
                assert(after.messages.skip(low + 1) =~= ms.skip(high));
                lemma_less_counts(ms, h.current_tokens as nat, counts, low, high);
            }
            (low, high, start)
        },
    }
}

proof fn lemma_less_counts(
    ms: Seq<message::MessageView>,
    tokens: nat,
    counts: Seq<u64>,
    i: int,
    end: int,
)
    requires
        0 <= i <= end,
    ensures
        history::less_counts(tokens, counts, i, end) == less(
            tokens as int,
            tokens_of(ms, counts, |m: message::MessageView| true, i, end) as int,
        ),
    decreases end - i,
{
    if i < end {
        lemma_less_counts(ms, tokens, counts, i, end - 1);
    }
}

proof fn lemma_asks(m: message::MessageView, tail: Seq<message::MessageView>)
    ensures
        history::asks_for(m, tail) == calls_for(m, tail),
{
    if history::asks_for(m, tail) {
        let id = choose|id: Seq<char>|
            #![trigger sanitize::asks(m, id)]
            sanitize::asks(m, id) && sanitize::answered(tail, id);
        let i = choose|k: int|
            0 <= k < m.tool_calls->0.len() && (#[trigger] m.tool_calls->0[k]).id == id;
        let j = choose|k: int| 0 <= k < tail.len() && sanitize::answers(#[trigger] tail[k], id);
        assert(tail[j].tool_call_id == Some(m.tool_calls->0[i].id));
    }
    if calls_for(m, tail) {
        let (i, j) = choose|i: int, j: int|
            0 <= i < m.tool_calls->0.len() && 0 <= j < tail.len() && tail[j].role
                == MessageRole::Tool && (#[trigger] tail[j]).tool_call_id == Some(
                (#[trigger] m.tool_calls->0[i]).id,
            );
        let id = m.tool_calls->0[i].id;
        assert(sanitize::answers(tail[j], id));
        assert(sanitize::asks(m, id));
    }
}

proof fn lemma_back(
    ms: Seq<message::MessageView>,
    tail: Seq<message::MessageView>,
    low: int,
    j: int,
    start: int,
)
    requires
        0 <= low,
        -1 <= j < start <= ms.len(),
    ensures
        ({
            let high = history::extended_back(ms, tail, low, j, start);
            &&& 0 <= high <= start
            &&& high < start ==> low <= high <= j && history::asks_for(ms[high], tail) && forall|
                k: int,
            |
                high <= k <= j ==> (#[trigger] ms[k]).role != MessageRole::User
            &&& forall|i: int|
                low <= i < high && i <= j && #[trigger] history::asks_for(ms[i], tail)
                    ==> user_speaks(ms, i, j + 1)
        }),
    decreases j + 1 - low,
{
    let high = history::extended_back(ms, tail, low, j, start);
    if j < low {
    } else if ms[j].role == MessageRole::User {
        assert forall|i: int|
            low <= i < high && i <= j && #[trigger] history::asks_for(
                ms[i],
                tail,
            ) implies user_speaks(ms, i, j + 1) by {
            assert(ms[j].role == MessageRole::User);
        }
    } else {
        if history::asks_for(ms[j], tail) {
            lemma_back(ms, tail, low, j - 1, j);
        } else {
            lemma_back(ms, tail, low, j - 1, start);
        }
        assert forall|i: int|
            low <= i < high && i <= j && #[trigger] history::asks_for(
                ms[i],
                tail,
            ) implies user_speaks(ms, i, j + 1) by {
            assert(user_speaks(ms, i, j));
            let k = choose|k: int| i <= k < j && (#[trigger] ms[k]).role == MessageRole::User;
            assert(ms[k].role == MessageRole::User);
        }
    }
}

/// How many of the messages from `a` up to `b` begin a round.
spec fn rounds_in(ms: Seq<message::MessageView>, a: int, b: int) -> nat {
    ms.subrange(a, b).filter(
        |m: message::MessageView| m.role == MessageRole::User || m.role == MessageRole::Tool,
    ).len()
}

proof fn lemma_rounds_in(ms: Seq<message::MessageView>, a: int, b: int)
    requires
        0 <= a < b <= ms.len(),
    ensures
        rounds_in(ms, a, b) == rounds_in(ms, a, b - 1) + (if ms[b - 1].role == MessageRole::User
            || ms[b - 1].role == MessageRole::Tool {
            1nat
        } else {
            0nat
        }),
{
    reveal(Seq::filter);
    assert(ms.subrange(a, b).drop_last() =~= ms.subrange(a, b - 1));
    assert(ms.subrange(a, b).last() == ms[b - 1]);
}

proof fn lemma_tail(ms: Seq<message::MessageView>, keep: nat, i: int)
    requires
        0 <= i <= ms.len(),
    ensures
        match history::rounds_from_end(ms, keep, i) {
            Some(s) => 0 <= s <= i && rounds_in(ms, s, i) == keep && forall|k: int|
                s < k <= i ==> #[trigger] rounds_in(ms, k, i) < keep,
            None => rounds_in(ms, 0, i) < keep,
        },
    decreases i,
{
    reveal(Seq::filter);
    assert(ms.subrange(i, i) =~= Seq::empty());
    assert(rounds_in(ms, i, i) == 0);
    if keep > 0 && i > 0 {
        let begins = ms[i - 1].role == MessageRole::User || ms[i - 1].role == MessageRole::Tool;
        let left = if begins {
            (keep - 1) as nat
        } else {
            keep
        };
        lemma_tail(ms, left, i - 1);
        lemma_rounds_in(ms, 0, i);
        match history::rounds_from_end(ms, keep, i) {
            Some(s) => {
                lemma_rounds_in(ms, s, i);
                assert forall|k: int| s < k <= i implies #[trigger] rounds_in(ms, k, i) < keep by {
                    if k < i {
                        lemma_rounds_in(ms, k, i);
                        assert(rounds_in(ms, k, i - 1) < left);
                    }
                }
            },
            None => {},
        }
    }
}

proof fn lemma_rounds_from(ms: Seq<message::MessageView>, i: int)
    requires
        0 <= i <= ms.len(),
    ensures
        rounds_from(ms, i) == rounds_in(ms, i, ms.len() as int),
{
    assert(ms.subrange(i, ms.len() as int) =~= ms.skip(i));
}

/// A message is cut at the end of a character, no sooner than it has to be: what is kept
/// of its content is the longest beginning that fits, and a note with both lengths
/// follows. System messages, and messages that fit, stay as they are, and nothing but
/// the content changes.
pub proof fn cut_messages_keep_what_fits(ms: Seq<message::MessageView>, max: nat, i: int) -> (n: int)
    requires
        0 <= i < ms.len(),
    ensures
        ({
            let m = ms[i];
            let r = history::shortened_all(ms, max)[i];
            let len = encode_utf8(m.content).len();
            &&& history::shortened_all(ms, max).len() == ms.len()
            &&& r == (message::MessageView { content: r.content, ..m })
            &&& m.role == MessageRole::System || len <= max ==> r == m
            &&& m.role != MessageRole::System && len > max ==> {
                &&& 0 <= n < m.content.len()
                &&& encode_utf8(m.content.take(n)).len() <= max
                &&& encode_utf8(m.content.take(n + 1)).len() > max
                &&& r.content == m.content.take(n) + "\n\n[...truncated: original "@
                    + text::decimal(len) + " chars, showing first "@ + text::decimal(max)
                    + " chars]"@
            }
        }),
{
    let m = ms[i];
    if is_large(m, max) {
        let n = lemma_longest_fit(m.content, max);
        let p = m.content.take(n);
        let len = encode_utf8(m.content).len();
        assert(history::shortened(m, max).content =~= p + "\n\n[...truncated: original "@
            + text::decimal(len) + " chars, showing first "@ + text::decimal(max) + " chars]"@);
        n
    } else {
        0
    }
}

/// How many characters of `s` end within its first `max` bytes.
proof fn lemma_longest_fit(s: Seq<char>, max: nat) -> (n: int)
    requires
        encode_utf8(s).len() > max,
    ensures
        0 <= n < s.len(),
        encode_utf8(s.take(n)).len() <= max,
        encode_utf8(s.take(n + 1)).len() > max,
        decode_utf8(
            encode_utf8(s).take(history::boundary_at_or_before(encode_utf8(s), max as int)),
        ) == s.take(n),
{
    let b = encode_utf8(s);
    encode_utf8_valid_utf8(s);
    encode_utf8_decode_utf8(s);
    let e = history::boundary_at_or_before(b, max as int);
    lemma_boundary_before(b, max as int);
    decode_utf8_split(b, e);
    valid_utf8_split(b, e);
    assert(b.subrange(0, e) =~= b.take(e));
    let p = decode_utf8(b.take(e));
    let n = p.len() as int;
    assert(s.take(n) =~= p);
    decode_utf8_encode_utf8(b.take(e));
    if n == s.len() {
        assert(s.take(n) =~= s);
    }
    let more = s.take(n + 1);
    let rest = s.skip(n + 1);
    assert(more + rest =~= s);
    lemma_boundary(more, rest);
    text::lemma_encode_concat(more, rest);
    let one = seq![s[n]];
    assert(more =~= p + one);
    text::lemma_encode_concat(p, one);
    text::lemma_encode_last(one);
    if encode_utf8(more).len() <= max {
        lemma_boundary_is_last(b, max as int, encode_utf8(more).len() as int);
    }
    n
}

proof fn lemma_boundary_before(b: Seq<u8>, i: int)
    requires
        valid_utf8(b),
        0 <= i,
    ensures
        0 <= history::boundary_at_or_before(b, i) <= i,
        is_char_boundary(b, history::boundary_at_or_before(b, i)),
    decreases i,
{
    is_char_boundary_start_end_of_seq(b);
    if i > 0 && !is_char_boundary(b, i) {
        lemma_boundary_before(b, i - 1);
    }
}

proof fn lemma_boundary_is_last(b: Seq<u8>, i: int, k: int)
    requires
        0 <= k <= i,
        is_char_boundary(b, k),
    ensures
        k <= history::boundary_at_or_before(b, i),
    decreases i,
{
    if i > 0 && !is_char_boundary(b, i) {
        lemma_boundary_is_last(b, i - 1, k);
    }
}

proof fn lemma_boundary(a: Seq<char>, b: Seq<char>)
    ensures
        is_char_boundary(encode_utf8(a + b), encode_utf8(a).len() as int),
    decreases a.len(),
{
    let all = encode_utf8(a + b);
    encode_utf8_valid_utf8(a + b);
    if a.len() > 0 {
        encode_utf8_first_scalar(a + b);
        lemma_boundary(a.drop_first(), b);
        assert((a + b).drop_first() =~= a.drop_first() + b);
        text::lemma_encode_concat(a, b);
        assert((a + b)[0] == a[0]);
        assert(pop_first_scalar(all) =~= encode_utf8((a + b).drop_first()));
    }
}

/// The tokens of a history whose large messages are cut: the counts of the cut messages
/// before they were cut go, those after it come.
pub proof fn cut_messages_are_recounted(
    ms: Seq<message::MessageView>,
    max: nat,
    old_counts: Seq<u64>,
    new_counts: Seq<u64>,
    tokens: nat,
    i: int,
)
    requires
        0 <= i <= ms.len(),
        old_counts.len() == ms.len(),
        new_counts.len() == ms.len(),
        tokens_of(ms, old_counts, |m: message::MessageView| is_large(m, max), 0, i) <= tokens,
        tokens + tokens_of(ms, new_counts, |m: message::MessageView| is_large(m, max), 0, i)
            <= u64::MAX,
    ensures
        history::shortened_tokens(ms, max, old_counts, new_counts, tokens, i) == tokens - tokens_of(
            ms,
            old_counts,
            |m: message::MessageView| is_large(m, max),
            0,
            i,
        ) + tokens_of(ms, new_counts, |m: message::MessageView| is_large(m, max), 0, i),
        history::oversized_count(ms, max, i) == ms.take(i).filter(
            |m: message::MessageView| is_large(m, max),
        ).len(),
    decreases i,
{
    reveal(Seq::filter);
    if i > 0 {
        cut_messages_are_recounted(ms, max, old_counts, new_counts, tokens, i - 1);
        assert(ms.take(i).drop_last() =~= ms.take(i - 1));
        assert(ms.take(i).last() == ms[i - 1]);
    }
}

/// `m` does not fit in `max` bytes, and is no system message.
pub open spec fn is_large(m: message::MessageView, max: nat) -> bool {
    m.role != MessageRole::System && encode_utf8(m.content).len() > max
}

/// The last summary is found: one stands at the index that is given, and none behind
/// it; where no index is given, there is none.
pub proof fn last_summary_is_found(ms: Seq<message::MessageView>, i: int)
    requires
        0 <= i <= ms.len(),
    ensures
        match history::last_marker(ms, i) {
            Some(k) => 0 <= k < i && is_summary(ms[k]) && forall|j: int|
                k < j < i ==> !is_summary(#[trigger] ms[j]),
            None => forall|j: int| 0 <= j < i ==> !is_summary(#[trigger] ms[j]),
        },
    decreases i,
{
    if i > 0 && !is_summary(ms[i - 1]) {
        last_summary_is_found(ms, i - 1);
    }
}

/// The tokens of a history are the sum of those of its messages.
pub proof fn counts_add_up(a: Seq<u64>, b: Seq<u64>, n: u64)
    ensures
        history::total(a + b) == history::total(a) + history::total(b),
        history::total(seq![n]) == n,
        history::total(Seq::empty()) == 0,
    decreases b.len(),
{
    reveal_with_fuel(history::total, 2);
    assert(seq![n].drop_last() =~= Seq::empty());
    if b.len() > 0 {
        assert((a + b).drop_last() =~= a + b.drop_last());
        counts_add_up(a, b.drop_last(), n);
    } else {
        assert(a + b =~= a);
    }
}

} // verus!
