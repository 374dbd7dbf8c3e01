//! Which memories a question finds, and what is shown of them.

use crate::gateway::memory::{LabelCount, LabelledNodes, MemoryNodesQuery, RawNode};
use crate::gateway::memory;
use crate::text;
use vstd::prelude::*;

verus! {

/// The text, or nothing.
pub open spec fn or_nothing(o: Option<String>) -> Seq<char> {
    match o {
        Some(s) => s@,
        None => Seq::empty(),
    }
}

/// When a node was made; a node of which that is not known is as old as can be.
pub open spec fn made(n: RawNode) -> int {
    match n.created_at {
        Some(t) => t as int,
        None => 0,
    }
}

/// The seconds that a range of time covers, where it covers not all.
pub open spec fn covered(range: Seq<char>) -> Option<int> {
    if range == "1h"@ {
        Some(60int * 60)
    } else if range == "1d"@ {
        Some(24int * 60 * 60)
    } else if range == "7d"@ {
        Some(7int * 24 * 60 * 60)
    } else if range == "30d"@ {
        Some(30int * 24 * 60 * 60)
    } else {
        None
    }
}

/// A node with the label is found: it was made within the time that is asked for, and what
/// is shown of it holds the keyword, in whatever letters.
pub open spec fn is_found(q: MemoryNodesQuery, now: int, shown: Seq<char>, n: RawNode) -> bool {
    &&& q.keyword@.len() == 0 || exists|i: int|
        0 <= i && i + text::lower_case(q.keyword@).len() <= text::lower_case(shown).len()
            && #[trigger] text::lower_case(shown).subrange(
            i,
            i + text::lower_case(q.keyword@).len(),
        ) == text::lower_case(q.keyword@)
    &&& covered(q.time_range@) matches Some(s) ==> made(n) >= now - s
}

/// What is shown of a node is made of what it holds, in the way of its label.
pub proof fn nodes_say_what_they_hold(n: RawNode)
    ensures
        memory::node_content("Episodic"@, n) == "["@ + or_nothing(n.role) + "] "@ + or_nothing(
            n.content,
        ),
        memory::node_content("Knowledge"@, n) == or_nothing(n.subject) + " "@ + or_nothing(
            n.predicate,
        ) + " "@ + or_nothing(n.object),
        memory::node_content("Procedural"@, n) == "When "@ + or_nothing(n.name) + ": "@
            + or_nothing(n.action_pattern),
        memory::node_content("Autobiographical"@, n) == or_nothing(n.key) + ": "@ + or_nothing(
            n.value,
        ),
        memory::label_texts() == seq![
            "Episodic"@,
            "Knowledge"@,
            "Procedural"@,
            "Autobiographical"@,
        ],
{
    reveal_strlit("Episodic");
    reveal_strlit("Knowledge");
    reveal_strlit("Procedural");
    reveal_strlit("Autobiographical");
    assert("Episodic"@.len() == 8 && "Knowledge"@.len() == 9 && "Procedural"@.len() == 10
        && "Autobiographical"@.len() == 16);
}

/// A node is shown with its number, its label and its times; one whose last use is not
/// known was used last when it was made, and one without a status is active.
pub proof fn nodes_are_shown_as_they_are(label: Seq<char>, n: RawNode)
    ensures
        ({
            let v = memory::shown_node(label, n);
            &&& v.node_id == n.node_id
            &&& v.node_type == label
            &&& v.content == memory::node_content(label, n)
            &&& v.created_at == made(n)
            &&& v.last_accessed_at == (match n.last_accessed_at {
                Some(t) => t as int,
                None => made(n),
            })
            &&& n.status matches Some(s) ==> v.status == s@
            &&& n.status is None ==> v.status == "Active"@
            &&& n.confidence matches Some(c) ==> v.confidence == (c.unsigned, c.literal@)
            &&& n.confidence is None ==> v.confidence.1 == "0.0"@
            &&& n.decay_score matches Some(c) ==> v.decay_score == (c.unsigned, c.literal@)
            &&& n.decay_score is None ==> v.decay_score.1 == "1.0"@
            &&& n.access_count is None ==> v.access_count == 0
            &&& n.access_count matches Some(c) ==> (0 <= c <= u32::MAX ==> v.access_count == c)
        }),
{
}

/// Of the nodes with one label a question finds exactly those that were made within its
/// time and hold its keyword, in their order.
pub proof fn nodes_are_found(q: MemoryNodesQuery, now: int, label: Seq<char>, ns: Seq<RawNode>, i: int)
    requires
        0 <= i <= ns.len(),
    ensures
        memory::answers_in(q, now, label, ns, i) == ns.take(i).filter(
            |n: RawNode| is_found(q, now, memory::node_content(label, n), n),
        ).map_values(|n: RawNode| memory::shown_node(label, n)),
    decreases i,
{
    reveal(Seq::filter);
    let p = |n: RawNode| is_found(q, now, memory::node_content(label, n), n);
    let f = |n: RawNode| memory::shown_node(label, n);
    let part = ns.take(i);
    if i > 0 {
        nodes_are_found(q, now, label, ns, i - 1);
        assert(part.drop_last() =~= ns.take(i - 1));
        assert(part.last() == ns[i - 1]);
        lemma_found(q, now, label, ns[i - 1]);
        let before = part.drop_last().filter(p);
        assert(before.push(part.last()).map_values(f) =~= before.map_values(f).push(f(part.last())));
    } else {
        assert(memory::answers_in(q, now, label, ns, i) =~= part.filter(p).map_values(f));
    }
}

proof fn lemma_found(q: MemoryNodesQuery, now: int, label: Seq<char>, n: RawNode)
    ensures
        memory::answers(q, now, label, n) == is_found(q, now, memory::node_content(label, n), n),
{
    let a = text::lower_case(memory::node_content(label, n));
    let b = text::lower_case(q.keyword@);
    if text::occurs_in(a, b) {
        let i = choose|i: int| text::stands_at(a, b, i);
        assert(a.subrange(i, i + b.len()) == b);
    }
    if exists|i: int| 0 <= i && i + b.len() <= a.len() && #[trigger] a.subrange(i, i + b.len()) == b {
        let i = choose|i: int|
            0 <= i && i + b.len() <= a.len() && #[trigger] a.subrange(i, i + b.len()) == b;
        assert(text::stands_at(a, b, i));
    }
}

/// A question for one label finds no nodes with another; without one it finds those of all
/// labels, in the order of the labels.
pub proof fn labels_are_kept_apart(
    q: MemoryNodesQuery,
    now: int,
    gs: Seq<LabelledNodes>,
    g: LabelledNodes,
)
    ensures
        ({
            let n = gs.len() as int;
            let more = gs.push(g);
            memory::all_answers(q, now, more, n + 1) == memory::all_answers(q, now, gs, n) + (
            if q.node_type@.len() == 0 || q.node_type@ == g.label@ {
                memory::answers_in(q, now, g.label@, g.nodes@, g.nodes@.len() as int)
            } else {
                Seq::empty()
            })
        }),
        memory::all_answers(q, now, Seq::empty(), 0).len() == 0,
        memory::node_count(gs.push(g), gs.len() as int + 1) == memory::node_count(
            gs,
            gs.len() as int,
        ) + g.nodes@.len(),
{
    let n = gs.len() as int;
    let more = gs.push(g);
    lemma_same_groups(q, now, gs, more, n);
    assert(more[n] == g);
    let before = memory::all_answers(q, now, gs, n);
    assert(before + Seq::<memory::NodeView>::empty() =~= before);
}

proof fn lemma_same_groups(
    q: MemoryNodesQuery,
    now: int,
    a: Seq<LabelledNodes>,
    b: Seq<LabelledNodes>,
    n: int,
)
    requires
        0 <= n <= a.len(),
        n <= b.len(),
        forall|k: int| 0 <= k < n ==> a[k] == b[k],
    ensures
        memory::all_answers(q, now, a, n) == memory::all_answers(q, now, b, n),
        memory::node_count(a, n) == memory::node_count(b, n),
    decreases n,
{
    if n > 0 {
        lemma_same_groups(q, now, a, b, n - 1);
    }
}

/// The pages of an answer are numbered from one and hold up to a hundred nodes, as many
/// as are asked for, but for none: the page with the number `k` begins behind the nodes
/// of the pages before it.
pub proof fn pages_hold_what_is_asked_for(all: Seq<memory::NodeView>, q: MemoryNodesQuery)
    ensures
        1 <= memory::page_size(q) <= 100,
        1 <= q.size <= 100 ==> memory::page_size(q) == q.size,
        q.size > 100 ==> memory::page_size(q) == 100,
        memory::page_number(q) >= 1,
        q.page >= 1 ==> memory::page_number(q) == q.page,
        ({
            let size = memory::page_size(q);
            let start = (memory::page_number(q) - 1) * size;
            let page = memory::page_of(all, memory::page_number(q), size);
            &&& start >= 0
            &&& page.len() <= size
            &&& start + size <= all.len() ==> page.len() == size
            &&& start < all.len() < start + size ==> page.len() == all.len() - start
            &&& start >= all.len() ==> page.len() == 0
            &&& forall|k: int| 0 <= k < page.len() ==> #[trigger] page[k] == all[start + k]
        }),
{
    let size = memory::page_size(q);
    let number = memory::page_number(q);
    assert((number - 1) * size >= 0) by (nonlinear_arith)
        requires
            number >= 1,
            size >= 1,
    ;
}

/// A question asks for something in particular where it has a keyword, a label or a time.
pub proof fn questions_are_told_apart(q: MemoryNodesQuery)
    ensures
        memory::has_filter(q) == !(q.keyword@.len() == 0 && q.node_type@.len() == 0 && (
        q.time_range@.len() == 0 || q.time_range@ == "all"@)),
{
}

/// More than ten thousand nodes are not looked through for a question that asks for nothing in
/// particular.
pub proof fn large_memories_are_not_looked_through()
    ensures
        memory::MAX_UNFILTERED_MEMORY_SCAN == 10_000,
{
}

/// The counts of the labels add up to the number of nodes.
pub proof fn label_counts_add_up(cs: Seq<LabelCount>, c: LabelCount)
    ensures
        memory::count_sum(Seq::empty(), 0) == 0,
        memory::count_sum(cs.push(c), cs.len() as int + 1) == memory::count_sum(
            cs,
            cs.len() as int,
        ) + c.count,
{
    lemma_same_counts(cs, cs.push(c), cs.len() as int);
}

proof fn lemma_same_counts(a: Seq<LabelCount>, b: Seq<LabelCount>, n: int)
    requires
        0 <= n <= a.len(),
        n <= b.len(),
        forall|k: int| 0 <= k < n ==> a[k] == b[k],
    ensures
        memory::count_sum(a, n) == memory::count_sum(b, n),
    decreases n,
{
    if n > 0 {
        lemma_same_counts(a, b, n - 1);
    }
}

} // verus!
