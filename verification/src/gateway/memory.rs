//! Questions about the agent's memory, and their answers.

use crate::ids::Moment;
use crate::json::JsonNumber;
use crate::text;
use vstd::prelude::*;

verus! {

/// What a node of the memory may hold.
#[derive(Debug, PartialEq, Eq)]
pub struct RawNode {
    pub node_id: u64,
    pub role: Option<String>,
    pub content: Option<String>,
    pub subject: Option<String>,
    pub predicate: Option<String>,
    pub object: Option<String>,
    pub name: Option<String>,
    pub action_pattern: Option<String>,
    pub key: Option<String>,
    pub value: Option<String>,
    pub created_at: Option<i64>,
    pub last_accessed_at: Option<i64>,
    pub access_count: Option<i64>,
    pub confidence: Option<JsonNumber>,
    pub decay_score: Option<JsonNumber>,
    pub status: Option<String>,
}

/// The nodes with one label.
#[derive(Debug, PartialEq, Eq)]
pub struct LabelledNodes {
    pub label: String,
    pub nodes: Vec<RawNode>,
}

/// A question for nodes of the memory.
#[derive(Debug, PartialEq, Eq)]
pub struct MemoryNodesQuery {
    pub page: u32,
    pub size: u32,
    /// The label that is asked for; empty for all.
    pub node_type: String,
    /// What the nodes have to hold; empty for anything.
    pub keyword: String,
    /// `1h`, `1d`, `7d` or `30d`; empty or `all` for any time.
    pub time_range: String,
}

/// A node as it is shown.
#[derive(Debug, PartialEq, Eq)]
pub struct MemoryNodeEntry {
    pub node_id: u64,
    pub node_type: String,
    pub content: String,
    pub confidence: JsonNumber,
    pub decay_score: JsonNumber,
    pub created_at: i64,
    pub last_accessed_at: i64,
    pub access_count: u32,
    pub status: String,
}

/// What a node that is shown holds.
pub struct NodeView {
    pub node_id: u64,
    pub node_type: Seq<char>,
    pub content: Seq<char>,
    pub confidence: (Option<u64>, Seq<char>),
    pub decay_score: (Option<u64>, Seq<char>),
    pub created_at: i64,
    pub last_accessed_at: i64,
    pub access_count: u32,
    pub status: Seq<char>,
}

impl View for MemoryNodeEntry {
    type V = NodeView;

    open spec fn view(&self) -> NodeView {
        NodeView {
            node_id: self.node_id,
            node_type: self.node_type@,
            content: self.content@,
            confidence: (self.confidence.unsigned, self.confidence.literal@),
            decay_score: (self.decay_score.unsigned, self.decay_score.literal@),
            created_at: self.created_at,
            last_accessed_at: self.last_accessed_at,
            access_count: self.access_count,
            status: self.status@,
        }
    }
}

/// What each node of a sequence holds.
pub open spec fn node_views(ns: Seq<MemoryNodeEntry>) -> Seq<NodeView> {
    ns.map_values(|n: MemoryNodeEntry| n@)
}

/// The answer to a question for nodes.
#[derive(Debug, PartialEq, Eq)]
pub struct MemoryNodesResult {
    /// How many nodes there are that answer the question.
    pub total: u64,
    pub page: u32,
    pub size: u32,
    pub nodes: Vec<MemoryNodeEntry>,
}

/// How many nodes are looked at for a question that asks for nothing in
/// particular.
pub const MAX_UNFILTERED_MEMORY_SCAN: u64 = 10_000;

/// `o`, or nothing.
pub open spec fn or_nothing(o: Option<String>) -> Seq<char> {
    match o {
        Some(s) => s@,
        None => Seq::empty(),
    }
}

/// What a node says, in words.
pub open spec fn node_content(label: Seq<char>, n: RawNode) -> Seq<char> {
    if label == "Episodic"@ {
        "["@ + or_nothing(n.role) + "] "@ + or_nothing(n.content)
    } else if label == "Knowledge"@ {
        or_nothing(n.subject) + " "@ + or_nothing(n.predicate) + " "@ + or_nothing(n.object)
    } else if label == "Procedural"@ {
        "When "@ + or_nothing(n.name) + ": "@ + or_nothing(n.action_pattern)
    } else if label == "Autobiographical"@ {
        or_nothing(n.key) + ": "@ + or_nothing(n.value)
    } else {
        "Unknown"@
    }
}

fn append_opt(r: &mut String, o: &Option<String>)
    ensures
        final(r)@ == old(r)@ + or_nothing(*o),
{
    match o {
        Some(s) => {
            r.append(s.as_str());
        },
        None => {
            proof {
                assert(r@ + Seq::<char>::empty() =~= r@);
            }
        },
    }
}

/// What a node says, in words.
pub fn extract_node_content(label: &str, n: &RawNode) -> (r: String)
    ensures
        r@ == node_content(label@, *n),
{
    let mut r: String = String::new();
    if text::same_text(label, "Episodic") {
        r.append("[");
        append_opt(&mut r, &n.role);
        r.append("] ");
        append_opt(&mut r, &n.content);
    } else if text::same_text(label, "Knowledge") {
        append_opt(&mut r, &n.subject);
        r.append(" ");
        append_opt(&mut r, &n.predicate);
        r.append(" ");
        append_opt(&mut r, &n.object);
    } else if text::same_text(label, "Procedural") {
        r.append("When ");
        append_opt(&mut r, &n.name);
        r.append(": ");
        append_opt(&mut r, &n.action_pattern);
    } else if text::same_text(label, "Autobiographical") {
        append_opt(&mut r, &n.key);
        r.append(": ");
        append_opt(&mut r, &n.value);
    } else {
        r.append("Unknown");
    }
    proof {
        assert(r@ =~= node_content(label@, *n));
    }
    r
}

/// The time from which on nodes are asked for.
pub open spec fn cutoff(time_range: Seq<char>, now: int) -> Option<int> {
    if time_range == "1h"@ {
        Some(now - 3_600)
    } else if time_range == "1d"@ {
        Some(now - 86_400)
    } else if time_range == "7d"@ {
        Some(now - 604_800)
    } else if time_range == "30d"@ {
        Some(now - 2_592_000)
    } else {
        None
    }
}

/// A number, or the one that is written `literal`.
pub open spec fn number_or(o: Option<JsonNumber>, literal: Seq<char>) -> (Option<u64>, Seq<char>) {
    match o {
        Some(n) => (n.unsigned, n.literal@),
        None => (None, literal),
    }
}

/// When a node was made; long ago where that is not known.
pub open spec fn made_at(n: RawNode) -> i64 {
    match n.created_at {
        Some(t) => t,
        None => 0,
    }
}

/// A node as it is shown.
pub open spec fn shown_node(label: Seq<char>, n: RawNode) -> NodeView {
    NodeView {
        node_id: n.node_id,
        node_type: label,
        content: node_content(label, n),
        confidence: number_or(n.confidence, "0.0"@),
        decay_score: number_or(n.decay_score, "1.0"@),
        created_at: made_at(n),
        last_accessed_at: match n.last_accessed_at {
            Some(t) => t,
            None => made_at(n),
        },
        access_count: match n.access_count {
            Some(c) => c as u32,
            None => 0,
        },
        status: match n.status {
            Some(s) => s@,
            None => "Active"@,
        },
    }
}

/// A node answers the question.
pub open spec fn answers(q: MemoryNodesQuery, now: int, label: Seq<char>, n: RawNode) -> bool {
    &&& q.keyword@.len() == 0 || text::occurs_in(
        text::lower_case(node_content(label, n)),
        text::lower_case(q.keyword@),
    )
    &&& cutoff(q.time_range@, now) matches Some(t) ==> made_at(n) >= t
}

/// The nodes with a label are looked at.
pub open spec fn asks_for(q: MemoryNodesQuery, label: Seq<char>) -> bool {
    q.node_type@.len() == 0 || q.node_type@ == label
}

/// Of the first `i` of the nodes with one label, those that answer the question.
pub open spec fn answers_in(
    q: MemoryNodesQuery,
    now: int,
    label: Seq<char>,
    ns: Seq<RawNode>,
    i: int,
) -> Seq<NodeView>
    decreases i,
{
    if i <= 0 {
        Seq::empty()
    } else if answers(q, now, label, ns[i - 1]) {
        answers_in(q, now, label, ns, i - 1).push(shown_node(label, ns[i - 1]))
    } else {
        answers_in(q, now, label, ns, i - 1)
    }
}

/// Of the nodes with the first `i` labels, those that answer the question.
pub open spec fn all_answers(
    q: MemoryNodesQuery,
    now: int,
    gs: Seq<LabelledNodes>,
    i: int,
) -> Seq<NodeView>
    decreases i,
{
    if i <= 0 {
        Seq::empty()
    } else {
        let g = gs[i - 1];
        let before = all_answers(q, now, gs, i - 1);
        if asks_for(q, g.label@) {
            before + answers_in(q, now, g.label@, g.nodes@, g.nodes@.len() as int)
        } else {
            before
        }
    }
}

/// How many nodes there are with the first `i` labels.
pub open spec fn node_count(gs: Seq<LabelledNodes>, i: int) -> nat
    decreases i,
{
    if i <= 0 {
        0
    } else {
        node_count(gs, i - 1) + gs[i - 1].nodes@.len()
    }
}

/// The question asks for something in particular.
pub open spec fn has_filter(q: MemoryNodesQuery) -> bool {
    q.keyword@.len() > 0 || q.node_type@.len() > 0 || (q.time_range@.len() > 0 && q.time_range@
        != "all"@)
}

/// How many nodes a page has.
pub open spec fn page_size(q: MemoryNodesQuery) -> int {
    if q.size < 1 {
        1
    } else if q.size > 100 {
        100
    } else {
        q.size as int
    }
}

/// The number of the page, which is at least 1.
pub open spec fn page_number(q: MemoryNodesQuery) -> int {
    if q.page < 1 {
        1
    } else {
        q.page as int
    }
}

/// A page of `all`.
pub open spec fn page_of(all: Seq<NodeView>, number: int, size: int) -> Seq<NodeView> {
    let start = (number - 1) * size;
    if start >= all.len() {
        Seq::empty()
    } else if start + size >= all.len() {
        all.skip(start)
    } else {
        all.subrange(start, start + size)
    }
}

/// The pages follow one another: what stands before a page, and the page, is what
/// stands before the next.
pub proof fn pages_follow_one_another(all: Seq<NodeView>, number: int, size: int)
    requires
        number >= 1,
        size >= 1,
    ensures
        first_of(all, number * size) == first_of(all, (number - 1) * size) + page_of(
            all,
            number,
            size,
        ),
{
    assert(number * size == (number - 1) * size + size) by (nonlinear_arith);
    assert((number - 1) * size >= 0) by (nonlinear_arith)
        requires
            number >= 1,
            size >= 1,
    ;
    assert(first_of(all, number * size) =~= first_of(all, (number - 1) * size) + page_of(
        all,
        number,
        size,
    ));
}

/// The first `n` of `all`, or all of them.
pub open spec fn first_of(all: Seq<NodeView>, n: int) -> Seq<NodeView> {
    if n >= all.len() {
        all
    } else {
        all.take(n)
    }
}

fn time_cutoff(time_range: &str, now: i64) -> (r: Option<i64>)
    requires
        now >= i64::MIN + 2_592_000,
    ensures
        match r {
            Some(t) => cutoff(time_range@, now as int) == Some(t as int),
            None => cutoff(time_range@, now as int) is None,
        },
{
    if text::same_text(time_range, "1h") {
        Some(now - 3_600)
    } else if text::same_text(time_range, "1d") {
        Some(now - 86_400)
    } else if text::same_text(time_range, "7d") {
        Some(now - 604_800)
    } else if text::same_text(time_range, "30d") {
        Some(now - 2_592_000)
    } else {
        None
    }
}

fn read_number_or(o: &Option<JsonNumber>, literal: &str) -> (r: JsonNumber)
    ensures
        (r.unsigned, r.literal@) == number_or(*o, literal@),
{
    match o {
        Some(n) => n.clone(),
        None => JsonNumber { unsigned: None, literal: literal.to_string() },
    }
}

fn show_node(label: &str, n: &RawNode) -> (r: MemoryNodeEntry)
    ensures
        r@ == shown_node(label@, *n),
{
    let created_at: i64 = match n.created_at {
        Some(t) => t,
        None => 0,
    };
    MemoryNodeEntry {
        node_id: n.node_id,
        node_type: label.to_string(),
        content: extract_node_content(label, n),
        confidence: read_number_or(&n.confidence, "0.0"),
        decay_score: read_number_or(&n.decay_score, "1.0"),
        created_at,
        last_accessed_at: match n.last_accessed_at {
            Some(t) => t,
            None => created_at,
        },
        access_count: match n.access_count {
            Some(c) => #[verifier::truncate] (c as u32),
            None => 0,
        },
        status: match &n.status {
            Some(s) => s.clone(),
            None => "Active".to_string(),
        },
    }
}

fn does_answer(q: &MemoryNodesQuery, cut: Option<i64>, label: &str, n: &RawNode, now: Ghost<int>) -> (r:
    bool)
    requires
        match cut {
            Some(t) => cutoff(q.time_range@, now@) == Some(t as int),
            None => cutoff(q.time_range@, now@) is None,
        },
    ensures
        r == answers(*q, now@, label@, *n),
{
    if !q.keyword.as_str().is_empty() {
        let said: String = text::to_lower_case(extract_node_content(label, n).as_str());
        let sought: String = text::to_lower_case(q.keyword.as_str());
        if !text::contains_text(said.as_str(), sought.as_str()) {
            return false;
        }
    }
    match cut {
        Some(t) => {
            let made: i64 = match n.created_at {
                Some(c) => c,
                None => 0,
            };
            made >= t
        },
        None => true,
    }
}

fn push_node(r: &mut Vec<MemoryNodeEntry>, n: MemoryNodeEntry)
    ensures
        node_views(final(r)@) == node_views(old(r)@).push(n@),
{
    let ghost before: Seq<MemoryNodeEntry> = r@;
    r.push(n);
    proof {
        assert(node_views(r@) =~= node_views(before).push(n@));
    }
}

/// The nodes that answer a question at the time `now`, whatever their page.
pub fn matching_nodes(q: &MemoryNodesQuery, groups: &Vec<LabelledNodes>, now: &Moment) -> (r: Vec<
    MemoryNodeEntry,
>)
    requires
        now.seconds >= i64::MIN + 2_592_000,
    ensures
        node_views(r@) == all_answers(*q, now.seconds as int, groups@, groups@.len() as int),
{
    let cut: Option<i64> = time_cutoff(q.time_range.as_str(), now.seconds);
    let ghost t: int = now.seconds as int;
    let mut r: Vec<MemoryNodeEntry> = Vec::new();
    let mut i: usize = 0;
    proof {
        assert(node_views(r@) =~= all_answers(*q, t, groups@, 0));
    }
    while i < groups.len()
        invariant
            i <= groups@.len(),
            t == now.seconds,
            match cut {
                Some(x) => cutoff(q.time_range@, t) == Some(x as int),
                None => cutoff(q.time_range@, t) is None,
            },
            node_views(r@) == all_answers(*q, t, groups@, i as int),
        decreases groups@.len() - i,
    {
        let g: &LabelledNodes = &groups[i];
        let label: &str = g.label.as_str();
        if q.node_type.as_str().is_empty() || text::same_text(q.node_type.as_str(), label) {
            let ghost before: Seq<NodeView> = node_views(r@);
            let mut j: usize = 0;
            proof {
                assert(before + answers_in(*q, t, label@, g.nodes@, 0) =~= before);
            }
            while j < g.nodes.len()
                invariant
                    i < groups@.len(),
                    *g == groups@[i as int],
                    label@ == g.label@,
                    j <= g.nodes@.len(),
                    match cut {
                        Some(x) => cutoff(q.time_range@, t) == Some(x as int),
                        None => cutoff(q.time_range@, t) is None,
                    },
                    node_views(r@) == before + answers_in(*q, t, label@, g.nodes@, j as int),
                decreases g.nodes@.len() - j,
            {
                if does_answer(q, cut, label, &g.nodes[j], Ghost(t)) {
                    push_node(&mut r, show_node(label, &g.nodes[j]));
                    proof {
                        assert(node_views(r@) =~= before + answers_in(
                            *q,
                            t,
                            label@,
                            g.nodes@,
                            j + 1,
                        ));
                    }
                }
                j = j + 1;
            }
        }
        i = i + 1;
    }
    r
}

fn count_nodes(groups: &Vec<LabelledNodes>) -> (r: u64)
    requires
        node_count(groups@, groups@.len() as int) <= u64::MAX,
    ensures
        r == node_count(groups@, groups@.len() as int),
{
    let mut total: u64 = 0;
    let mut i: usize = 0;
    while i < groups.len()
        invariant
            i <= groups@.len(),
            node_count(groups@, groups@.len() as int) <= u64::MAX,
            total == node_count(groups@, i as int),
        decreases groups@.len() - i,
    {
        proof {
            lemma_node_count(groups@, i + 1, groups@.len() as int);
        }
        total = total + groups[i].nodes.len() as u64;
        i = i + 1;
    }
    total
}

proof fn lemma_node_count(gs: Seq<LabelledNodes>, i: int, n: int)
    requires
        i <= n,
    ensures
        node_count(gs, i) <= node_count(gs, n),
    decreases n - i,
{
    if i < n {
        lemma_node_count(gs, i, n - 1);
    }
}

/// The labels of the memory's nodes, in the order in which they are looked up.
pub open spec fn label_texts() -> Seq<Seq<char>> {
    seq!["Episodic"@, "Knowledge"@, "Procedural"@, "Autobiographical"@]
}

/// See `label_texts`.
pub fn memory_labels() -> (r: Vec<String>)
    ensures
        text::texts(r@) == label_texts(),
{
    let mut r: Vec<String> = Vec::new();
    r.push("Episodic".to_string());
    r.push("Knowledge".to_string());
    r.push("Procedural".to_string());
    r.push("Autobiographical".to_string());
    proof {
        assert(text::texts(r@) =~= label_texts());
    }
    r
}

/// The answer to a question for nodes at the time `now`, of the nodes that there
/// are by their labels, a group for each of `memory_labels` in that order; `None`
/// where there is no memory. A question that asks for
/// nothing in particular is not answered where there are too many nodes.
pub fn handle_memory_nodes_query(
    groups: &Option<Vec<LabelledNodes>>,
    q: &MemoryNodesQuery,
    now: &Moment,
) -> (r: MemoryNodesResult)
    requires
        now.seconds >= i64::MIN + 2_592_000,
        groups matches Some(gs) ==> node_count(gs@, gs@.len() as int) <= u64::MAX,
    ensures
        match *groups {
            None => r.total == 0 && r.page == q.page && r.size == q.size && r.nodes@.len() == 0,
            Some(gs) => {
                let count = node_count(gs@, gs@.len() as int);
                let all = all_answers(*q, now.seconds as int, gs@, gs@.len() as int);
                if !has_filter(*q) && count > MAX_UNFILTERED_MEMORY_SCAN {
                    r.total == count && r.page == q.page && r.size == q.size && r.nodes@.len() == 0
                } else {
                    r.total == all.len() && r.page == page_number(*q) && r.size == page_size(*q)
                        && node_views(r.nodes@) == page_of(all, page_number(*q), page_size(*q))
                }
            },
        },
{
    let gs: &Vec<LabelledNodes> = match groups {
        Some(gs) => gs,
        None => {
            return MemoryNodesResult {
                total: 0,
                page: q.page,
                size: q.size,
                nodes: Vec::new(),
            };
        },
    };
    let filtered: bool = !q.keyword.as_str().is_empty() || !q.node_type.as_str().is_empty() || (
    !q.time_range.as_str().is_empty() && !text::same_text(q.time_range.as_str(), "all"));
    if !filtered {
        let count: u64 = count_nodes(gs);
        if count > MAX_UNFILTERED_MEMORY_SCAN {
            return MemoryNodesResult {
                total: count,
                page: q.page,
                size: q.size,
                nodes: Vec::new(),
            };
        }
    }
    let mut all: Vec<MemoryNodeEntry> = matching_nodes(q, gs, now);
    let ghost views: Seq<NodeView> = node_views(all@);
    let total: usize = all.len();
    let page: u32 = if q.page < 1 {
        1
    } else {
        q.page
    };
    let size: u32 = if q.size < 1 {
        1
    } else if q.size > 100 {
        100
    } else {
        q.size
    };
    proof {
        assert(0 <= (page - 1) * size <= u32::MAX * 100) by (nonlinear_arith)
            requires
                1 <= page <= u32::MAX,
                1 <= size <= 100,
        ;
    }
    let start: u64 = (page as u64 - 1) * size as u64;
    let nodes: Vec<MemoryNodeEntry> = if start >= total as u64 {
        Vec::new()
    } else {
        let mut rest: Vec<MemoryNodeEntry> = all.split_off(start as usize);
        if size as u64 <= rest.len() as u64 {
            rest.truncate(size as usize);
        }
        rest
    };
    proof {
        assert(views.len() == total);
        assert(node_views(nodes@) =~= page_of(views, page as int, size as int));
    }
    MemoryNodesResult { total: total as u64, page, size, nodes }
}

/// Counts of the memory, as they are collected.
#[derive(Debug, PartialEq, Eq)]
pub struct CollectedStats {
    pub label_counts: Vec<LabelCount>,
    pub dormant_count: u64,
    pub purged_count: u64,
}

/// How many nodes have a label.
#[derive(Debug, PartialEq, Eq)]
pub struct LabelCount {
    pub label: String,
    pub count: u64,
}

/// What came of collecting the counts.
#[derive(Debug, PartialEq, Eq)]
pub enum StatsOutcome {
    NoStore,
    Collected(CollectedStats),
    Failed(String),
}

/// The answer to a question for counts.
#[derive(Debug, PartialEq, Eq)]
pub struct MemoryStatsResult {
    pub total_nodes: u64,
    pub by_type: Vec<LabelCount>,
    pub by_status: Vec<LabelCount>,
    pub index_health: String,
}

/// The sum of the first `i` counts.
pub open spec fn count_sum(cs: Seq<LabelCount>, i: int) -> nat
    decreases i,
{
    if i <= 0 {
        0
    } else {
        count_sum(cs, i - 1) + cs[i - 1].count as nat
    }
}

proof fn lemma_count_sum(cs: Seq<LabelCount>, i: int, n: int)
    requires
        i <= n,
    ensures
        count_sum(cs, i) <= count_sum(cs, n),
    decreases n - i,
{
    if i < n {
        lemma_count_sum(cs, i, n - 1);
    }
}

fn no_stats(health: String) -> (r: MemoryStatsResult)
    ensures
        r.total_nodes == 0,
        r.by_type@.len() == 0,
        r.by_status@.len() == 0,
        r.index_health == health,
{
    MemoryStatsResult {
        total_nodes: 0,
        by_type: Vec::new(),
        by_status: Vec::new(),
        index_health: health,
    }
}

/// The answer to a question for counts.
pub fn handle_memory_stats_query(outcome: StatsOutcome) -> (r: MemoryStatsResult)
    requires
        outcome matches StatsOutcome::Collected(s) ==> count_sum(
            s.label_counts@,
            s.label_counts@.len() as int,
        ) <= u64::MAX,
    ensures
        match outcome {
            StatsOutcome::NoStore => r.total_nodes == 0 && r.by_type@.len() == 0
                && r.by_status@.len() == 0 && r.index_health@ == "no_store"@,
            StatsOutcome::Failed(e) => r.total_nodes == 0 && r.by_type@.len() == 0
                && r.by_status@.len() == 0 && r.index_health@ == "error: "@ + e@,
            StatsOutcome::Collected(s) => {
                &&& r.total_nodes == count_sum(s.label_counts@, s.label_counts@.len() as int)
                &&& r.by_type@ == s.label_counts@
                &&& r.by_status@.len() == 2
                &&& r.by_status@[0].label@ == "dormant"@
                &&& r.by_status@[0].count == s.dormant_count
                &&& r.by_status@[1].label@ == "purged"@
                &&& r.by_status@[1].count == s.purged_count
                &&& r.index_health@ == "healthy"@
            },
        },
{
    match outcome {
        StatsOutcome::NoStore => no_stats("no_store".to_string()),
        StatsOutcome::Failed(e) => {
            let mut health: String = "error: ".to_string();
            health.append(e.as_str());
            no_stats(health)
        },
        StatsOutcome::Collected(s) => {
            let ghost cs: Seq<LabelCount> = s.label_counts@;
            let mut total: u64 = 0;
            let mut i: usize = 0;
            while i < s.label_counts.len()
                invariant
                    i <= s.label_counts@.len(),
                    cs == s.label_counts@,
                    count_sum(cs, cs.len() as int) <= u64::MAX,
                    total == count_sum(cs, i as int),
                decreases s.label_counts@.len() - i,
            {
                proof {
                    lemma_count_sum(cs, i + 1, cs.len() as int);
                }
                total = total + s.label_counts[i].count;
                i = i + 1;
            }
            let mut by_status: Vec<LabelCount> = Vec::new();
            by_status.push(LabelCount { label: "dormant".to_string(), count: s.dormant_count });
            by_status.push(LabelCount { label: "purged".to_string(), count: s.purged_count });
            MemoryStatsResult {
                total_nodes: total,
                by_type: s.label_counts,
                by_status,
                index_health: "healthy".to_string(),
            }
        },
    }
}

/// What came of deleting a node.
#[derive(Debug, PartialEq, Eq)]
pub enum DeleteOutcome {
    NoStore,
    Deleted(bool),
    Failed(String),
}

/// The answer to a request to delete a node.
#[derive(Debug, PartialEq, Eq)]
pub struct MemoryDeleteResult {
    pub node_id: u64,
    pub deleted: bool,
    pub message: String,
}

/// What is said where there is no memory.
pub const NO_MEMORY: &'static str = "Memory store not available";

/// The answer to a request to delete a node.
pub fn handle_memory_delete_query(node_id: u64, outcome: DeleteOutcome) -> (r: MemoryDeleteResult)
    ensures
        r.node_id == node_id,
        r.deleted == (outcome == DeleteOutcome::Deleted(true)),
        r.message@ == (match outcome {
            DeleteOutcome::NoStore => NO_MEMORY@,
            DeleteOutcome::Deleted(true) => "Node deleted"@,
            DeleteOutcome::Deleted(false) => "Node not found"@,
            DeleteOutcome::Failed(e) => "Error: "@ + e@,
        }),
{
    match outcome {
        DeleteOutcome::NoStore => MemoryDeleteResult {
            node_id,
            deleted: false,
            message: NO_MEMORY.to_string(),
        },
        DeleteOutcome::Deleted(true) => MemoryDeleteResult {
            node_id,
            deleted: true,
            message: "Node deleted".to_string(),
        },
        DeleteOutcome::Deleted(false) => MemoryDeleteResult {
            node_id,
            deleted: false,
            message: "Node not found".to_string(),
        },
        DeleteOutcome::Failed(e) => {
            let mut message: String = "Error: ".to_string();
            message.append(e.as_str());
            MemoryDeleteResult { node_id, deleted: false, message }
        },
    }
}

/// How many memories are consolidated at once.
pub const CONSOLIDATION_BATCH: u64 = 50;

/// How old a memory has to be before it is consolidated, in hours.
pub fn consolidation_age(force: bool) -> (r: u64)
    ensures
        r == (if force {
            0u64
        } else {
            1
        }),
{
    if force {
        0
    } else {
        1
    }
}

/// What came of a consolidation.
#[derive(Debug, PartialEq, Eq)]
pub enum ConsolidationOutcome {
    NoStore,
    Done { duration_ms: u64, upgraded: u64, kept_pending: u64, marked_dormant: u64 },
    Failed(String),
}

/// The answer to a request for a consolidation.
#[derive(Debug, PartialEq, Eq)]
pub struct MemoryConsolidateResult {
    pub started: bool,
    pub duration_ms: u64,
    pub episodes_consolidated: u64,
    pub knowledge_nodes_generated: u64,
    pub message: String,
}

fn no_consolidation(message: String) -> (r: MemoryConsolidateResult)
    ensures
        r == (MemoryConsolidateResult {
            started: false,
            duration_ms: 0,
            episodes_consolidated: 0,
            knowledge_nodes_generated: 0,
            message,
        }),
{
    MemoryConsolidateResult {
        started: false,
        duration_ms: 0,
        episodes_consolidated: 0,
        knowledge_nodes_generated: 0,
        message,
    }
}

/// The answer to a request for a consolidation.
pub fn handle_memory_consolidate_query(outcome: ConsolidationOutcome) -> (r:
    MemoryConsolidateResult)
    ensures
        match outcome {
            ConsolidationOutcome::NoStore => r == (MemoryConsolidateResult {
                started: false,
                duration_ms: 0,
                episodes_consolidated: 0,
                knowledge_nodes_generated: 0,
                message: r.message,
            }) && r.message@ == NO_MEMORY@,
            ConsolidationOutcome::Failed(e) => r == (MemoryConsolidateResult {
                started: false,
                duration_ms: 0,
                episodes_consolidated: 0,
                knowledge_nodes_generated: 0,
                message: r.message,
            }) && r.message@ == "Consolidation error: "@ + e@,
            ConsolidationOutcome::Done { duration_ms, upgraded, kept_pending, marked_dormant } => r
                == (MemoryConsolidateResult {
                started: true,
                duration_ms,
                episodes_consolidated: upgraded,
                knowledge_nodes_generated: 0,
                message: r.message,
            }) && r.message@ == "Upgraded: "@ + text::decimal(upgraded as nat)
                + ", Kept pending: "@ + text::decimal(kept_pending as nat) + ", Marked dormant: "@
                + text::decimal(marked_dormant as nat),
        },
{
    match outcome {
        ConsolidationOutcome::NoStore => no_consolidation(NO_MEMORY.to_string()),
        ConsolidationOutcome::Failed(e) => {
            let mut message: String = "Consolidation error: ".to_string();
            message.append(e.as_str());
            no_consolidation(message)
        },
        ConsolidationOutcome::Done { duration_ms, upgraded, kept_pending, marked_dormant } => {
            let mut message: String = "Upgraded: ".to_string();
            message.append(text::decimal_text(upgraded).as_str());
            message.append(", Kept pending: ");
            message.append(text::decimal_text(kept_pending).as_str());
            message.append(", Marked dormant: ");
            message.append(text::decimal_text(marked_dormant).as_str());
            MemoryConsolidateResult {
                started: true,
                duration_ms,
                episodes_consolidated: upgraded,
                knowledge_nodes_generated: 0,
                message,
            }
        },
    }
}

} // verus!
