//! Display groups: runs of thoughts and tool entries are shown as one item.

use crate::conversation::entry::ConversationEntry;
use crate::conversation::entry;
use crate::text;
use vstd::prelude::*;

verus! {

/// The entry is shown as part of a run: a thought, a tool call or a tool result
/// that does not mark a compaction.
pub open spec fn folds(e: entry::EntryView) -> bool {
    !e.is_compaction() && (e.role == "thought"@ || e.role == "tool_call"@ || e.role
        == "tool_result"@)
}

/// A display group begins at `i`.
pub open spec fn opens_group(es: Seq<entry::EntryView>, i: int) -> bool {
    i == 0 || !folds(es[i]) || !folds(es[i - 1])
}

/// No display group lies on both sides of `i`.
pub open spec fn is_boundary(es: Seq<entry::EntryView>, i: int) -> bool {
    0 <= i <= es.len() && (i == es.len() || opens_group(es, i))
}

/// The number of display groups.
pub open spec fn group_count(es: Seq<entry::EntryView>) -> nat
    decreases es.len(),
{
    if es.len() == 0 {
        0
    } else if opens_group(es, es.len() - 1) {
        group_count(es.drop_last()) + 1
    } else {
        group_count(es.drop_last())
    }
}

/// The display groups before a boundary and behind it are all there are.
pub proof fn groups_add_up(es: Seq<entry::EntryView>, i: int)
    requires
        is_boundary(es, i),
    ensures
        group_count(es) == group_count(es.take(i)) + group_count(es.skip(i)),
    decreases es.len(),
{
    if i == es.len() {
        assert(es.take(i) =~= es);
        assert(es.skip(i).len() == 0);
    } else {
        let last = es.len() - 1;
        let rest = es.drop_last();
        if i == last {
            assert(es.skip(i).drop_last() =~= Seq::empty());
            assert(es.take(i) =~= rest);
            assert(group_count(es.skip(i).drop_last()) == 0);
            assert(opens_group(es.skip(i), 0));
        } else {
            assert(opens_group(rest, i));
            groups_add_up(rest, i);
            assert(rest.take(i) =~= es.take(i));
            assert(rest.skip(i) =~= es.skip(i).drop_last());
            assert(es.skip(i)[last - i] == es[last]);
            assert(es.skip(i)[last - i - 1] == es[last - 1]);
        }
    }
}

/// A page of display groups is not larger than its entries.
pub proof fn groups_are_not_more(es: Seq<entry::EntryView>)
    ensures
        group_count(es) <= es.len(),
        es.len() > 0 ==> group_count(es) > 0,
    decreases es.len(),
{
    if es.len() > 0 {
        groups_are_not_more(es.drop_last());
    }
}

/// There is a boundary behind any number of display groups, up to all.
pub proof fn groups_can_be_counted_off(es: Seq<entry::EntryView>, count: nat) -> (k: int)
    requires
        count <= group_count(es),
    ensures
        is_boundary(es, k),
        group_count(es.take(k)) == count,
        count == group_count(es) ==> k == es.len(),
    decreases es.len(),
{
    if count == group_count(es) {
        assert(es.take(es.len() as int) =~= es);
        es.len() as int
    } else {
        let rest = es.drop_last();
        let k = groups_can_be_counted_off(rest, count);
        assert(rest.take(k) =~= es.take(k));
        if k < rest.len() && k > 0 {
            assert(rest[k] == es[k]);
            assert(rest[k - 1] == es[k - 1]);
        }
        k
    }
}

fn does_fold(e: &ConversationEntry) -> (r: bool)
    ensures
        r == folds(e@),
{
    let role: &str = e.role.as_str();
    !e.is_compaction() && (text::same_text(role, "thought") || text::same_text(role, "tool_call")
        || text::same_text(role, "tool_result"))
}

fn does_open_group(entries: &Vec<ConversationEntry>, i: usize) -> (r: bool)
    requires
        i < entries@.len(),
    ensures
        r == opens_group(entry::entry_views(entries@), i as int),
{
    i == 0 || !does_fold(&entries[i]) || !does_fold(&entries[i - 1])
}

proof fn lemma_count_step(es: Seq<entry::EntryView>, i: int)
    requires
        0 <= i < es.len(),
    ensures
        group_count(es.take(i + 1)) == group_count(es.take(i)) + (if opens_group(es, i) {
            1nat
        } else {
            0
        }),
{
    let t = es.take(i + 1);
    assert(t.drop_last() =~= es.take(i));
    assert(t[i] == es[i]);
    if i > 0 {
        assert(t[i - 1] == es[i - 1]);
    }
}

/// The number of display groups.
pub fn count_display_groups(entries: &Vec<ConversationEntry>) -> (r: usize)
    ensures
        r == group_count(entry::entry_views(entries@)),
{
    let ghost es: Seq<entry::EntryView> = entry::entry_views(entries@);
    let mut groups: usize = 0;
    let mut i: usize = 0;
    while i < entries.len()
        invariant
            i <= entries@.len(),
            es == entry::entry_views(entries@),
            groups == group_count(es.take(i as int)),
            groups <= i,
        decreases entries@.len() - i,
    {
        proof {
            lemma_count_step(es, i as int);
        }
        if does_open_group(entries, i) {
            groups = groups + 1;
        }
        i = i + 1;
    }
    proof {
        assert(es.take(i as int) =~= es);
    }
    groups
}

/// The boundary with `count` display groups before it.
fn boundary_behind(entries: &Vec<ConversationEntry>, count: usize) -> (r: usize)
    requires
        count <= group_count(entry::entry_views(entries@)),
    ensures
        is_boundary(entry::entry_views(entries@), r as int),
        group_count(entry::entry_views(entries@).take(r as int)) == count,
{
    let ghost es: Seq<entry::EntryView> = entry::entry_views(entries@);
    let mut groups: usize = 0;
    let mut i: usize = 0;
    while i < entries.len()
        invariant
            i <= entries@.len(),
            es == entry::entry_views(entries@),
            groups == group_count(es.take(i as int)),
            groups <= i,
            groups <= count,
            count <= group_count(es),
        decreases entries@.len() - i,
    {
        proof {
            lemma_count_step(es, i as int);
        }
        if does_open_group(entries, i) {
            if groups == count {
                return i;
            }
            groups = groups + 1;
        }
        i = i + 1;
    }
    proof {
        assert(es.take(i as int) =~= es);
    }
    i
}

/// Where to cut the oldest entries off so that at most `max_groups` display
/// groups remain: the whole groups from there on.
pub fn trim_oldest_display_groups(
    entries: &Vec<ConversationEntry>,
    max_groups: usize,
) -> (r: usize)
    ensures
        ({
            let es = entry::entry_views(entries@);
            &&& is_boundary(es, r as int)
            &&& if group_count(es) <= max_groups {
                r == 0
            } else {
                group_count(es.skip(r as int)) == max_groups
            }
        }),
{
    let total: usize = count_display_groups(entries);
    if total <= max_groups {
        return 0;
    }
    let r: usize = boundary_behind(entries, total - max_groups);
    proof {
        groups_add_up(entry::entry_views(entries@), r as int);
    }
    r
}

/// How many of the oldest entries to keep so that at most `max_groups` display
/// groups remain: the whole groups up to there.
pub fn trim_newest_display_groups(
    entries: &Vec<ConversationEntry>,
    max_groups: usize,
) -> (r: usize)
    ensures
        ({
            let es = entry::entry_views(entries@);
            &&& is_boundary(es, r as int)
            &&& if group_count(es) <= max_groups {
                r == es.len()
            } else {
                group_count(es.take(r as int)) == max_groups
            }
        }),
{
    let total: usize = count_display_groups(entries);
    if total <= max_groups {
        return entries.len();
    }
    boundary_behind(entries, max_groups)
}

} // verus!
