//! What is known of models and providers, and what a session is told of itself.

use crate::agent::agent_core::{DeclaredCapability, ManifestIdentity, ModelItem, NamedCapabilities, ProviderAccess};
use crate::agent::agent_core::{ProviderKey, ProviderListItem, SharedProviders};
use crate::agent::agent_core;
use crate::agent::compaction;
use crate::agent::session_core;
use crate::agent::session_state::TodoStatus;
use crate::agent::session_state;
use crate::agent::streaming::StreamingStateMap;
use crate::conversation::since;
use crate::conversation::entry;
use crate::ids::Moment;
use crate::json;
use vstd::prelude::*;

verus! {

/// A model is looked up by its identifier: the first provider that has one with that
/// identifier gives it, and none is given only where none has it.
pub proof fn models_are_found_by_name(ps: Seq<ProviderListItem>, id: Seq<char>)
    ensures
        match agent_core::model_of(ps, id) {
            Some(m) => m.id@ == id && exists|i: int, j: int|
                0 <= i < ps.len() && 0 <= j < ps[i].models@.len() && #[trigger] ps[i].models@[j] == m
                    && is_first_model(ps, id, i, j),
            None => forall|i: int, j: int|
                0 <= i < ps.len() && 0 <= j < ps[i].models@.len() ==> (
                #[trigger] ps[i].models@[j]).id@ != id,
        },
{
    lemma_found_model(ps, id, 0);
    if let Some((i, j)) = agent_core::found_model(ps, id, 0) {
        assert(ps[i].models@[j] == agent_core::model_of(ps, id)->0);
        assert(is_first_model(ps, id, i, j));
    }
}

/// No model before the one at `(i, j)` has the identifier `id`.
pub open spec fn is_first_model(ps: Seq<ProviderListItem>, id: Seq<char>, i: int, j: int) -> bool {
    forall|k: int, l: int|
        0 <= k < ps.len() && 0 <= l < ps[k].models@.len() && (k < i || (k == i && l < j)) ==> (
        #[trigger] ps[k].models@[l]).id@ != id
}

proof fn lemma_model_at(ms: Seq<ModelItem>, id: Seq<char>, from: int)
    requires
        0 <= from,
    ensures
        match agent_core::model_at(ms, id, from) {
            Some(j) => from <= j < ms.len() && ms[j].id@ == id && forall|l: int|
                from <= l < j ==> (#[trigger] ms[l]).id@ != id,
            None => forall|l: int| from <= l < ms.len() ==> (#[trigger] ms[l]).id@ != id,
        },
    decreases ms.len() - from,
{
    if from < ms.len() && ms[from].id@ != id {
        lemma_model_at(ms, id, from + 1);
    }
}

proof fn lemma_found_model(ps: Seq<ProviderListItem>, id: Seq<char>, from: int)
    requires
        0 <= from,
    ensures
        match agent_core::found_model(ps, id, from) {
            Some((i, j)) => from <= i < ps.len() && 0 <= j < ps[i].models@.len()
                && ps[i].models@[j].id@ == id && forall|k: int, l: int|
                from <= k < ps.len() && 0 <= l < ps[k].models@.len() && (k < i || (k == i && l < j))
                    ==> (#[trigger] ps[k].models@[l]).id@ != id,
            None => forall|k: int, l: int|
                from <= k < ps.len() && 0 <= l < ps[k].models@.len() ==> (
                #[trigger] ps[k].models@[l]).id@ != id,
        },
    decreases ps.len() - from,
{
    if from < ps.len() {
        lemma_model_at(ps[from].models@, id, 0);
        if agent_core::model_at(ps[from].models@, id, 0) is None {
            lemma_found_model(ps, id, from + 1);
        }
    }
}

proof fn lemma_provider_at(ps: Seq<ProviderListItem>, id: Seq<char>, from: int)
    requires
        0 <= from,
    ensures
        match agent_core::provider_at(ps, id, from) {
            Some(i) => from <= i < ps.len() && ps[i].id@ == id && forall|k: int|
                from <= k < i ==> (#[trigger] ps[k]).id@ != id,
            None => forall|k: int| from <= k < ps.len() ==> (#[trigger] ps[k]).id@ != id,
        },
    decreases ps.len() - from,
{
    if from < ps.len() && ps[from].id@ != id {
        lemma_provider_at(ps, id, from + 1);
    }
}

/// The key of a provider is the first that is kept under its identifier.
pub proof fn keys_are_found_by_provider(ks: Seq<ProviderKey>, id: Seq<char>, from: int)
    requires
        0 <= from,
    ensures
        match agent_core::key_at(ks, id, from) {
            Some(key) => exists|i: int|
                from <= i < ks.len() && (#[trigger] ks[i]).provider_id@ == id && ks[i].api_key@
                    == key && forall|k: int| from <= k < i ==> (#[trigger] ks[k]).provider_id@ != id,
            None => forall|k: int| from <= k < ks.len() ==> (#[trigger] ks[k]).provider_id@ != id,
        },
    decreases ks.len() - from,
{
    if from < ks.len() {
        if ks[from].provider_id@ != id {
            keys_are_found_by_provider(ks, id, from + 1);
            if let Some(key) = agent_core::key_at(ks, id, from + 1) {
                let i = choose|i: int|
                    from + 1 <= i < ks.len() && (#[trigger] ks[i]).provider_id@ == id
                        && ks[i].api_key@ == key && forall|k: int|
                        from + 1 <= k < i ==> (#[trigger] ks[k]).provider_id@ != id;
                assert(ks[i].provider_id@ == id);
            }
        } else {
            assert(ks[from].provider_id@ == id);
        }
    }
}

/// A provider is reached by what the list says of it and with its own key: where it has
/// no address of its own, none is given, and one that is not listed cannot be reached.
pub proof fn providers_are_reached_as_listed(
    shared: SharedProviders,
    id: Seq<char>,
    o: Option<ProviderAccess>,
)
    requires
        agent_core::is_access(shared, id, o),
    ensures
        match o {
            Some(a) => a.id@ == id && exists|i: int|
                0 <= i < shared.global_provider_list@.len() && (
                #[trigger] shared.global_provider_list@[i]).id@ == id
                    && shared.global_provider_list@[i].protocol_type == a.protocol_type && (
                match a.base_url {
                    Some(u) => u@ == shared.global_provider_list@[i].base_url@ && u@.len() > 0,
                    None => shared.global_provider_list@[i].base_url@.len() == 0,
                }) && forall|k: int|
                    0 <= k < i ==> (#[trigger] shared.global_provider_list@[k]).id@ != id,
            None => forall|k: int|
                0 <= k < shared.global_provider_list@.len() ==> (
                #[trigger] shared.global_provider_list@[k]).id@ != id,
        },
        o matches Some(a) ==> (a.api_key matches Some(key) ==> exists|k: int|
            0 <= k < shared.provider_key_vault@.len() && (
            #[trigger] shared.provider_key_vault@[k]).provider_id@ == id
                && shared.provider_key_vault@[k].api_key@ == key@),
        o matches Some(a) ==> (a.api_key is None ==> forall|k: int|
            0 <= k < shared.provider_key_vault@.len() ==> (
            #[trigger] shared.provider_key_vault@[k]).provider_id@ != id),
{
    lemma_provider_at(shared.global_provider_list@, id, 0);
    keys_are_found_by_provider(shared.provider_key_vault@, id, 0);
    if let Some(i) = agent_core::provider_at(shared.global_provider_list@, id, 0) {
        assert(shared.global_provider_list@[i].id@ == id);
    }
}

/// The model for the consolidation of the memory is the first of the first provider that
/// has any.
pub proof fn first_model_there_is(ps: Seq<ProviderListItem>, from: int, i: int)
    requires
        0 <= from <= i < ps.len(),
        forall|k: int| from <= k < i ==> (#[trigger] ps[k]).models@.len() == 0,
        ps[i].models@.len() > 0,
    ensures
        agent_core::first_model(ps, from) == ps[i].models@[0].id@,
    decreases i - from,
{
    if from < i {
        first_model_there_is(ps, from + 1, i);
    }
}

/// Where no provider has any model, that for the consolidation is called so.
pub proof fn no_model_is_the_default(ps: Seq<ProviderListItem>, from: int)
    requires
        0 <= from,
        forall|k: int| from <= k < ps.len() ==> (#[trigger] ps[k]).models@.len() == 0,
    ensures
        agent_core::first_model(ps, from) == "default"@,
    decreases ps.len() - from,
{
    if from < ps.len() {
        no_model_is_the_default(ps, from + 1);
    }
}

/// Of the models that are listed, each identifier is named once, with what the last model
/// with that identifier can do.
pub proof fn last_model_of_a_name_counts(ns: Seq<NamedCapabilities>, n: int)
    requires
        0 <= n <= ns.len(),
    ensures
        forall|i: int|
            0 <= i < n && (forall|j: int| i < j < ns.len() ==> (#[trigger] ns[j]).id@ != ns[i].id@)
                ==> agent_core::last_named(ns, n).contains(#[trigger] ns[i]),
        forall|k: int|
            0 <= k < agent_core::last_named(ns, n).len() ==> exists|i: int|
                0 <= i < n && ns[i] == #[trigger] agent_core::last_named(ns, n)[k] && forall|j: int|
                    i < j < ns.len() ==> (#[trigger] ns[j]).id@ != ns[i].id@,
    decreases n,
{
    let r = agent_core::last_named(ns, n);
    if n > 0 {
        last_model_of_a_name_counts(ns, n - 1);
        let before = agent_core::last_named(ns, n - 1);
        assert forall|i: int|
            0 <= i < n && (forall|j: int| i < j < ns.len() ==> (#[trigger] ns[j]).id@
                != ns[i].id@) implies r.contains(#[trigger] ns[i]) by {
            if i < n - 1 {
                assert(before.contains(ns[i]));
                let k = choose|k: int| 0 <= k < before.len() && before[k] == ns[i];
                assert(r[k] == ns[i]);
            } else {
                assert(!agent_core::is_repeated(ns, n - 1));
                assert(r[before.len() as int] == ns[i]);
            }
        }
        assert forall|k: int| 0 <= k < r.len() implies exists|i: int|
            0 <= i < n && ns[i] == #[trigger] r[k] && forall|j: int|
                i < j < ns.len() ==> (#[trigger] ns[j]).id@ != ns[i].id@ by {
            if k < before.len() {
                assert(r[k] == before[k]);
                let i = choose|i: int|
                    0 <= i < n - 1 && ns[i] == before[k] && forall|j: int|
                        i < j < ns.len() ==> (#[trigger] ns[j]).id@ != ns[i].id@;
                assert(ns[i] == r[k]);
            } else {
                assert(ns[n - 1] == r[k]);
                assert(!agent_core::is_repeated(ns, n - 1));
                assert forall|j: int| n - 1 < j < ns.len() implies (#[trigger] ns[j]).id@ != ns[n
                    - 1].id@ by {
                    if ns[j].id@ == ns[n - 1].id@ {
                        assert(agent_core::is_repeated(ns, n - 1));
                    }
                }
            }
        }
    }
}

/// All models of all providers are listed, in their order.
pub proof fn all_models_are_listed(ps: Seq<ProviderListItem>, n: int, i: int, j: int) -> (k: int)
    requires
        0 <= i < n <= ps.len(),
        0 <= j < ps[i].models@.len(),
    ensures
        0 <= k < agent_core::all_models(ps, n).len(),
        agent_core::all_models(ps, n)[k] == ps[i].models@[j],
        agent_core::named(agent_core::all_models(ps, n))[k].id == ps[i].models@[j].id,
        agent_core::named(agent_core::all_models(ps, n))[k].capabilities
            == ps[i].models@[j].capabilities,
    decreases n,
{
    let before = agent_core::all_models(ps, n - 1);
    if i == n - 1 {
        before.len() + j
    } else {
        all_models_are_listed(ps, n - 1, i, j)
    }
}

/// An agent starts with memories of who it is: its identifier, its name and its
/// description, and the names that its manifest may give.
pub proof fn agents_know_who_they_are(m: ManifestIdentity)
    ensures
        ({
            let es = agent_core::identity_entries(m);
            &&& es.len() == 3 + (if m.display_name is Some {
                1int
            } else {
                0
            }) + (if m.role is Some {
                1int
            } else {
                0
            })
            &&& es[0].1 == "agent_id"@ && es[0].2 == m.agent_id@
            &&& es[1].1 == "name"@ && es[1].2 == m.name@
            &&& es[2].1 == "description"@ && es[2].2 == m.description@
            &&& m.display_name matches Some(s) ==> es[3].1 == "display_name"@ && es[3].2 == s@
            &&& m.role matches Some(s) ==> es.last().1 == "role"@ && es.last().2 == s@
            &&& forall|i: int|
                0 <= i < es.len() ==> (#[trigger] es[i]).0 == agent_core::AutobioCategory::Identity
        }),
{
}

/// A list of tasks without repeated identifiers.
pub open spec fn are_distinct(ts: Seq<session_state::TodoView>) -> bool {
    forall|i: int, j: int|
        0 <= i < j < ts.len() ==> (#[trigger] ts[i]).id != (#[trigger] ts[j]).id
}

proof fn lemma_index(ts: Seq<session_state::TodoView>, id: Seq<char>, from: int)
    requires
        0 <= from <= ts.len(),
    ensures
        ({
            let i = session_state::todo_index(ts, id, from);
            &&& from <= i <= ts.len()
            &&& i < ts.len() ==> ts[i].id == id
            &&& forall|k: int| from <= k < i ==> (#[trigger] ts[k]).id != id
        }),
    decreases ts.len() - from,
{
    if from < ts.len() && ts[from].id != id {
        lemma_index(ts, id, from + 1);
    }
}

proof fn lemma_upserted(ts: Seq<session_state::TodoView>, t: session_state::TodoView)
    requires
        are_distinct(ts),
    ensures
        ({
            let r = session_state::upserted(ts, t);
            &&& are_distinct(r)
            &&& r.contains(t)
            &&& forall|i: int| 0 <= i < ts.len() && ts[i].id != t.id ==> r.contains(#[trigger] ts[i])
            &&& forall|i: int|
                0 <= i < r.len() ==> (#[trigger] r[i]) == t || (r[i].id != t.id && ts.contains(r[i]))
        }),
{
    let r = session_state::upserted(ts, t);
    lemma_index(ts, t.id, 0);
    let i = session_state::todo_index(ts, t.id, 0);
    if i < ts.len() {
        assert(r[i] == t);
    } else {
        assert(r[ts.len() as int] == t);
    }
    assert forall|k: int| 0 <= k < ts.len() && ts[k].id != t.id implies r.contains(
        #[trigger] ts[k],
    ) by {
        assert(r[k] == ts[k]);
    }
    assert forall|k: int| 0 <= k < r.len() implies (#[trigger] r[k]) == t || (r[k].id != t.id
        && ts.contains(r[k])) by {
        if k != i {
            assert(r[k] == ts[k]);
            if i < ts.len() {
                assert(ts[i].id == t.id);
                if k < i {
                    assert(ts[k].id != ts[i].id);
                } else {
                    assert(ts[i].id != ts[k].id);
                }
            }
        }
    }
    assert forall|a: int, b: int| 0 <= a < b < r.len() implies (#[trigger] r[a]).id != (
    #[trigger] r[b]).id by {
        if a != i && b != i {
            assert(ts[a].id != ts[b].id);
        } else if a == i {
            assert(r[b] == ts[b]);
            assert(ts[i].id != ts[b].id);
        } else {
            assert(r[a] == ts[a]);
        }
    }
}

proof fn lemma_absorbed(
    ts: Seq<session_state::TodoView>,
    items: Seq<session_state::TodoView>,
    n: int,
)
    requires
        are_distinct(ts),
        are_distinct(items),
        0 <= n <= items.len(),
    ensures
        ({
            let r = session_state::absorbed(ts, items, n);
            &&& are_distinct(r)
            &&& forall|i: int| 0 <= i < n ==> r.contains(#[trigger] items[i])
        }),
    decreases n,
{
    if n > 0 {
        lemma_absorbed(ts, items, n - 1);
        let before = session_state::absorbed(ts, items, n - 1);
        let r = session_state::absorbed(ts, items, n);
        lemma_upserted(before, items[n - 1]);
        assert forall|i: int| 0 <= i < n implies r.contains(#[trigger] items[i]) by {
            if i < n - 1 {
                assert(items[i].id != items[n - 1].id);
                assert(before.contains(items[i]));
                let k = choose|k: int| 0 <= k < before.len() && before[k] == items[i];
                assert(r.contains(before[k]));
            }
        }
    }
}

/// A list of tasks that was brought to where `items` are holds each of them as it is, and
/// nothing else: what a task says and how far it has come are those of the item.
pub proof fn merged_todos_are_the_items(
    ts: Seq<session_state::TodoView>,
    items: Seq<session_state::TodoView>,
)
    requires
        are_distinct(ts),
        are_distinct(items),
    ensures
        ({
            let r = session_state::merged_todos(ts, items);
            &&& are_distinct(r)
            &&& forall|i: int| 0 <= i < items.len() ==> r.contains(#[trigger] items[i])
            &&& forall|k: int| 0 <= k < r.len() ==> items.contains(#[trigger] r[k])
        }),
{
    let all = session_state::absorbed(ts, items, items.len() as int);
    let p = |t: session_state::TodoView| session_state::names_todo(items, t.id);
    let r = all.filter(p);
    lemma_absorbed(ts, items, items.len() as int);
    crate::list::lemma_filter_members(all, p);
    assert forall|i: int| 0 <= i < items.len() implies r.contains(#[trigger] items[i]) by {
        assert(all.contains(items[i]));
        let k = choose|k: int| 0 <= k < all.len() && all[k] == items[i];
        assert(session_state::names_todo(items, items[i].id));
        assert(p(all[k]));
    }
    assert forall|k: int| 0 <= k < r.len() implies items.contains(#[trigger] r[k]) by {
        assert(p(r[k]));
        let i = choose|i: int| 0 <= i < items.len() && (#[trigger] items[i]).id == r[k].id;
        assert(all.contains(items[i]));
        let x = choose|x: int| 0 <= x < all.len() && all[x] == items[i];
        let y = choose|y: int| 0 <= y < all.len() && all[y] == r[k];
        if x < y {
            assert(all[x].id != all[y].id);
        } else if y < x {
            assert(all[y].id != all[x].id);
        }
    }
    lemma_filter_distinct(all, p);
}

proof fn lemma_filter_distinct(
    s: Seq<session_state::TodoView>,
    p: spec_fn(session_state::TodoView) -> bool,
)
    requires
        are_distinct(s),
    ensures
        are_distinct(s.filter(p)),
    decreases s.len(),
{
    reveal(Seq::filter);
    if s.len() > 0 {
        let t = s.drop_last();
        assert forall|i: int, j: int| 0 <= i < j < t.len() implies (#[trigger] t[i]).id != (
        #[trigger] t[j]).id by {
            assert(s[i].id != s[j].id);
        }
        lemma_filter_distinct(t, p);
        if p(s.last()) {
            let f = t.filter(p);
            let g = s.filter(p);
            assert forall|i: int, j: int| 0 <= i < j < g.len() implies (#[trigger] g[i]).id != (
            #[trigger] g[j]).id by {
                if j < f.len() {
                    assert(f[i].id != f[j].id);
                } else {
                    crate::list::lemma_filter_members(t, p);
                    assert(t.contains(f[i]));
                    let k = choose|k: int| 0 <= k < t.len() && t[k] == f[i];
                    assert(s[k].id != s[s.len() - 1].id);
                }
            }
        }
    }
}

/// Bringing an empty list to where items are gives the items, in their order.
pub proof fn new_todos_keep_their_order(items: Seq<session_state::TodoView>)
    requires
        are_distinct(items),
    ensures
        session_state::merged_todos(Seq::empty(), items) == items,
{
    lemma_fresh(items, items.len() as int);
    assert(items.take(items.len() as int) =~= items);
    let p = |t: session_state::TodoView| session_state::names_todo(items, t.id);
    assert forall|i: int| 0 <= i < items.len() implies p(#[trigger] items[i]) by {
    }
    crate::list::lemma_filter_all(items, p);
}

proof fn lemma_fresh(items: Seq<session_state::TodoView>, n: int)
    requires
        are_distinct(items),
        0 <= n <= items.len(),
    ensures
        session_state::absorbed(Seq::empty(), items, n) == items.take(n),
    decreases n,
{
    if n > 0 {
        lemma_fresh(items, n - 1);
        let before = items.take(n - 1);
        let t = items[n - 1];
        lemma_index(before, t.id, 0);
        let i = session_state::todo_index(before, t.id, 0);
        if i < before.len() {
            assert(items[i].id != items[n - 1].id);
        }
        assert(before.push(t) =~= items.take(n));
    } else {
        assert(items.take(0) =~= Seq::empty());
    }
}

/// A task is shown with how far it has come, what it says, and its identifier.
pub proof fn todos_show_how_far_they_are(t: session_state::TodoView)
    ensures
        session_state::todo_line(t) == (match t.status {
            TodoStatus::Pending => "- [ ] "@,
            TodoStatus::InProgress => "- [-] "@,
            TodoStatus::Completed => "- [x] "@,
        }) + t.content + " ("@ + t.id + ")"@,
{
    reveal_strlit("- [");
    reveal_strlit("] ");
    reveal_strlit(" ");
    reveal_strlit("-");
    reveal_strlit("x");
    reveal_strlit("- [ ] ");
    reveal_strlit("- [-] ");
    reveal_strlit("- [x] ");
    let head = match t.status {
        TodoStatus::Pending => "- [ ] "@,
        TodoStatus::InProgress => "- [-] "@,
        TodoStatus::Completed => "- [x] "@,
    };
    assert("- ["@ + session_state::todo_mark(t.status) + "] "@ =~= head);
}

/// What is told of a session is what it does: the name of its status and what belongs to
/// it.
pub proof fn status_is_told(s: session_state::StatusView)
    ensures
        ({
            let v = session_state::status_json(s);
            let d = v.get("detail"@);
            &&& v.get("status"@) == Some(
                json::JsonView::Text(
                    match s {
                        session_state::StatusView::Idle => "idle"@,
                        session_state::StatusView::Streaming(_) => "streaming"@,
                        session_state::StatusView::WaitingApproval(_) => "waiting_approval"@,
                        session_state::StatusView::Paused(_, _, _) => "paused"@,
                    },
                ),
            )
            &&& match s {
                session_state::StatusView::Idle => d is None,
                session_state::StatusView::Streaming(id) => d is Some && d->0.get("message_id"@)
                    == Some(
                    match id {
                        Some(t) => json::JsonView::Text(t),
                        None => json::JsonView::Null,
                    },
                ),
                session_state::StatusView::WaitingApproval(id) => d is Some && d->0.get(
                    "request_id"@,
                ) == Some(json::JsonView::Text(id)),
                session_state::StatusView::Paused(i, m, info) => d is Some && d->0.get(
                    "iteration"@,
                ) == Some(
                    match i {
                        Some(n) => json::integer_view(n as u64),
                        None => json::JsonView::Null,
                    },
                ) && d->0.get("max_iterations"@) == Some(
                    match m {
                        Some(n) => json::integer_view(n as u64),
                        None => json::JsonView::Null,
                    },
                ) && match info {
                    Some(x) => d->0.get("retry_info"@) matches Some(r) && r.get("wait_ms"@) == Some(
                        json::integer_view(x.0),
                    ) && r.get("attempt"@) == Some(json::integer_view(x.1 as u64)) && r.get(
                        "max_attempts"@,
                    ) == Some(json::integer_view(x.2 as u64)) && r.get("provider"@) == Some(
                        json::JsonView::Text(x.3),
                    ),
                    None => d->0.get("retry_info"@) is None,
                },
            }
        }),
{
    reveal_strlit("status");
    reveal_strlit("detail");
    reveal_strlit("iteration");
    reveal_strlit("max_iterations");
    reveal_strlit("retry_info");
    reveal_strlit("wait_ms");
    reveal_strlit("attempt");
    reveal_strlit("max_attempts");
    reveal_strlit("provider");
    assert("status"@[0] != "detail"@[0]);
    assert("iteration"@.len() == 9 && "max_iterations"@.len() == 14 && "retry_info"@.len() == 10);
    assert("wait_ms"@.len() == 7 && "attempt"@.len() == 7 && "max_attempts"@.len() == 12
        && "provider"@.len() == 8);
    assert("wait_ms"@[0] != "attempt"@[0]);
    let v = session_state::status_json(s)->Object_0;
    entry::lemma_lookup(v, "status"@, 0);
    entry::lemma_lookup(v, "detail"@, 1);
    match s {
        session_state::StatusView::Idle => {},
        session_state::StatusView::Streaming(id) => {
            entry::lemma_lookup(v[1].1->Object_0, "message_id"@, 0);
        },
        session_state::StatusView::WaitingApproval(id) => {
            entry::lemma_lookup(v[1].1->Object_0, "request_id"@, 0);
        },
        session_state::StatusView::Paused(i, m, info) => {
            let d = v[1].1->Object_0;
            entry::lemma_lookup(d, "iteration"@, 0);
            entry::lemma_lookup(d, "max_iterations"@, 1);
            entry::lemma_lookup(d, "retry_info"@, 2);
            if let Some(x) = info {
                let r = session_state::retry_json(x)->Object_0;
                assert(d[2].1->Object_0 == r);
                entry::lemma_lookup(r, "wait_ms"@, 0);
                entry::lemma_lookup(r, "attempt"@, 1);
                entry::lemma_lookup(r, "max_attempts"@, 2);
                entry::lemma_lookup(r, "provider"@, 3);
            }
        },
    }
}

/// A streamed line becomes an entry with its role and with all that came in; a thought is
/// written with when it began and when it ended.
pub proof fn streamed_lines_become_entries(e: entry::EntryView, l: since::StreamingView, end: i64)
    requires
        session_core::is_entry_of(e, l, end),
        l.started_at_ms >= 0,
        end >= 0,
    ensures
        e.role == l.role,
        e.content == l.accumulated_content,
        e.kind is None,
        l.role != "thought"@ ==> e.metadata is None,
        l.role == "thought"@ ==> (e.metadata matches Some(m) && m.u64_at("startTime"@) == Some(
            l.started_at_ms as u64,
        ) && m.u64_at("endTime"@) == Some(end as u64)),
{
    reveal_strlit("startTime");
    reveal_strlit("endTime");
    assert("startTime"@.len() != "endTime"@.len());
    let m = session_core::thought_metadata(l.started_at_ms, end)->Object_0;
    entry::lemma_lookup(m, "startTime"@, 0);
    entry::lemma_lookup(m, "endTime"@, 1);
}

/// Between two notes of new data at least the interval passes, and a session that may not
/// tell of new data tells of none.
pub proof fn notes_keep_their_interval(c: session_core::CoreView, first: i64, second: i64)
    ensures
        ({
            let after = session_core::CoreView { last_notify_ts: first, ..c };
            &&& session_core::may_notify(after, second) ==> second - first >= c.notify_interval_ms
            &&& c.notify_enabled && second - first >= c.notify_interval_ms
                ==> session_core::may_notify(after, second)
        }),
        !c.notify_enabled ==> !session_core::may_notify(c, first),
{
}

/// Where the lines of a session's file are known, they are not counted; a line that begins
/// to be streamed is empty, and is numbered behind them.
pub proof fn streamed_lines_begin_empty(
    committed: usize,
    counted: usize,
    role: Seq<char>,
    now: Moment,
)
    ensures
        committed > 0 ==> session_core::known_lines(committed, counted) == committed,
        committed == 0 ==> session_core::known_lines(committed, counted) == counted,
        ({
            let l = session_core::new_line(role, committed, now);
            &&& l.accumulated_content.len() == 0
            &&& l.role == role
            &&& l.line_number == committed
            &&& l.started_at_ms == now.millis
            &&& l.started_at == now.text@
        }),
        committed < u64::MAX ==> session_core::wrapped_next(committed as u64) == committed + 1,
{
}

/// Setting what a model can do is found again under its identifier, and changes what is
/// known of no other model.
pub proof fn capabilities_are_found_again(
    before: Seq<ProviderListItem>,
    after: Seq<ProviderListItem>,
    id: Seq<char>,
    item: ModelItem,
    other: Seq<char>,
)
    requires
        agent_core::found_model(before, id, 0) is Some,
        ({
            let at = agent_core::found_model(before, id, 0)->0;
            agent_core::with_model(before, after, at.0, at.1, item)
        }),
        item.id@ == id,
    ensures
        agent_core::model_of(after, id) == Some(item),
        other != id ==> agent_core::model_of(after, other) == agent_core::model_of(before, other),
{
    lemma_found_model(before, id, 0);
    let at = agent_core::found_model(before, id, 0)->0;
    lemma_same_places(before, after, at, item, id, 0);
    lemma_same_places(before, after, at, item, other, 0);
    lemma_found_model(before, other, 0);
}

proof fn lemma_same_places(
    before: Seq<ProviderListItem>,
    after: Seq<ProviderListItem>,
    at: (int, int),
    item: ModelItem,
    id: Seq<char>,
    from: int,
)
    requires
        0 <= from,
        0 <= at.0 < before.len(),
        0 <= at.1 < before[at.0].models@.len(),
        item.id@ == before[at.0].models@[at.1].id@,
        agent_core::with_model(before, after, at.0, at.1, item),
    ensures
        agent_core::found_model(after, id, from) == agent_core::found_model(before, id, from),
    decreases before.len() - from,
{
    if from < before.len() {
        if from == at.0 {
            lemma_same_model_at(before[from].models@, after[from].models@, id, 0);
        } else {
            assert(after[from] == before[from]);
        }
        lemma_same_places(before, after, at, item, id, from + 1);
    }
}

proof fn lemma_same_model_at(a: Seq<ModelItem>, b: Seq<ModelItem>, id: Seq<char>, from: int)
    requires
        0 <= from,
        a.len() == b.len(),
        forall|k: int| 0 <= k < a.len() ==> (#[trigger] a[k]).id@ == b[k].id@,
    ensures
        agent_core::model_at(a, id, from) == agent_core::model_at(b, id, from),
    decreases a.len() - from,
{
    if from < a.len() {
        assert(a[from].id@ == b[from].id@);
        lemma_same_model_at(a, b, id, from + 1);
    }
}

/// The identifiers of tasks.
pub open spec fn todo_ids(ts: Seq<session_state::TodoView>) -> Seq<Seq<char>> {
    ts.map_values(|t: session_state::TodoView| t.id)
}

/// A list of tasks that is brought to where `items` are keeps its order: the tasks that it
/// had stay in their places, as far as they are among the items, and the new ones come
/// behind them in the order of the items.
pub proof fn todos_keep_their_places(
    ts: Seq<session_state::TodoView>,
    items: Seq<session_state::TodoView>,
)
    requires
        are_distinct(ts),
        are_distinct(items),
    ensures
        todo_ids(session_state::merged_todos(ts, items)) == todo_ids(ts).filter(
            |id: Seq<char>| todo_ids(items).contains(id),
        ) + todo_ids(items).filter(|id: Seq<char>| !todo_ids(ts).contains(id)),
{
    let n = items.len() as int;
    let all = session_state::absorbed(ts, items, n);
    let named = |t: session_state::TodoView| session_state::names_todo(items, t.id);
    let p = |id: Seq<char>| todo_ids(items).contains(id);
    let q = |id: Seq<char>| !todo_ids(ts).contains(id);
    lemma_places(ts, items, n);
    assert(items.take(n) =~= items);
    assert forall|t: session_state::TodoView| #[trigger] named(t) == p(t.id) by {
        if named(t) {
            let i = choose|i: int| 0 <= i < items.len() && (#[trigger] items[i]).id == t.id;
            assert(todo_ids(items)[i] == t.id);
        }
        if p(t.id) {
            let i = choose|i: int| 0 <= i < todo_ids(items).len() && todo_ids(items)[i] == t.id;
            assert(items[i].id == t.id);
        }
    }
    lemma_filter_ids(all, named, p);
    let a = todo_ids(ts);
    let b = todo_ids(items).filter(q);
    lemma_filter_texts(a, b, p);
    assert forall|i: int| 0 <= i < b.len() implies p(#[trigger] b[i]) by {
        crate::list::lemma_filter_members(todo_ids(items), q);
    }
    crate::list::lemma_filter_all(b, p);
}

proof fn lemma_filter_texts(a: Seq<Seq<char>>, b: Seq<Seq<char>>, p: spec_fn(Seq<char>) -> bool)
    ensures
        (a + b).filter(p) == a.filter(p) + b.filter(p),
    decreases b.len(),
{
    reveal(Seq::filter);
    if b.len() == 0 {
        assert(a + b =~= a);
        assert(a.filter(p) + b.filter(p) =~= a.filter(p));
    } else {
        assert((a + b).drop_last() =~= a + b.drop_last());
        lemma_filter_texts(a, b.drop_last(), p);
        assert((a + b).filter(p) =~= a.filter(p) + b.filter(p));
    }
}

proof fn lemma_filter_ids(
    s: Seq<session_state::TodoView>,
    named: spec_fn(session_state::TodoView) -> bool,
    p: spec_fn(Seq<char>) -> bool,
)
    requires
        forall|t: session_state::TodoView| #[trigger] named(t) == p(t.id),
    ensures
        todo_ids(s.filter(named)) == todo_ids(s).filter(p),
    decreases s.len(),
{
    reveal(Seq::filter);
    if s.len() > 0 {
        let t = s.drop_last();
        lemma_filter_ids(t, named, p);
        assert(todo_ids(s).drop_last() =~= todo_ids(t));
        assert(named(s.last()) == p(s.last().id));
        assert(todo_ids(s.filter(named)) =~= todo_ids(s).filter(p));
    } else {
        assert(todo_ids(s.filter(named)) =~= todo_ids(s).filter(p));
    }
}

proof fn lemma_places(
    ts: Seq<session_state::TodoView>,
    items: Seq<session_state::TodoView>,
    n: int,
)
    requires
        are_distinct(items),
        0 <= n <= items.len(),
    ensures
        todo_ids(session_state::absorbed(ts, items, n)) == todo_ids(ts) + todo_ids(
            items.take(n),
        ).filter(|id: Seq<char>| !todo_ids(ts).contains(id)),
    decreases n,
{
    reveal(Seq::filter);
    let q = |id: Seq<char>| !todo_ids(ts).contains(id);
    if n > 0 {
        lemma_places(ts, items, n - 1);
        let before = session_state::absorbed(ts, items, n - 1);
        let t = items[n - 1];
        let part = todo_ids(items.take(n));
        assert(part.drop_last() =~= todo_ids(items.take(n - 1)));
        assert(part.last() == t.id);
        lemma_index(before, t.id, 0);
        let i = session_state::todo_index(before, t.id, 0);
        let ids = todo_ids(before);
        let new = part.drop_last().filter(q);
        assert(ids == todo_ids(ts) + new);
        let after = session_state::upserted(before, t);
        if i < before.len() {
            assert(ids[i] == t.id);
            assert(todo_ids(after) =~= ids);
            if i >= ts.len() {
                let k = i - ts.len();
                assert(new[k] == t.id);
                crate::list::lemma_filter_members(part.drop_last(), q);
                assert(part.drop_last().contains(new[k]));
                let j = choose|j: int| 0 <= j < n - 1 && part.drop_last()[j] == t.id;
                assert(items[j].id == items[n - 1].id);
            } else {
                assert(todo_ids(ts)[i] == t.id);
            }
        } else {
            assert(todo_ids(after) =~= ids.push(t.id));
            if todo_ids(ts).contains(t.id) {
                let k = choose|k: int| 0 <= k < ts.len() && todo_ids(ts)[k] == t.id;
                assert(ids[k] == t.id);
                assert(before[k].id == t.id);
            }
            assert(todo_ids(ts) + new.push(t.id) =~= ids.push(t.id));
        }
    } else {
        assert(todo_ids(items.take(0)).filter(q) =~= Seq::empty());
        assert(todo_ids(ts) + Seq::<Seq<char>>::empty() =~= todo_ids(ts));
    }
}

/// A model of which nothing else is known may write as many tokens as is usual, and a
/// summary is short and close to the conversation.
pub proof fn usual_limits()
    ensures
        agent_core::DEFAULT_MAX_OUTPUT_TOKENS == 32 * 1024,
        compaction::COMPACTION_MAX_TOKENS == 2 * 1024,
        compaction::COMPACTION_TEMPERATURE@ == "0.3"@,
        compaction::MESSAGES_PLACE@ == "{messages_text}"@,
{
}

/// A streamed line is gone on with only where it is of the same role.
pub proof fn roles_are_not_mixed(
    c: session_core::CoreView,
    map: StreamingStateMap,
    role: Seq<char>,
)
    ensures
        session_core::role_fits(c, map, role) == (match c.session_id {
            Some(id) => match map.line_of(id) {
                Some(l) => l.role == role,
                None => true,
            },
            None => true,
        }),
{
}

/// What an agent can do is what its manifest declares, in its order.
pub proof fn agents_know_what_they_can_do(cs: Seq<DeclaredCapability>, i: int)
    requires
        0 <= i < cs.len(),
    ensures
        ({
            let es = agent_core::capability_entries(cs);
            &&& es.len() == cs.len()
            &&& es[i].0 == agent_core::AutobioCategory::Capability
            &&& es[i].1 == cs[i].key@
            &&& es[i].2 == cs[i].description@
        }),
{
}

/// The list of tasks has a line for each, in their order.
pub proof fn each_todo_has_its_line(ts: Seq<session_state::TodoView>, i: int)
    requires
        0 <= i < ts.len(),
    ensures
        session_state::todo_lines(ts).len() == ts.len(),
        session_state::todo_lines(ts)[i] == session_state::todo_line(ts[i]),
{
}

/// What one session streams is no concern of the others: maps that are the same but for
/// one session give all others the same line.
pub proof fn sessions_stream_apart(
    a: StreamingStateMap,
    b: StreamingStateMap,
    id: Seq<char>,
    other: Seq<char>,
)
    ensures
        session_core::same_but(a, b, id) && other != id ==> a.line_of(other) == b.line_of(other),
        session_core::same_lines(a, b) ==> a.line_of(other) == b.line_of(other),
{
}

} // verus!
