//! Operations on vectors that keep the order of their elements.

use vstd::prelude::*;

verus! {

/// The elements of `s` that `keep` marks, in order.
pub open spec fn picked<T>(s: Seq<T>, keep: Seq<bool>) -> Seq<T>
    decreases s.len(),
{
    if s.len() == 0 || keep.len() != s.len() {
        Seq::empty()
    } else if keep.last() {
        picked(s.drop_last(), keep.drop_last()).push(s.last())
    } else {
        picked(s.drop_last(), keep.drop_last())
    }
}

/// Picking by a mask that agrees with a predicate is filtering, under any mapping.
pub proof fn lemma_picked_is_filter<T, V>(
    s: Seq<T>,
    keep: Seq<bool>,
    f: spec_fn(T) -> V,
    p: spec_fn(V) -> bool,
)
    requires
        s.len() == keep.len(),
        forall|i: int| 0 <= i < s.len() ==> keep[i] == p(f(#[trigger] s[i])),
    ensures
        picked(s, keep).map_values(f) == s.map_values(f).filter(p),
    decreases s.len(),
{
    reveal(Seq::filter);
    let m = s.map_values(f);
    if s.len() > 0 {
        lemma_picked_is_filter(s.drop_last(), keep.drop_last(), f, p);
        assert(m.drop_last() =~= s.drop_last().map_values(f));
        assert(m.last() == f(s.last()));
        assert(picked(s, keep).map_values(f) =~= if keep.last() {
            picked(s.drop_last(), keep.drop_last()).map_values(f).push(f(s.last()))
        } else {
            picked(s.drop_last(), keep.drop_last()).map_values(f)
        });
    } else {
        assert(picked(s, keep).map_values(f) =~= m.filter(p));
    }
}

/// Picking from a concatenation.
pub proof fn lemma_picked_concat<T>(a: Seq<T>, b: Seq<T>, ka: Seq<bool>, kb: Seq<bool>)
    requires
        a.len() == ka.len(),
        b.len() == kb.len(),
    ensures
        picked(a + b, ka + kb) == picked(a, ka) + picked(b, kb),
    decreases b.len(),
{
    if b.len() == 0 {
        assert(a + b =~= a);
        assert(ka + kb =~= ka);
        assert(picked(a, ka) + picked(b, kb) =~= picked(a, ka));
    } else {
        lemma_picked_concat(a, b.drop_last(), ka, kb.drop_last());
        assert((a + b).drop_last() =~= a + b.drop_last());
        assert((ka + kb).drop_last() =~= ka + kb.drop_last());
        assert((a + b).last() == b.last());
        assert((ka + kb).last() == kb.last());
        let p = picked(b.drop_last(), kb.drop_last());
        assert(picked(a, ka) + p.push(b.last()) =~= (picked(a, ka) + p).push(b.last()));
    }
}

/// Picking makes nothing longer.
pub proof fn lemma_picked_len<T>(s: Seq<T>, keep: Seq<bool>)
    ensures
        picked(s, keep).len() <= s.len(),
    decreases s.len(),
{
    if s.len() > 0 && keep.len() == s.len() {
        lemma_picked_len(s.drop_last(), keep.drop_last());
    }
}

/// Picking everything.
pub proof fn lemma_picked_all<T>(s: Seq<T>, keep: Seq<bool>)
    requires
        s.len() == keep.len(),
        forall|i: int| 0 <= i < keep.len() ==> #[trigger] keep[i],
    ensures
        picked(s, keep) == s,
    decreases s.len(),
{
    if s.len() > 0 {
        assert forall|i: int| 0 <= i < keep.drop_last().len() implies #[trigger] keep.drop_last()[i] by {
            assert(keep[i]);
        }
        lemma_picked_all(s.drop_last(), keep.drop_last());
        assert(s.drop_last().push(s.last()) =~= s);
    }
}

/// What a filtered sequence holds: the elements of `s` that meet `p`.
pub proof fn lemma_filter_members<T>(s: Seq<T>, p: spec_fn(T) -> bool)
    ensures
        forall|i: int|
            0 <= i < s.filter(p).len() ==> p(#[trigger] s.filter(p)[i]) && s.contains(
                s.filter(p)[i],
            ),
        forall|i: int|
            0 <= i < s.len() && p(#[trigger] s[i]) ==> s.filter(p).contains(s[i]),
    decreases s.len(),
{
    reveal(Seq::filter);
    let f = s.filter(p);
    if s.len() > 0 {
        let t = s.drop_last();
        let g = t.filter(p);
        lemma_filter_members(t, p);
        assert forall|i: int| 0 <= i < f.len() implies p(#[trigger] f[i]) && s.contains(f[i]) by {
            if i < g.len() {
                assert(f[i] == g[i]);
                let k = choose|k: int| 0 <= k < t.len() && t[k] == g[i];
                assert(s[k] == f[i]);
            } else {
                assert(f[i] == s.last());
            }
        }
        assert forall|i: int| 0 <= i < s.len() && p(#[trigger] s[i]) implies f.contains(s[i]) by {
            if i < t.len() {
                assert(t[i] == s[i]);
                let k = choose|k: int| 0 <= k < g.len() && g[k] == t[i];
                assert(f[k] == s[i]);
            } else {
                assert(f.last() == s[i]);
            }
        }
    }
}

/// Filtering keeps a sequence whose elements all meet the predicate.
pub proof fn lemma_filter_all<T>(s: Seq<T>, p: spec_fn(T) -> bool)
    requires
        forall|i: int| 0 <= i < s.len() ==> p(#[trigger] s[i]),
    ensures
        s.filter(p) == s,
    decreases s.len(),
{
    reveal(Seq::filter);
    if s.len() > 0 {
        assert forall|i: int| 0 <= i < s.drop_last().len() implies p(
            #[trigger] s.drop_last()[i],
        ) by {
            assert(s.drop_last()[i] == s[i]);
        }
        lemma_filter_all(s.drop_last(), p);
        assert(p(s[s.len() - 1]));
        assert(s.drop_last().push(s.last()) =~= s);
    } else {
        assert(s.filter(p) =~= s);
    }
}

/// Empties `v` and gives its elements in the opposite order.
pub fn take_reversed<T>(v: &mut Vec<T>) -> (r: Vec<T>)
    ensures
        r@ == old(v)@.reverse(),
        final(v)@ == Seq::<T>::empty(),
{
    let mut r: Vec<T> = Vec::new();
    let ghost all: Seq<T> = v@;
    while v.len() > 0
        invariant
            v@.len() <= all.len(),
            v@ == all.take(v@.len() as int),
            r@ == all.skip(v@.len() as int).reverse(),
        decreases v@.len(),
    {
        let ghost n: int = v@.len() as int;
        if let Some(x) = v.pop() {
            r.push(x);
        }
        proof {
            assert(v@ =~= all.take(n - 1));
            assert(r@ =~= all.skip(n - 1).reverse());
        }
    }
    proof {
        assert(v@ =~= Seq::<T>::empty());
        assert(all.skip(0) =~= all);
    }
    r
}

/// Keeps the elements of `v` that `keep` marks.
pub fn retain<T>(v: &mut Vec<T>, keep: &Vec<bool>)
    requires
        old(v)@.len() == keep@.len(),
    ensures
        final(v)@ == picked(old(v)@, keep@),
{
    let ghost all: Seq<T> = v@;
    let mut rest: Vec<T> = take_reversed(v);
    let mut i: usize = 0;
    while i < keep.len()
        invariant
            all.len() == keep@.len(),
            i <= keep@.len(),
            rest@ == all.skip(i as int).reverse(),
            v@ == picked(all.take(i as int), keep@.take(i as int)),
        decreases keep@.len() - i,
    {
        proof {
            assert(all.take(i + 1).drop_last() =~= all.take(i as int));
            assert(keep@.take(i + 1).drop_last() =~= keep@.take(i as int));
            assert(rest@.last() == all[i as int]);
        }
        if let Some(x) = rest.pop() {
            if keep[i] {
                v.push(x);
            }
        }
        proof {
            assert(rest@ =~= all.skip(i + 1).reverse());
        }
        i = i + 1;
    }
    proof {
        assert(all.take(all.len() as int) =~= all);
        assert(keep@.take(all.len() as int) =~= keep@);
    }
}

} // verus!
