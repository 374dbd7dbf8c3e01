//! What the operations on texts and paths do to a text.

use crate::json;
use crate::paths;
use crate::text;
use vstd::prelude::*;

verus! {

/// Blanks, tabs and the ends of lines are white space; letters, digits and the marks of
/// ASCII are not.
pub proof fn blanks_are_white_space(c: char)
    ensures
        c == ' ' || c == '\t' || c == '\n' || c == '\r' ==> text::white_space(c),
        '!' <= c <= '~' ==> !text::white_space(c),
        c >= '\u{80}' ==> (text::white_space(c) <==> seq![
            '\u{85}',
            '\u{a0}',
            '\u{1680}',
            '\u{2000}',
            '\u{2001}',
            '\u{2002}',
            '\u{2003}',
            '\u{2004}',
            '\u{2005}',
            '\u{2006}',
            '\u{2007}',
            '\u{2008}',
            '\u{2009}',
            '\u{200a}',
            '\u{2028}',
            '\u{2029}',
            '\u{202f}',
            '\u{205f}',
            '\u{3000}',
        ].contains(c)),
{
    if c >= '\u{80}' {
        let all = seq![
            '\u{85}',
            '\u{a0}',
            '\u{1680}',
            '\u{2000}',
            '\u{2001}',
            '\u{2002}',
            '\u{2003}',
            '\u{2004}',
            '\u{2005}',
            '\u{2006}',
            '\u{2007}',
            '\u{2008}',
            '\u{2009}',
            '\u{200a}',
            '\u{2028}',
            '\u{2029}',
            '\u{202f}',
            '\u{205f}',
            '\u{3000}',
        ];
        assert(all[0] == '\u{85}' && all[1] == '\u{a0}' && all[2] == '\u{1680}' && all[3]
            == '\u{2000}' && all[4] == '\u{2001}' && all[5] == '\u{2002}' && all[6] == '\u{2003}'
            && all[7] == '\u{2004}' && all[8] == '\u{2005}' && all[9] == '\u{2006}' && all[10]
            == '\u{2007}' && all[11] == '\u{2008}' && all[12] == '\u{2009}' && all[13] == '\u{200a}'
            && all[14] == '\u{2028}' && all[15] == '\u{2029}' && all[16] == '\u{202f}' && all[17]
            == '\u{205f}' && all[18] == '\u{3000}');
    }
}

/// Trimming takes away the white space at the two ends and nothing else: what is left is a
/// part of the text, white space stands on both sides of it, and it has none at its
/// own ends.
pub proof fn trimming_takes_white_space_away(s: Seq<char>) -> (r: (int, int))
    ensures
        0 <= r.0 <= r.1 <= s.len(),
        text::trimmed(s) == s.subrange(r.0, r.1),
        forall|k: int| 0 <= k < r.0 ==> text::white_space(#[trigger] s[k]),
        forall|k: int| r.1 <= k < s.len() ==> text::white_space(#[trigger] s[k]),
        r.0 < r.1 ==> !text::white_space(s[r.0]) && !text::white_space(s[r.1 - 1]),
{
    let a = lemma_front(s);
    let t = text::trim_front(s);
    let b = lemma_back(t);
    assert(t.take(b) =~= s.subrange(a, a + b));
    assert forall|k: int| a + b <= k < s.len() implies text::white_space(#[trigger] s[k]) by {
        assert(t[k - a] == s[k]);
    }
    if b > 0 {
        assert(t[0] == s[a]);
        assert(t[b - 1] == s[a + b - 1]);
    }
    (a, a + b)
}

proof fn lemma_front(s: Seq<char>) -> (a: int)
    ensures
        0 <= a <= s.len(),
        text::trim_front(s) == s.skip(a),
        forall|k: int| 0 <= k < a ==> text::white_space(#[trigger] s[k]),
        a < s.len() ==> !text::white_space(s[a]),
    decreases s.len(),
{
    if s.len() > 0 && text::white_space(s[0]) {
        let t = s.drop_first();
        let a = lemma_front(t);
        assert(t.skip(a) =~= s.skip(a + 1));
        assert forall|k: int| 0 <= k < a + 1 implies text::white_space(#[trigger] s[k]) by {
            if k > 0 {
                assert(t[k - 1] == s[k]);
            }
        }
        a + 1
    } else {
        assert(s.skip(0) =~= s);
        0
    }
}

proof fn lemma_back(s: Seq<char>) -> (b: int)
    ensures
        0 <= b <= s.len(),
        text::trim_back(s) == s.take(b),
        forall|k: int| b <= k < s.len() ==> text::white_space(#[trigger] s[k]),
        b > 0 ==> !text::white_space(s[b - 1]),
    decreases s.len(),
{
    if s.len() > 0 && text::white_space(s.last()) {
        let t = s.drop_last();
        let b = lemma_back(t);
        assert(t.take(b) =~= s.take(b));
        assert forall|k: int| b <= k < s.len() implies text::white_space(#[trigger] s[k]) by {
            if k < t.len() {
                assert(t[k] == s[k]);
            }
        }
        b
    } else {
        assert(s.take(s.len() as int) =~= s);
        s.len() as int
    }
}

/// Replacing puts the new text where the first occurrence stood and goes on behind it; a
/// text without an occurrence stays as it is.
pub proof fn occurrences_are_replaced(a: Seq<char>, p: Seq<char>, b: Seq<char>, w: Seq<char>)
    requires
        p.len() > 0,
        forall|j: int| j < a.len() ==> !#[trigger] text::stands_at(a + p + b, p, j),
    ensures
        text::replaced(a + p + b, p, w) == a + w + text::replaced(b, p, w),
        (forall|j: int| !#[trigger] text::stands_at(b, p, j)) ==> text::replaced(b, p, w) == b,
{
    let s = a + p + b;
    let n = a.len() as int;
    assert(s.subrange(n, n + p.len()) =~= p);
    assert(text::stands_at(s, p, n));
    text::lemma_first_index_from(s, p, 0);
    text::lemma_first_index_from(b, p, 0);
    assert(text::first_index(s, p) == Some(n));
    assert(s.take(n) =~= a);
    assert(s.skip(n + p.len()) =~= b);
}

/// The parts of a joined text stand one behind the other, with the separator between them.
pub proof fn parts_are_joined(parts: Seq<Seq<char>>, part: Seq<char>, sep: Seq<char>)
    ensures
        text::joined(Seq::empty(), sep).len() == 0,
        text::joined(seq![part], sep) == part,
        parts.len() > 0 ==> text::joined(parts.push(part), sep) == text::joined(parts, sep) + sep
            + part,
{
    assert(parts.push(part).drop_last() =~= parts);
}

/// A text denotes a number if and only if it is made of digits, behind a plus sign or
/// not, and the number fits: another digit makes it ten times as large, and more by that
/// digit.
pub proof fn digits_make_a_number(s: Seq<char>, c: char)
    ensures
        text::digits_value(Seq::empty()) == Some(0nat),
        text::digits_value(s) is Some && '0' <= c <= '9' ==> text::digits_value(s.push(c)) == Some(
            (10 * text::digits_value(s)->0 + (c as nat - 48)) as nat,
        ),
        !('0' <= c <= '9') ==> text::digits_value(s.push(c)) is None,
        text::number_value(Seq::empty()) is None,
        s.len() > 0 && s[0] != '+' ==> text::number_value(seq!['+'] + s) == text::number_value(s),
{
    assert(s.push(c).drop_last() =~= s);
    if s.len() > 0 && s[0] != '+' {
        assert((seq!['+'] + s).skip(1) =~= s);
    }
}

/// A path under a directory has one slash between them.
pub proof fn paths_are_joined_by_a_slash(base: Seq<char>, rest: Seq<char>)
    ensures
        base.len() == 0 ==> paths::joined_path(base, rest) == rest,
        base.len() > 0 && base.last() == '/' ==> paths::joined_path(base, rest) == base + rest,
        base.len() > 0 && base.last() != '/' ==> paths::joined_path(base, rest) == base + seq!['/']
            + rest,
{
    if base.len() == 0 {
        assert(base + rest =~= rest);
    }
    assert(base.push('/') =~= base + seq!['/']);
}

/// The extension of a file is what stands behind the last full stop of its name, in
/// whatever directory it is.
pub proof fn extensions_follow_the_last_stop(
    dir: Seq<char>,
    stem: Seq<char>,
    ext: Seq<char>,
)
    requires
        stem.len() > 0,
        ext.len() > 0,
        dir.len() > 0 ==> dir.last() == '/',
        forall|i: int| 0 <= i < stem.len() ==> stem[i] != '/',
        forall|i: int| 0 <= i < ext.len() ==> ext[i] != '/' && ext[i] != '.',
    ensures
        paths::extension_of(dir + (stem + seq!['.'] + ext)) == Some(ext),
{
    let name = stem + seq!['.'] + ext;
    let p = dir + name;
    let n = dir.len() as int;
    assert(p.last() == ext.last());
    assert(paths::path_end(p) == p);
    lemma_name_start(p, n, p.len() as int);
    assert(p.skip(n) =~= name);
    lemma_last_dot(name, stem.len() as int, name.len() as int);
    assert(name[name.len() - 1] == ext[ext.len() - 1]);
    assert(name != seq!['.']);
    assert(name != seq!['.', '.']);
    assert(name.skip(stem.len() as int + 1) =~= ext);
}

proof fn lemma_name_start(p: Seq<char>, n: int, end: int)
    requires
        0 <= n <= end <= p.len(),
        n > 0 ==> p[n - 1] == '/',
        forall|k: int| n <= k < end ==> p[k] != '/',
    ensures
        paths::name_start(p, end) == n,
    decreases end,
{
    if n < end {
        lemma_name_start(p, n, end - 1);
    }
}

proof fn lemma_last_dot(name: Seq<char>, at: int, end: int)
    requires
        0 <= at < end <= name.len(),
        name[at] == '.',
        forall|k: int| at < k < end ==> name[k] != '.',
    ensures
        paths::last_dot(name, end) == Some(at),
    decreases end,
{
    if at < end - 1 {
        lemma_last_dot(name, at, end - 1);
    }
}

/// An object that is written as an array has its members in the order of their names, of
/// which the last may be left out, but none that is required.
pub proof fn elements_are_named_in_order(
    a: Seq<json::JsonView>,
    names: Seq<Seq<char>>,
    required: nat,
    i: int,
)
    requires
        forall|j: int, k: int| 0 <= j < k < names.len() ==> names[j] != names[k],
        required <= a.len() <= names.len(),
        0 <= i < names.len(),
    ensures
        json::named(json::JsonView::Array(a), names, required).get(names[i]) == (if i < a.len() {
            Some(a[i])
        } else {
            None
        }),
{
    let m = json::named(json::JsonView::Array(a), names, required)->Object_0;
    if i < a.len() {
        crate::conversation::entry::lemma_lookup(m, names[i], i);
    } else {
        crate::conversation::entry::lemma_lookup(m, names[i], a.len() as int);
    }
}

/// A member of an object is found under its key, and no other value is.
pub proof fn members_are_found_by_key(
    m: Seq<(Seq<char>, json::JsonView)>,
    key: Seq<char>,
)
    ensures
        match json::JsonView::Object(m).get(key) {
            Some(v) => exists|i: int|
                0 <= i < m.len() && #[trigger] m[i] == (key, v) && forall|k: int|
                    0 <= k < i ==> (#[trigger] m[k]).0 != key,
            None => forall|k: int| 0 <= k < m.len() ==> (#[trigger] m[k]).0 != key,
        },
    decreases m.len(),
{
    if m.len() > 0 {
        let t = m.drop_first();
        members_are_found_by_key(t, key);
        if m[0].0 == key {
            assert(m[0] == (key, m[0].1));
        } else {
            match json::lookup(t, key) {
                Some(v) => {
                    let i = choose|i: int|
                        0 <= i < t.len() && #[trigger] t[i] == (key, v) && forall|k: int|
                            0 <= k < i ==> (#[trigger] t[k]).0 != key;
                    assert(m[i + 1] == (key, v));
                    assert forall|k: int| 0 <= k < i + 1 implies (#[trigger] m[k]).0 != key by {
                        if k > 0 {
                            assert(t[k - 1] == m[k]);
                        }
                    }
                },
                None => {
                    assert forall|k: int| 0 <= k < m.len() implies (#[trigger] m[k]).0 != key by {
                        if k > 0 {
                            assert(t[k - 1] == m[k]);
                        }
                    }
                },
            }
        }
    }
}

} // verus!
