//! The sessions of a directory.

use crate::bytes;
use crate::conversation::metadata::{metadata_of_line, SessionMetadata};
use crate::conversation::metadata;
use crate::conversation::pages::NOT_UTF8;
use crate::error::RuntimeError;
use crate::paths::{file_stem, find_extension};
use crate::paths;
use crate::text;
use vstd::multiset::*;
use vstd::prelude::*;
use vstd::seq_lib::*;
use vstd::utf8::*;

verus! {

/// What a listing says of a session.
#[derive(Debug, PartialEq, Eq)]
pub struct SessionInfo {
    pub session_id: String,
    pub created_at: String,
    pub message_count: u32,
    pub title: Option<String>,
    /// The session's first line was damaged.
    pub corrupted: bool,
    pub model: Option<String>,
    pub provider: Option<String>,
    pub workspace_id: Option<String>,
}

impl SessionInfo {
    /// What a listing says of the session with these metadata.
    pub fn of(meta: SessionMetadata) -> (r: Self)
        ensures
            r.session_id@ == meta@.session_id,
            r.created_at@ == meta@.created_at,
            r.message_count == (match meta@.message_count {
                Some(n) => n,
                None => 0,
            }),
            text::opt_text(r.title) == meta@.title,
            r.corrupted == meta@.corrupted,
            text::opt_text(r.model) == meta@.model,
            text::opt_text(r.provider) == meta@.provider,
            text::opt_text(r.workspace_id) == meta@.workspace_id,
    {
        SessionInfo {
            session_id: meta.session_id,
            created_at: meta.created_at,
            message_count: match meta.message_count {
                Some(n) => n,
                None => 0,
            },
            title: meta.title,
            corrupted: meta.corrupted,
            model: meta.model,
            provider: meta.provider,
            workspace_id: meta.workspace_id,
        }
    }
}

/// The name of a session whose file has none that is text.
pub const UNKNOWN_SESSION: &'static str = "unknown";

/// The metadata of the session whose file holds `c` and is named `stem`, without
/// its extension: what its first line says or, where that is damaged, what its
/// name says.
pub fn read_session_metadata(c: &Vec<u8>, stem: Option<&str>) -> (r: Result<
    SessionMetadata,
    RuntimeError,
>)
    ensures
        ({
            let first = c@.subrange(0, bytes::next_line(c@, 0));
            let name = match stem {
                Some(s) => s@,
                None => UNKNOWN_SESSION@,
            };
            if valid_utf8(first) {
                r matches Ok(m) && m@ == (match metadata::metadata_of_text(
                    text::trimmed(decode_utf8(first)),
                ) {
                    Some(m) => m,
                    None => metadata::recovered(name),
                })
            } else {
                r matches Err(RuntimeError::Io(e)) && e@ == NOT_UTF8@
            }
        }),
{
    let e: usize = bytes::find_line_end(c, 0);
    let next: usize = if e < c.len() {
        e + 1
    } else {
        e
    };
    let name: &str = match stem {
        Some(s) => s,
        None => UNKNOWN_SESSION,
    };
    match bytes::text_exact(bytes::part(c, 0, next)) {
        Some(line) => Ok(metadata_of_line(line.as_str(), name)),
        None => Err(RuntimeError::Io(NOT_UTF8.to_string())),
    }
}

/// The small letter of an ASCII capital; other characters as they are.
pub open spec fn lowered(c: char) -> char {
    if 'A' <= c <= 'Z' {
        (c as u8 + 32) as char
    } else {
        c
    }
}

/// The text in small ASCII letters.
pub open spec fn lower_text(s: Seq<char>) -> Seq<char> {
    s.map_values(|c: char| lowered(c))
}

/// The file name has the extension `jsonl`, in small or capital letters.
pub open spec fn is_session_file(name: Seq<char>) -> bool {
    match paths::extension_at(name) {
        Some(i) => lower_text(name.skip(i + 1)) == "jsonl"@,
        None => false,
    }
}

/// `a` stands before `b`, from the index `i` on, in the order of code points.
pub open spec fn less_from(a: Seq<char>, b: Seq<char>, i: int) -> bool
    decreases b.len() - i,
{
    if i >= b.len() {
        false
    } else if i >= a.len() {
        true
    } else if a[i] != b[i] {
        a[i] < b[i]
    } else {
        less_from(a, b, i + 1)
    }
}

/// `a` stands before `b` in the order of code points.
pub open spec fn less(a: Seq<char>, b: Seq<char>) -> bool {
    less_from(a, b, 0)
}

/// No name stands before one behind it: the last come first.
pub open spec fn falls(s: Seq<Seq<char>>) -> bool {
    forall|i: int, j: int| 0 <= i < j < s.len() ==> !less(#[trigger] s[i], #[trigger] s[j])
}

proof fn lemma_less_from(a: Seq<char>, b: Seq<char>, c: Seq<char>, i: int)
    requires
        0 <= i,
        !less_from(a, b, i),
        !less_from(b, c, i),
    ensures
        !less_from(a, c, i),
    decreases c.len() - i,
{
    if i < c.len() && i < a.len() && i < b.len() {
        if a[i] == b[i] && b[i] == c[i] {
            lemma_less_from(a, b, c, i + 1);
        }
    }
}

proof fn lemma_less_or_not(a: Seq<char>, b: Seq<char>, i: int)
    requires
        0 <= i,
        less_from(a, b, i),
    ensures
        !less_from(b, a, i),
    decreases b.len() - i,
{
    if i < a.len() && i < b.len() && a[i] == b[i] {
        lemma_less_or_not(a, b, i + 1);
    }
}

fn lower(c: char) -> (r: char)
    ensures
        r == lowered(c),
{
    if 'A' <= c && c <= 'Z' {
        (c as u8 + 32) as char
    } else {
        c
    }
}

/// A text in small ASCII letters.
pub fn to_lower(s: &str) -> (r: String)
    ensures
        r@ == lower_text(s@),
{
    let cs: Vec<char> = text::chars_of(s);
    let mut r: String = String::new();
    let mut i: usize = 0;
    while i < cs.len()
        invariant
            i <= cs@.len(),
            cs@ == s@,
            r@ == lower_text(s@.take(i as int)),
        decreases cs@.len() - i,
    {
        r.push(lower(cs[i]));
        proof {
            assert(lower_text(s@.take(i + 1)) =~= lower_text(s@.take(i as int)).push(
                lowered(s@[i as int]),
            ));
        }
        i = i + 1;
    }
    proof {
        assert(s@.take(i as int) =~= s@);
    }
    r
}

/// Whether a file name is that of a session.
pub fn names_session(name: &str) -> (r: bool)
    ensures
        r == is_session_file(name@),
{
    let cs: Vec<char> = text::chars_of(name);
    match find_extension(&cs) {
        Some(i) => {
            let n: usize = cs.len();
            let ext: String = text::string_of(&cs, i + 1, n);
            proof {
                assert(ext@ =~= name@.skip(i + 1));
            }
            let small: String = to_lower(ext.as_str());
            text::same_text(small.as_str(), "jsonl")
        },
        None => false,
    }
}

fn is_less(a: &str, b: &str) -> (r: bool)
    ensures
        r == less(a@, b@),
{
    let ca: Vec<char> = text::chars_of(a);
    let cb: Vec<char> = text::chars_of(b);
    let mut i: usize = 0;
    while i < ca.len() && i < cb.len() && ca[i] == cb[i]
        invariant
            i <= ca@.len(),
            i <= cb@.len(),
            ca@ == a@,
            cb@ == b@,
            less(a@, b@) == less_from(a@, b@, i as int),
        decreases ca@.len() - i,
    {
        i = i + 1;
    }
    if i >= cb.len() {
        false
    } else if i >= ca.len() {
        true
    } else {
        ca[i] < cb[i]
    }
}

/// The session of the last of these file names, in the order of code points; the
/// names begin with the time at which the session was created.
pub fn find_latest_session(names: &Vec<String>) -> (r: Option<String>)
    ensures
        match r {
            Some(s) => exists|i: int|
                0 <= i < names@.len() && s@ == #[trigger] paths::stem_of(names@[i]@) && is_session_file(
                    names@[i]@,
                ) && forall|j: int|
                    0 <= j < names@.len() && is_session_file(#[trigger] names@[j]@) ==> !less(
                        names@[i]@,
                        names@[j]@,
                    ),
            None => forall|j: int|
                0 <= j < names@.len() ==> !is_session_file(#[trigger] names@[j]@),
        },
{
    let mut best: Option<usize> = None;
    let mut i: usize = 0;
    while i < names.len()
        invariant
            i <= names@.len(),
            match best {
                Some(b) => b < i && is_session_file(names@[b as int]@) && forall|j: int|
                    0 <= j < i && is_session_file(#[trigger] names@[j]@) ==> !less(
                        names@[b as int]@,
                        names@[j]@,
                    ),
                None => forall|j: int| 0 <= j < i ==> !is_session_file(#[trigger] names@[j]@),
            },
        decreases names@.len() - i,
    {
        if names_session(names[i].as_str()) {
            match best {
                Some(b) => {
                    if is_less(names[b].as_str(), names[i].as_str()) {
                        proof {
                            lemma_less_or_not(names@[b as int]@, names@[i as int]@, 0);
                            lemma_self(names@[i as int]@, 0);
                            assert forall|j: int|
                                0 <= j < i + 1 && is_session_file(
                                    #[trigger] names@[j]@,
                                ) implies !less(names@[i as int]@, names@[j]@) by {
                                if j < i {
                                    lemma_less_from(
                                        names@[i as int]@,
                                        names@[b as int]@,
                                        names@[j]@,
                                        0,
                                    );
                                }
                            }
                        }
                        best = Some(i);
                    }
                },
                None => {
                    proof {
                        lemma_self(names@[i as int]@, 0);
                    }
                    best = Some(i);
                },
            }
        }
        i = i + 1;
    }
    match best {
        Some(b) => Some(file_stem(names[b].as_str())),
        None => None,
    }
}

proof fn lemma_self(a: Seq<char>, i: int)
    ensures
        !less_from(a, a, i),
    decreases a.len() - i,
{
    if i < a.len() {
        lemma_self(a, i + 1);
    }
}

/// The names with the last first.
pub fn sort_names(names: &Vec<String>) -> (r: Vec<String>)
    ensures
        falls(text::texts(r@)),
        text::texts(r@).to_multiset() == text::texts(names@).to_multiset(),
        r@.len() == names@.len(),
{
    let ghost all: Seq<Seq<char>> = text::texts(names@);
    let mut r: Vec<String> = Vec::new();
    let mut i: usize = 0;
    proof {
        assert(text::texts(r@) =~= all.take(0));
    }
    while i < names.len()
        invariant
            i <= names@.len(),
            r@.len() == i,
            all == text::texts(names@),
            falls(text::texts(r@)),
            text::texts(r@).to_multiset() == all.take(i as int).to_multiset(),
        decreases names@.len() - i,
    {
        let ghost x: Seq<char> = names@[i as int]@;
        let mut p: usize = 0;
        while p < r.len() && !is_less(r[p].as_str(), names[i].as_str())
            invariant
                i < names@.len(),
                p <= r@.len(),
                x == names@[i as int]@,
                forall|k: int| 0 <= k < p ==> !less(#[trigger] text::texts(r@)[k], x),
            decreases r@.len() - p,
        {
            p = p + 1;
        }
        let ghost before: Seq<Seq<char>> = text::texts(r@);
        r.insert(p, names[i].clone());
        proof {
            let t = text::texts(r@);
            assert(t =~= before.insert(p as int, x));
            to_multiset_insert(before, p as int, x);
            to_multiset_build(all.take(i as int), x);
            assert(all.take(i + 1) =~= all.take(i as int).push(x));
            assert forall|a: int, b: int| 0 <= a < b < t.len() implies !less(
                #[trigger] t[a],
                #[trigger] t[b],
            ) by {
                lemma_falls_insert(before, p as int, x, a, b);
            }
        }
        i = i + 1;
    }
    proof {
        assert(all.take(i as int) =~= all);
    }
    r
}

proof fn lemma_falls_insert(s: Seq<Seq<char>>, p: int, x: Seq<char>, a: int, b: int)
    requires
        0 <= p <= s.len(),
        falls(s),
        forall|k: int| 0 <= k < p ==> !less(#[trigger] s[k], x),
        p < s.len() ==> less(s[p], x),
        0 <= a < b < s.len() + 1,
    ensures
        !less(s.insert(p, x)[a], s.insert(p, x)[b]),
{
    let t = s.insert(p, x);
    if b == p {
        assert(t[a] == s[a]);
    } else if a == p {
        assert(t[b] == s[b - 1]);
        lemma_less_or_not(s[p], x, 0);
        if b - 1 > p {
            lemma_less_from(x, s[p], s[b - 1], 0);
        }
    } else {
        let u = if a < p {
            a
        } else {
            a - 1
        };
        let v = if b < p {
            b
        } else {
            b - 1
        };
        assert(t[a] == s[u] && t[b] == s[v]);
    }
}

/// `o`, or `default` where there is none, and at least 1.
pub open spec fn at_least_one(o: Option<u32>, default: u32) -> u32 {
    match o {
        Some(n) => if n == 0 {
            1
        } else {
            n
        },
        None => default,
    }
}

fn or_default(o: Option<u32>, default: u32) -> (r: u32)
    ensures
        r == at_least_one(o, default),
{
    match o {
        Some(n) => if n == 0 {
            1
        } else {
            n
        },
        None => default,
    }
}

/// How many sessions a page of a listing has, unless it is said.
pub const DEFAULT_PAGE_SIZE: u32 = 20;

/// Where the page `page` begins.
pub open spec fn page_start(page: Option<u32>, size: Option<u32>) -> int {
    (at_least_one(page, 1) - 1) * at_least_one(size, DEFAULT_PAGE_SIZE)
}

/// The names behind the first `start`, of which at most `count` are taken.
pub open spec fn window(s: Seq<Seq<char>>, start: int, count: int) -> Seq<Seq<char>> {
    if start >= s.len() {
        Seq::empty()
    } else if start + count >= s.len() {
        s.skip(start)
    } else {
        s.subrange(start, start + count)
    }
}

/// The names of the sessions on a page of a listing: of the file names of the
/// directory, the last first, those from the start of the page on, up to as many
/// as stand before the page's end, without those that are not the names of sessions.
pub open spec fn listed(s: Seq<Seq<char>>, page: Option<u32>, size: Option<u32>) -> Seq<
    Seq<char>,
> {
    let start = page_start(page, size);
    window(s, start, start + at_least_one(size, DEFAULT_PAGE_SIZE)).filter(
        |n: Seq<char>| is_session_file(n),
    )
}

/// The names of the session files on a page of a listing, the newest first, and
/// the number of files of the directory.
pub fn session_page(names: &Vec<String>, page: Option<u32>, size: Option<u32>) -> (r: (
    Vec<String>,
    usize,
))
    ensures
        r.1 == names@.len(),
        exists|s: Seq<Seq<char>>| #[trigger]
            falls(s) && s.to_multiset() == text::texts(names@).to_multiset() && text::texts(r.0@)
                == listed(s, page, size),
{
    let sorted: Vec<String> = sort_names(names);
    let ghost s: Seq<Seq<char>> = text::texts(sorted@);
    let page_number: u32 = or_default(page, 1);
    let per_page: u32 = or_default(size, DEFAULT_PAGE_SIZE);
    proof {
        assert(0 <= (page_number - 1) * per_page <= (u32::MAX - 1) * u32::MAX) by (nonlinear_arith)
            requires
                1 <= page_number <= u32::MAX,
                0 <= per_page <= u32::MAX,
        ;
    }
    let start: u64 = (page_number as u64 - 1) * per_page as u64;
    let count: u64 = start + per_page as u64;
    let n: usize = sorted.len();
    let from: usize = if start < n as u64 {
        start as usize
    } else {
        n
    };
    let to: usize = if count < (n - from) as u64 {
        from + count as usize
    } else {
        n
    };
    let ghost w: Seq<Seq<char>> = window(s, start as int, count as int);
    proof {
        assert(w =~= s.subrange(from as int, to as int));
    }
    let mut r: Vec<String> = Vec::new();
    let mut i: usize = from;
    proof {
        reveal(Seq::filter);
        assert(text::texts(r@) =~= w.take(0).filter(|n: Seq<char>| is_session_file(n)));
    }
    while i < to
        invariant
            from <= i <= to <= sorted@.len(),
            s == text::texts(sorted@),
            w == s.subrange(from as int, to as int),
            text::texts(r@) == w.take(i - from).filter(|n: Seq<char>| is_session_file(n)),
        decreases to - i,
    {
        let ghost before: Seq<String> = r@;
        proof {
            reveal(Seq::filter);
            assert(w.take(i + 1 - from).drop_last() =~= w.take(i - from));
            assert(w.take(i + 1 - from).last() == sorted@[i as int]@);
        }
        if names_session(sorted[i].as_str()) {
            r.push(sorted[i].clone());
            proof {
                assert(text::texts(r@) =~= text::texts(before).push(sorted@[i as int]@));
            }
        }
        i = i + 1;
    }
    proof {
        assert(w.take(to - from) =~= w);
        assert(text::texts(r@) =~= listed(s, page, size));
        assert(falls(s));
    }
    (r, n)
}

} // verus!
