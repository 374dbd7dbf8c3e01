//! Paths and file names.

use crate::text;
use vstd::prelude::*;

verus! {

/// The last index before `end` of a full stop.
pub open spec fn last_dot(s: Seq<char>, end: int) -> Option<int>
    decreases end,
{
    if end <= 0 {
        None
    } else if s[end - 1] == '.' {
        Some(end - 1)
    } else {
        last_dot(s, end - 1)
    }
}

/// Where the extension of a file name is cut off. A name that begins with its
/// last full stop has no extension.
pub open spec fn extension_at(name: Seq<char>) -> Option<int> {
    if name == seq!['.', '.'] {
        None
    } else {
        match last_dot(name, name.len() as int) {
            Some(i) => if i > 0 {
                Some(i)
            } else {
                None
            },
            None => None,
        }
    }
}

/// A file name without its extension.
pub open spec fn stem_of(name: Seq<char>) -> Seq<char> {
    match extension_at(name) {
        Some(i) => name.take(i),
        None => name,
    }
}

/// Where the extension of a file name is cut off.
pub fn find_extension(cs: &Vec<char>) -> (r: Option<usize>)
    ensures
        match r {
            Some(i) => extension_at(cs@) == Some(i as int) && i < cs@.len(),
            None => extension_at(cs@) is None,
        },
{
    if cs.len() == 2 && cs[0] == '.' && cs[1] == '.' {
        proof {
            assert(cs@ =~= seq!['.', '.']);
        }
        return None;
    }
    let mut end: usize = cs.len();
    while end > 0 && cs[end - 1] != '.'
        invariant
            end <= cs@.len(),
            last_dot(cs@, cs@.len() as int) == last_dot(cs@, end as int),
        decreases end,
    {
        end = end - 1;
    }
    proof {
        if cs@ == seq!['.', '.'] {
            assert(cs@[0] == '.' && cs@[1] == '.');
        }
    }
    if end > 1 {
        Some(end - 1)
    } else {
        None
    }
}

/// A file name without its extension.
pub fn file_stem(name: &str) -> (r: String)
    ensures
        r@ == stem_of(name@),
{
    let cs: Vec<char> = text::chars_of(name);
    match find_extension(&cs) {
        Some(i) => {
            let r: String = text::string_of(&cs, 0, i);
            proof {
                assert(r@ =~= name@.take(i as int));
            }
            r
        },
        None => name.to_string(),
    }
}

/// A path without the slashes at its end, and without the steps there that lead
/// nowhere.
pub open spec fn path_end(p: Seq<char>) -> Seq<char>
    decreases p.len(),
{
    if p.len() > 0 && p.last() == '/' {
        path_end(p.drop_last())
    } else if p.len() > 1 && p.last() == '.' && p[p.len() - 2] == '/' {
        path_end(p.drop_last())
    } else {
        p
    }
}

/// Where the part of `p` behind its last slash before `end` begins.
pub open spec fn name_start(p: Seq<char>, end: int) -> int
    decreases end,
{
    if 0 < end && p[end - 1] != '/' {
        name_start(p, end - 1)
    } else {
        end
    }
}

/// The name of the file that a path leads to. A path that ends in a step up, or
/// leads nowhere, has none.
pub open spec fn file_name_of(p: Seq<char>) -> Option<Seq<char>> {
    let q = path_end(p);
    let name = q.skip(name_start(q, q.len() as int));
    if name.len() == 0 || name == seq!['.'] || name == seq!['.', '.'] {
        None
    } else {
        Some(name)
    }
}

/// The extension of the file that a path leads to, if it has one.
pub open spec fn extension_of(p: Seq<char>) -> Option<Seq<char>> {
    match file_name_of(p) {
        Some(name) => match extension_at(name) {
            Some(i) => Some(name.skip(i + 1)),
            None => None,
        },
        None => None,
    }
}

/// The extension of the file that a path leads to, if it has one.
pub fn extension(path: &str) -> (r: Option<String>)
    ensures
        text::opt_text(r) == extension_of(path@),
{
    let cs: Vec<char> = text::chars_of(path);
    let mut end: usize = cs.len();
    proof {
        assert(cs@.take(end as int) =~= cs@);
    }
    while end > 0 && (cs[end - 1] == '/' || (end > 1 && cs[end - 1] == '.' && cs[end - 2] == '/'))
        invariant
            end <= cs@.len(),
            cs@ == path@,
            path_end(path@) == path_end(cs@.take(end as int)),
        decreases end,
    {
        proof {
            assert(cs@.take(end as int).drop_last() =~= cs@.take(end - 1));
        }
        end = end - 1;
    }
    let ghost q: Seq<char> = path_end(path@);
    proof {
        assert(q == cs@.take(end as int));
    }
    let mut start: usize = end;
    while start > 0 && cs[start - 1] != '/'
        invariant
            start <= end <= cs@.len(),
            q == cs@.take(end as int),
            name_start(q, end as int) == name_start(q, start as int),
        decreases start,
    {
        start = start - 1;
    }
    let name: String = text::string_of(&cs, start, end);
    proof {
        assert(name@ =~= q.skip(start as int));
    }
    let ns: Vec<char> = text::chars_of(name.as_str());
    let n: usize = ns.len();
    if n == 0 || (n == 1 && ns[0] == '.') || (n == 2 && ns[0] == '.' && ns[1] == '.') {
        proof {
            assert(n == 1 ==> ns@ =~= seq!['.']);
            assert(n == 2 ==> ns@ =~= seq!['.', '.']);
        }
        return None;
    }
    proof {
        if ns@ == seq!['.'] || ns@ == seq!['.', '.'] {
            assert(ns@[0] == '.');
            if n == 2 {
                assert(ns@[1] == '.');
            }
        }
    }
    match find_extension(&ns) {
        Some(i) => {
            let r: String = text::string_of(&ns, i + 1, n);
            proof {
                assert(r@ =~= ns@.skip(i + 1));
            }
            Some(r)
        },
        None => None,
    }
}

/// A path to `rest`, which does not begin with a slash, under `base`.
pub open spec fn joined_path(base: Seq<char>, rest: Seq<char>) -> Seq<char> {
    if base.len() == 0 || base.last() == '/' {
        base + rest
    } else {
        base.push('/') + rest
    }
}

/// A path to `rest`, which does not begin with a slash, under `base`.
pub fn join_path(base: &str, rest: &str) -> (r: String)
    ensures
        r@ == joined_path(base@, rest@),
{
    let cs: Vec<char> = text::chars_of(base);
    let n: usize = cs.len();
    let mut r: String = base.to_string();
    if n > 0 && cs[n - 1] != '/' {
        r.push('/');
    }
    r.append(rest);
    r
}

} // verus!
