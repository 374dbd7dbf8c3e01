//! Bytes as text, and the lines of a file.

use vstd::prelude::*;
use vstd::utf8::*;

verus! {

/// The text of `bytes`, with the replacement character in place of what is not
/// UTF-8, as `String::from_utf8_lossy` gives it.
pub uninterp spec fn lossy_text(bytes: Seq<u8>) -> Seq<char>;

/// Reads bytes as text with `String::from_utf8_lossy`: what it gives depends on
/// the bytes alone, and bytes that are UTF-8 are decoded as they are.
#[verifier::external_body]
pub(crate) fn text_lossy(bytes: &[u8]) -> (r: String)
    ensures
        r@ == lossy_text(bytes@),
        valid_utf8(bytes@) ==> r@ == decode_utf8(bytes@),
{
    String::from_utf8_lossy(bytes).into_owned()
}

/// Reads bytes as text with `String::from_utf8`: bytes that are UTF-8 are
/// decoded, and others refused.
#[verifier::external_body]
pub(crate) fn text_exact(bytes: Vec<u8>) -> (r: Option<String>)
    ensures
        match r {
            Some(s) => valid_utf8(bytes@) && s@ == decode_utf8(bytes@),
            None => !valid_utf8(bytes@),
        },
{
    String::from_utf8(bytes).ok()
}

/// The byte that ends a line.
pub const NEWLINE: u8 = 10;

/// Where the line that begins at `i` ends: at the next newline, or at the end.
pub open spec fn line_end(c: Seq<u8>, i: int) -> int
    decreases c.len() - i,
{
    if 0 <= i < c.len() && c[i] != NEWLINE {
        line_end(c, i + 1)
    } else {
        i
    }
}

/// Where the line behind the one that begins at `i` begins.
pub open spec fn next_line(c: Seq<u8>, i: int) -> int {
    if line_end(c, i) < c.len() {
        line_end(c, i) + 1
    } else {
        line_end(c, i)
    }
}

/// Where the line that ends at `hi` begins, not before `lo`.
pub open spec fn line_start(c: Seq<u8>, lo: int, hi: int) -> int
    decreases hi - lo,
{
    if lo < hi && c[hi - 1] != NEWLINE {
        line_start(c, lo, hi - 1)
    } else {
        hi
    }
}

/// The number of lines from `i` on. The last one may lack its newline.
pub open spec fn line_count(c: Seq<u8>, i: int) -> nat
    decreases c.len() - i,
    when i >= 0
    via line_count_decreases
{
    if i < c.len() {
        1 + line_count(c, next_line(c, i))
    } else {
        0
    }
}

#[via_fn]
proof fn line_count_decreases(c: Seq<u8>, i: int) {
    lemma_line_end(c, i);
}

pub proof fn lemma_line_end(c: Seq<u8>, i: int)
    requires
        0 <= i,
    ensures
        i <= line_end(c, i),
        i <= c.len() ==> line_end(c, i) <= c.len(),
        i < c.len() ==> i < next_line(c, i) <= c.len(),
        line_end(c, i) < c.len() ==> c[line_end(c, i)] == NEWLINE,
        forall|k: int| i <= k < line_end(c, i) ==> c[k] != NEWLINE,
    decreases c.len() - i,
{
    if i < c.len() && c[i] != NEWLINE {
        lemma_line_end(c, i + 1);
    }
}

pub proof fn lemma_line_start(c: Seq<u8>, lo: int, hi: int)
    requires
        lo <= hi,
    ensures
        lo <= line_start(c, lo, hi) <= hi,
        line_start(c, lo, hi) > lo ==> c[line_start(c, lo, hi) - 1] == NEWLINE,
        forall|k: int| line_start(c, lo, hi) <= k < hi ==> c[k] != NEWLINE,
    decreases hi - lo,
{
    if lo < hi && c[hi - 1] != NEWLINE {
        lemma_line_start(c, lo, hi - 1);
    }
}

/// The bytes of `c` from `from` to `to`.
pub fn part(c: &Vec<u8>, from: usize, to: usize) -> (r: Vec<u8>)
    requires
        from <= to <= c@.len(),
    ensures
        r@ == c@.subrange(from as int, to as int),
{
    let mut r: Vec<u8> = Vec::new();
    let mut i: usize = from;
    while i < to
        invariant
            from <= i <= to <= c@.len(),
            r@ == c@.subrange(from as int, i as int),
        decreases to - i,
    {
        r.push(c[i]);
        proof {
            assert(c@.subrange(from as int, i + 1) =~= c@.subrange(from as int, i as int).push(
                c@[i as int],
            ));
        }
        i = i + 1;
    }
    proof {
        assert(from == to ==> r@ =~= c@.subrange(from as int, to as int));
    }
    r
}

/// Where the line that begins at `i` ends.
pub fn find_line_end(c: &Vec<u8>, i: usize) -> (r: usize)
    requires
        i <= c@.len(),
    ensures
        r == line_end(c@, i as int),
        i <= r <= c@.len(),
{
    let mut k: usize = i;
    while k < c.len() && c[k] != NEWLINE
        invariant
            i <= k <= c@.len(),
            line_end(c@, i as int) == line_end(c@, k as int),
        decreases c@.len() - k,
    {
        k = k + 1;
    }
    k
}

/// Where the line that ends at `hi` begins, not before `lo`.
pub fn find_line_start(c: &Vec<u8>, lo: usize, hi: usize) -> (r: usize)
    requires
        lo <= hi <= c@.len(),
    ensures
        r == line_start(c@, lo as int, hi as int),
        lo <= r <= hi,
{
    let mut k: usize = hi;
    while lo < k && c[k - 1] != NEWLINE
        invariant
            lo <= k <= hi <= c@.len(),
            line_start(c@, lo as int, hi as int) == line_start(c@, lo as int, k as int),
        decreases k,
    {
        k = k - 1;
    }
    k
}

} // verus!
