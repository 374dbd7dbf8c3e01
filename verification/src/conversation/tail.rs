//! The end of a conversation file, read in chunks from the back until it holds
//! the lines of a page.

use crate::bytes;
use crate::conversation::pages::{LineWithOffset, PaginatedMessages};
use crate::conversation::pages;
use crate::text;
use vstd::prelude::*;

verus! {

/// How many bytes are read at once.
pub const BACKWARD_READ_CHUNK: u64 = 8192;

/// What was read of the end of a file.
#[derive(Debug, PartialEq, Eq)]
pub struct Tail {
    /// The bytes that were read.
    pub bytes: Vec<u8>,
    /// Where they begin in the file.
    pub start: u64,
    /// Where the data section of the file begins.
    pub data: u64,
}

/// The lines `ls`, `by` bytes further on.
pub open spec fn moved(ls: Seq<pages::LineView>, by: u64) -> Seq<pages::LineView> {
    ls.map_values(
        |l: pages::LineView|
            pages::LineView {
                content: l.content,
                offset: (l.offset + by) as u64,
                end: (l.end + by) as u64,
            },
    )
}

impl Tail {
    /// The bytes lie in the data section, and their places are numbers.
    pub open spec fn wf(self) -> bool {
        self.data <= self.start && self.start + self.bytes@.len() <= u64::MAX
    }

    /// Where the bytes end in the file.
    pub open spec fn end(self) -> int {
        self.start + self.bytes@.len()
    }

    /// The bytes are those of the file `c`.
    pub open spec fn is_read_from(self, c: Seq<u8>) -> bool {
        &&& self.wf()
        &&& self.end() <= c.len() <= u64::MAX
        &&& c.subrange(self.start as int, self.end()) == self.bytes@
    }

    /// Where the first line begins of which all is read.
    pub open spec fn first_whole_line(self) -> int {
        if self.start == self.data {
            0
        } else {
            bytes::next_line(self.bytes@, 0)
        }
    }

    /// The last `count` lines that were read whole and are not blank, with their
    /// places among the bytes.
    pub open spec fn read(self, count: nat) -> Seq<pages::LineView> {
        pages::last_of(
            pages::lines_between(self.bytes@, self.first_whole_line(), self.bytes@.len() as int),
            count,
        )
    }

    /// The same lines with their places in the file.
    pub open spec fn whole_lines(self, count: nat) -> Seq<pages::LineView> {
        moved(self.read(count), self.start)
    }

    /// Where the last `count` lines begin among the bytes.
    pub open spec fn lines_start(self, count: nat) -> u64 {
        pages::first_line_offset(self.read(count), self.bytes@.len() as u64)
    }

    /// A line before the last `count` was read whole and holds an entry.
    pub open spec fn has_older(self, count: nat) -> bool {
        pages::has_entry_between(
            self.bytes@,
            self.first_whole_line(),
            self.lines_start(count) as int,
        )
    }

    /// Enough is read for the last `count` lines, and to tell whether there is an
    /// entry before them.
    pub open spec fn suffices(self, count: nat) -> bool {
        self.start == self.data || self.has_older(count)
    }

    /// The tail of a file of which nothing before `end` is read yet.
    pub fn new(data: u64, end: u64) -> (r: Self)
        requires
            data <= end,
        ensures
            r.wf(),
            r.end() == end,
            r.data == data,
            r.start == end,
            forall|c: Seq<u8>|
                end <= c.len() <= u64::MAX ==> #[trigger] r.is_read_from(c),
    {
        let r: Tail = Tail { bytes: Vec::new(), start: end, data };
        proof {
            assert forall|c: Seq<u8>| end <= c.len() <= u64::MAX implies #[trigger] r.is_read_from(
                c,
            ) by {
                assert(c.subrange(end as int, end as int) =~= r.bytes@);
            }
        }
        r
    }

    /// Where the first line begins of which all is read.
    fn first_whole(&self) -> (r: usize)
        ensures
            r == self.first_whole_line(),
            r <= self.bytes@.len(),
    {
        if self.start == self.data {
            0
        } else {
            let e: usize = bytes::find_line_end(&self.bytes, 0);
            proof {
                bytes::lemma_line_end(self.bytes@, 0);
            }
            if e < self.bytes.len() {
                e + 1
            } else {
                e
            }
        }
    }

    /// Where the last `count` lines begin among the bytes, and whether a line before
    /// them was read whole and holds an entry.
    fn before_lines(&self, count: usize) -> (r: (u64, bool))
        requires
            self.wf(),
        ensures
            r.0 == self.lines_start(count as nat),
            r.0 <= self.bytes@.len(),
            r.1 == self.has_older(count as nat),
    {
        let n: usize = self.bytes.len();
        let first: usize = self.first_whole();
        let found: Vec<LineWithOffset> = pages::read_lines_backward(&self.bytes, first, n, count);
        let ghost all: Seq<pages::LineView> = pages::lines_between(
            self.bytes@,
            first as int,
            n as int,
        );
        proof {
            let views = pages::line_views(found@);
            assert(views.len() == found@.len());
            if found@.len() > 0 {
                assert(views[0] == found@[0]@);
                pages::lemma_lines_before(
                    self.bytes@,
                    first as int,
                    n as int,
                    all.len() - found@.len(),
                );
            }
        }
        let at: usize = if found.len() > 0 {
            found[0].offset as usize
        } else {
            n
        };
        (at as u64, pages::finds_entry_between(&self.bytes, first, at))
    }

    /// The last `count` lines that were read whole and are not blank.
    pub fn lines(&self, count: usize) -> (r: Vec<LineWithOffset>)
        requires
            self.wf(),
        ensures
            pages::line_views(r@) == self.whole_lines(count as nat),
    {
        let n: usize = self.bytes.len();
        let first: usize = self.first_whole();
        let mut found: Vec<LineWithOffset> = pages::read_lines_backward(
            &self.bytes,
            first,
            n,
            count,
        );
        let ghost before: Seq<LineWithOffset> = found@;
        proof {
            let all = pages::lines_between(self.bytes@, first as int, n as int);
            assert forall|k: int| 0 <= k < before.len() implies #[trigger] before[k].offset <= n
                && before[k].end <= n by {
                let views = pages::line_views(before);
                assert(views[k] == before[k]@);
                lemma_lines_inside(self.bytes@, first as int, n as int, all.len() - views.len() + k);
            }
        }
        let mut i: usize = 0;
        while i < found.len()
            invariant
                i <= found@.len(),
                found@.len() == before.len(),
                n == self.bytes@.len(),
                self.wf(),
                forall|k: int|
                    0 <= k < before.len() ==> #[trigger] before[k].offset <= n && before[k].end
                        <= n,
                forall|k: int| i <= k < found@.len() ==> found@[k] == before[k],
                forall|k: int|
                    0 <= k < i ==> #[trigger] found@[k]@ == moved(
                        pages::line_views(before),
                        self.start,
                    )[k],
            decreases found@.len() - i,
        {
            proof {
                assert(found@[i as int] == before[i as int]);
            }
            let offset: u64 = found[i].offset + self.start;
            let end: u64 = found[i].end + self.start;
            found[i].offset = offset;
            found[i].end = end;
            i = i + 1;
        }
        proof {
            assert(pages::line_views(found@) =~= moved(pages::line_views(before), self.start));
        }
        found
    }

    /// Where the chunk begins and ends that has to be read next for the last `count`
    /// lines and what stands before them, or `None` where enough is read.
    pub fn missing(&self, count: usize) -> (r: Option<(u64, u64)>)
        requires
            self.wf(),
        ensures
            r is None <==> self.suffices(count as nat),
            r matches Some(chunk) ==> chunk.1 == self.start && self.data <= chunk.0 < chunk.1
                && chunk.1 - chunk.0 <= BACKWARD_READ_CHUNK && (chunk.1 - chunk.0
                == BACKWARD_READ_CHUNK || chunk.0 == self.data),
    {
        if self.start == self.data {
            return None;
        }
        if self.before_lines(count).1 {
            return None;
        }
        let from: u64 = if self.start - self.data > BACKWARD_READ_CHUNK {
            self.start - BACKWARD_READ_CHUNK
        } else {
            self.data
        };
        Some((from, self.start))
    }

    /// The tail with the bytes `chunk` that stand before it.
    pub fn with_chunk(self, chunk: Vec<u8>) -> (r: Self)
        requires
            self.wf(),
            chunk@.len() <= self.start - self.data,
        ensures
            r.wf(),
            r.bytes@ == chunk@ + self.bytes@,
            r.start == self.start - chunk@.len(),
            r.data == self.data,
            r.end() == self.end(),
            forall|c: Seq<u8>|
                self.is_read_from(c) && c.subrange(r.start as int, self.start as int) == chunk@
                    ==> #[trigger] r.is_read_from(c),
    {
        let start: u64 = self.start - chunk.len() as u64;
        let mut joined: Vec<u8> = chunk;
        let mut rest: Vec<u8> = self.bytes;
        joined.append(&mut rest);
        let r: Tail = Tail { bytes: joined, start, data: self.data };
        proof {
            assert forall|c: Seq<u8>|
                self.is_read_from(c) && c.subrange(r.start as int, self.start as int)
                    == chunk@ implies #[trigger] r.is_read_from(c) by {
                assert(c.subrange(r.start as int, r.end()) =~= chunk@ + self.bytes@);
            }
        }
        r
    }

    /// `p` is the page of at most `limit` display groups at the end of what was read.
    pub open spec fn is_last_page(self, limit: u32, p: pages::PageView) -> bool {
        let count = pages::raw_limit(limit);
        pages::is_newest_page(
            pages::entries_of(self.whole_lines(count)),
            limit,
            (self.start + self.lines_start(count)) as u64,
            self.has_older(count),
            p,
        )
    }

    /// The page of at most `limit` display groups at the end of what was read.
    pub fn page(&self, limit: u32) -> (r: PaginatedMessages)
        requires
            self.wf(),
        ensures
            self.is_last_page(limit, r@),
    {
        let count: usize = pages::lines_for_page(limit);
        let (at, older): (u64, bool) = self.before_lines(count);
        let lines: Vec<LineWithOffset> = self.lines(count);
        pages::page_backward(pages::read_entries(&lines), limit, self.start + at, older)
    }
}

/// Where the page before a cursor ends in a file of `file_len` bytes, or `None`
/// where the data section begins no earlier.
pub fn page_end(cursor: &Option<String>, data: u64, file_len: u64) -> (r: Option<u64>)
    ensures
        ({
            let raw_end = pages::offset_or(text::opt_text(*cursor), file_len);
            let end = if raw_end < file_len {
                raw_end
            } else {
                file_len
            };
            r == if end <= data {
                None
            } else {
                Some(end)
            }
        }),
{
    let raw_end: u64 = pages::offset_or_default(cursor, file_len);
    let end: u64 = if raw_end < file_len {
        raw_end
    } else {
        file_len
    };
    if end <= data {
        None
    } else {
        Some(end)
    }
}

proof fn lemma_lines_inside(c: Seq<u8>, lo: int, hi: int, i: int)
    requires
        0 <= lo,
        hi <= c.len() <= u64::MAX,
        0 <= i < pages::lines_between(c, lo, hi).len(),
    ensures
        pages::lines_between(c, lo, hi)[i].offset <= hi,
        pages::lines_between(c, lo, hi)[i].end <= hi,
    decreases hi - lo + 1,
{
    bytes::lemma_line_start(c, lo, hi);
    let s = bytes::line_start(c, lo, hi);
    if i < pages::lines_between(c, lo, s - 1).len() {
        lemma_lines_inside(c, lo, s - 1, i);
    }
}

/// The lines on either side of a newline are all the lines.
pub(crate) proof fn lemma_split(c: Seq<u8>, lo: int, q: int, hi: int)
    requires
        0 <= lo < q <= hi <= c.len(),
        c[q - 1] == bytes::NEWLINE,
    ensures
        pages::lines_between(c, lo, hi) == pages::lines_between(c, lo, q - 1)
            + pages::lines_between(c, q, hi),
    decreases hi,
{
    let first = pages::lines_between(c, lo, q - 1);
    if hi == q {
        pages::lemma_no_text(c, q);
        assert(bytes::line_start(c, lo, q) == q);
        assert(first + pages::lines_between(c, q, hi) =~= first);
    } else {
        bytes::lemma_line_start(c, lo, hi);
        bytes::lemma_line_start(c, q, hi);
        let s = bytes::line_start(c, lo, hi);
        assert(s >= q);
        assert(s == bytes::line_start(c, q, hi)) by {
            let t = bytes::line_start(c, q, hi);
            if s < t {
                assert(c[t - 1] == bytes::NEWLINE);
            }
            if t < s {
                assert(c[s - 1] == bytes::NEWLINE);
            }
        }
        let older = pages::lines_between(c, q, s - 1);
        if s == q {
            assert(first + older =~= first);
        } else {
            lemma_split(c, lo, q, s - 1);
        }
        let l = pages::shown_line(c, s, hi);
        assert(first + older.push(l) =~= (first + older).push(l));
    }
}

/// The lines of a part of a file are those of the file at the same place.
proof fn lemma_moved(c: Seq<u8>, a: u64, w: Seq<u8>, x: int, y: int)
    requires
        a + w.len() <= c.len() <= u64::MAX,
        w == c.subrange(a as int, a + w.len()),
        0 <= x,
        y <= w.len(),
    ensures
        pages::lines_between(c, a + x, a + y) == moved(pages::lines_between(w, x, y), a),
    decreases y - x + 1,
{
    if x < y {
        bytes::lemma_line_start(c, a + x, a + y);
        bytes::lemma_line_start(w, x, y);
        let s = bytes::line_start(w, x, y);
        assert(bytes::line_start(c, a + x, a + y) == a + s) by {
            let t = bytes::line_start(c, a + x, a + y);
            if t < a + s {
                assert(w[s - 1] == c[a + s - 1]);
            }
            if a + s < t {
                assert(w[t - 1 - a] == c[t - 1]);
            }
        }
        lemma_moved(c, a, w, x, s - 1);
        assert(c.subrange(a + s, a + y) =~= w.subrange(s, y));
        let before = pages::lines_between(w, x, s - 1);
        let l = pages::shown_line(w, s, y);
        assert(moved(before.push(l), a) =~= moved(before, a).push(
            pages::shown_line(c, a + s, a + y),
        ));
    } else {
        assert(moved(pages::lines_between(w, x, y), a) =~= Seq::empty());
    }
}

proof fn lemma_moved_entries(ls: Seq<pages::LineView>, by: u64)
    ensures
        pages::entries_of(moved(ls, by)).len() == pages::entries_of(ls).len(),
    decreases ls.len(),
{
    if ls.len() > 0 {
        lemma_moved_entries(ls.drop_last(), by);
        assert(moved(ls, by).drop_last() =~= moved(ls.drop_last(), by));
    }
}

/// Once enough is read of the end of a file, its last lines are those of the
/// whole file, and there is an entry before them where there is one in the file:
/// what stands before the bytes makes no difference.
pub proof fn tail_lines_are_those_of_the_file(t: Tail, c: Seq<u8>, count: nat)
    requires
        t.is_read_from(c),
        t.suffices(count),
    ensures
        ({
            let lines = pages::last_of(
                pages::lines_between(c, t.data as int, t.end()),
                count,
            );
            let at = pages::first_line_offset(lines, t.end() as u64);
            &&& t.whole_lines(count) == lines
            &&& t.start + t.lines_start(count) == at
            &&& t.has_older(count) == pages::has_entry_between(c, t.data as int, at as int)
        }),
{
    let n = t.bytes@.len() as int;
    let first = t.first_whole_line();
    let whole = pages::lines_between(t.bytes@, first, n);
    let all = pages::lines_between(c, t.data as int, t.end());
    let o = t.lines_start(count) as int;
    bytes::lemma_line_end(t.bytes@, 0);
    if t.read(count).len() > 0 {
        assert(t.read(count)[0] == whole[whole.len() - t.read(count).len()]);
        pages::lemma_lines_before(t.bytes@, first, n, whole.len() - t.read(count).len());
    }
    lemma_moved(c, t.start, t.bytes@, first, n);
    lemma_moved(c, t.start, t.bytes@, first, o);
    let there = pages::lines_between(c, t.start + first, t.end());
    let older = pages::lines_between(t.bytes@, first, o);
    lemma_moved_entries(older, t.start);
    assert(there == moved(whole, t.start));
    if t.start == t.data {
        assert(all == there);
    } else {
        assert(older.len() > 0);
        assert(first < o);
        assert(older =~= whole.take(whole.len() - t.read(count).len()));
        assert(whole.len() > count);
        let q = t.start + first;
        assert(t.bytes@[first - 1] == bytes::NEWLINE);
        assert(c[q - 1] == t.bytes@[first - 1]);
        lemma_split(c, t.data as int, q, t.end());
        lemma_split(c, t.data as int, q, t.start + o);
        pages::lemma_entries_concat(
            pages::lines_between(c, t.data as int, q - 1),
            pages::lines_between(c, q, t.start + o),
        );
    }
    assert(t.whole_lines(count) =~= pages::last_of(there, count));
    assert(t.whole_lines(count) =~= pages::last_of(all, count));
}

/// The page at the end of a file is the same, whether the whole file is read or
/// just enough of its end.
pub proof fn tail_page_is_that_of_the_file(
    t: Tail,
    c: Seq<u8>,
    cursor: Option<Seq<char>>,
    limit: u32,
    p: pages::PageView,
)
    requires
        t.is_read_from(c),
        t.suffices(pages::raw_limit(limit)),
        t.data < t.end(),
        t.end() == pages::back_end(c, cursor),
    ensures
        t.is_last_page(limit, p) <==> pages::is_back_page(c, t.data, cursor, limit, p),
{
    tail_lines_are_those_of_the_file(t, c, pages::raw_limit(limit));
}

} // verus!
