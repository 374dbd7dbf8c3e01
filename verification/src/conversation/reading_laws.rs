//! What readers of a conversation file and of a directory of them are given.

use crate::agent::session::restorer;
use crate::bytes;
use crate::conversation::entry;
use crate::conversation::groups;
use crate::conversation::listing;
use crate::conversation::pages;
use crate::conversation::session;
use crate::conversation::since;
use crate::conversation::tail;
use crate::json;
use crate::paths;
use crate::text;
use vstd::prelude::*;
use vstd::utf8::*;

verus! {

/// An entry that is appended to a file is new to a reader who has no more lines than the
/// file had before, and to no other; what else was new to them stays so.
pub proof fn appended_entry_is_new(
    c: Seq<u8>,
    i: int,
    number: nat,
    after: nat,
    line: Seq<char>,
    e: entry::EntryView,
)
    requires
        0 <= i <= c.len(),
        i < c.len() ==> c.last() == bytes::NEWLINE,
        json::is_line(line),
        entry::entry_of_text(line) == Some(e),
    ensures
        ({
            let d = c + encode_utf8(line.push('\n'));
            let before = since::entries_behind(c, i, number, after);
            let now = since::entries_behind(d, i, number, after);
            &&& number + bytes::line_count(c, i) > after ==> now == before.push(e)
            &&& number + bytes::line_count(c, i) <= after ==> now == before
            &&& bytes::line_count(d, i) == bytes::line_count(c, i) + 1
        }),
    decreases c.len() - i,
{
    let b = encode_utf8(line);
    let full = line.push('\n');
    text::lemma_encode_last(full);
    assert(full.drop_last() =~= line);
    assert(encode_utf8(full) == b.push(10u8));
    text::lemma_encode_no_newline(line);
    text::lemma_encode_last(line);
    let d = c + encode_utf8(full);
    let n = c.len() as int;
    let end = d.len() as int;
    if i == n {
        assert(d[end - 1] == 10u8);
        assert forall|k: int| n <= k < end - 1 implies d[k] != bytes::NEWLINE by {
            assert(d[k] == b[k - n]);
        }
        restorer::lemma_end_is(d, n, end - 1);
        restorer::lemma_no_return(line);
        assert(d[end - 2] == b.last());
        assert(since::text_end(d, n) == end - 1);
        assert(d.subrange(n, end - 1) =~= b);
        encode_utf8_valid_utf8(line);
        encode_utf8_decode_utf8(line);
        assert(since::entries_behind(d, end, number + 1, after) =~= Seq::empty());
        assert(since::entries_behind(c, n, number, after) =~= Seq::empty());
        assert(Seq::<entry::EntryView>::empty().push(e) =~= seq![e]);
        assert(seq![e] + Seq::<entry::EntryView>::empty() =~= seq![e]);
        assert(bytes::line_count(d, end) == 0);
        assert(bytes::line_count(c, n) == 0);
    } else {
        restorer::lemma_last_newline(c, i);
        bytes::lemma_line_end(c, i);
        let x = bytes::line_end(c, i);
        assert forall|k: int| i <= k < x implies d[k] != bytes::NEWLINE by {
            assert(d[k] == c[k]);
        }
        assert(d[x] == c[x]);
        restorer::lemma_end_is(d, i, x);
        let next = x + 1;
        assert(since::text_end(d, i) == since::text_end(c, i)) by {
            if i < x {
                assert(d[x - 1] == c[x - 1]);
            }
        }
        assert(d.subrange(i, since::text_end(d, i)) =~= c.subrange(i, since::text_end(c, i)));
        appended_entry_is_new(c, next, number + 1, after, line, e);
        let rest = since::entries_behind(c, next, number + 1, after);
        if let Some(h) = since::entry_at(c, i) {
            assert(seq![h] + rest.push(e) =~= (seq![h] + rest).push(e));
        }
    }
}

/// The entry is part of a run: a thought, a tool call or a tool result.
pub open spec fn runs_on(e: entry::EntryView) -> bool {
    e.kind != Some("compaction"@) && (e.role == "thought"@ || e.role == "tool_call"@ || e.role
        == "tool_result"@)
}

/// A run of thoughts, tool calls and tool results is shown as one group; every other
/// entry is a group of its own.
pub proof fn runs_are_one_group(es: Seq<entry::EntryView>, e: entry::EntryView)
    ensures
        groups::group_count(Seq::empty()) == 0,
        groups::group_count(es.push(e)) == groups::group_count(es) + (if es.len() > 0 && runs_on(
            es.last(),
        ) && runs_on(e) {
            0nat
        } else {
            1nat
        }),
        es.len() > 0 ==> (groups::opens_group(es.push(e), es.len() as int) <==> !(runs_on(e)
            && runs_on(es.last()))),
        groups::opens_group(es, 0),
{
    assert(es.push(e).drop_last() =~= es);
}

/// How many lines are read for a page: ten for each group, but no more than five hundred.
pub open spec fn lines_read(limit: u32) -> nat {
    if limit < 50 {
        (limit * 10) as nat
    } else {
        500
    }
}

/// A page that is read backward is as full as it may be: it holds the newest groups of
/// the last lines that are read for it, `limit` of them, or all where there are no
/// more.
pub proof fn backward_pages_are_full(
    c: Seq<u8>,
    start: u64,
    cursor: Option<Seq<char>>,
    limit: u32,
    p: pages::PageView,
)
    requires
        start <= c.len() <= u64::MAX,
        pages::is_back_page(c, start, cursor, limit, p),
        pages::back_end(c, cursor) > start,
    ensures
        ({
            let lines = pages::lines_between(c, start as int, pages::back_end(c, cursor));
            let n = lines_read(limit);
            let read = pages::bare(
                pages::entries_of(
                    if lines.len() <= n {
                        lines
                    } else {
                        lines.skip(lines.len() - n)
                    },
                ),
            );
            &&& p.messages.len() <= read.len()
            &&& p.messages == read.skip(read.len() - p.messages.len())
            &&& groups::group_count(read) <= limit ==> p.messages == read
            &&& groups::group_count(read) > limit ==> groups::group_count(p.messages) == limit
        }),
{
    let lines = pages::lines_between(c, start as int, pages::back_end(c, cursor));
    let last = pages::last_of(lines, pages::raw_limit(limit));
    let ps = pages::entries_of(last);
    let read = pages::bare(ps);
    let otherwise = pages::first_line_offset(last, pages::back_end(c, cursor) as u64);
    let older = pages::has_entry_between(c, start as int, otherwise as int);
    let k = choose|k: int| #[trigger]
        pages::keeps_newest(pages::bare(ps), k, limit as nat) && p == pages::back_page(
            ps,
            k,
            otherwise,
            older,
        );
    assert(p.messages =~= read.skip(k));
    if k == 0 {
        assert(read.skip(0) =~= read);
    }
}

/// A page that is read forward is as full as it may be: it holds the oldest groups of the
/// first lines that are read for it, `limit` of them, or all where there are no more.
pub proof fn forward_pages_are_full(
    c: Seq<u8>,
    data: u64,
    cursor: Option<Seq<char>>,
    limit: u32,
    p: pages::PageView,
)
    requires
        pages::is_ahead_page(c, data, cursor, limit, Some(p)),
    ensures
        pages::lines_ahead(c, pages::ahead_start(data, cursor) as int, lines_read(limit)) matches Some(
            lines,
        ) && {
            let read = pages::bare(pages::entries_of(lines));
            &&& p.messages.len() <= read.len()
            &&& p.messages == read.take(p.messages.len() as int)
            &&& groups::group_count(read) <= limit ==> p.messages == read
            &&& groups::group_count(read) > limit ==> groups::group_count(p.messages) == limit
        },
{
    let start = pages::ahead_start(data, cursor);
    let lines = pages::lines_ahead(c, start as int, pages::raw_limit(limit))->0;
    let ps = pages::entries_of(lines);
    let read = pages::bare(ps);
    let otherwise = pages::last_line_next(lines, start, c.len() as u64);
    let newer = pages::has_entry_ahead(c, otherwise as int);
    let k = choose|k: int| #[trigger]
        pages::keeps_oldest(pages::bare(ps), k, limit as nat) && p == pages::ahead_page(
            ps,
            k,
            otherwise,
            newer,
            c.len() as u64,
        );
    assert(p.messages =~= read.take(k));
    if k == read.len() {
        assert(read.take(k) =~= read);
    }
}

/// The lines that are read forward are those that are read backward.
pub proof fn both_directions_read_the_same(c: Seq<u8>, i: int)
    requires
        0 <= i <= c.len() <= u64::MAX,
        pages::all_ahead(c, i) is Some,
    ensures
        pages::all_ahead(c, i)->0 == pages::lines_between(c, i, c.len() as int),
{
    lemma_ahead(c, i, c.len());
}

proof fn lemma_ahead(c: Seq<u8>, i: int, n: nat)
    requires
        0 <= i <= c.len() <= u64::MAX,
        n >= c.len() - i,
        pages::lines_ahead(c, i, n) is Some,
    ensures
        pages::lines_ahead(c, i, n)->0 == pages::lines_between(c, i, c.len() as int),
    decreases c.len() - i,
{
    let len = c.len() as int;
    if i >= len {
        assert(pages::lines_ahead(c, i, n)->0 =~= pages::lines_between(c, i, len));
    } else {
        bytes::lemma_line_end(c, i);
        let e = bytes::line_end(c, i);
        let next = bytes::next_line(c, i);
        lemma_one_line(c, i, e);
        if e < len {
            tail::lemma_split(c, i, next, len);
        }
        let blank = pages::exact_line(c, i).content.len() == 0;
        let m = if blank {
            n
        } else {
            (n - 1) as nat
        };
        lemma_ahead(c, next, m);
        let rest = pages::lines_between(c, next, len);
        if e == len {
            assert(rest =~= Seq::empty());
        }
        let first = pages::lines_between(c, i, e);
        assert(pages::lines_between(c, i, len) =~= first + rest);
        if blank {
            assert(first + rest =~= rest);
        } else {
            assert(first =~= seq![pages::exact_line(c, i)]);
        }
    }
}

proof fn lemma_one_line(c: Seq<u8>, i: int, e: int)
    requires
        0 <= i <= e <= c.len(),
        forall|k: int| i <= k < e ==> c[k] != bytes::NEWLINE,
        valid_utf8(c.subrange(i, e)),
        e == bytes::line_end(c, i),
    ensures
        pages::lines_between(c, i, e) == (if pages::exact_line(c, i).content.len() == 0 {
            Seq::empty()
        } else {
            seq![pages::exact_line(c, i)]
        }),
{
    if i < e {
        bytes::lemma_line_start(c, i, e);
        let s = bytes::line_start(c, i, e);
        if s > i {
            assert(c[s - 1] == bytes::NEWLINE);
        }
        assert(pages::lines_between(c, i, s - 1) =~= Seq::empty());
        assert(pages::lines_between(c, i, e) =~= if pages::exact_line(c, i).content.len() == 0 {
            Seq::empty()
        } else {
            seq![pages::exact_line(c, i)]
        });
    } else {
        pages::lemma_no_text(c, i);
        assert(pages::lines_between(c, i, e) =~= Seq::empty());
    }
}

/// A file name stands behind another one where it has the greater character at the first
/// place at which they differ, or goes on where the other one ends.
pub proof fn names_are_ordered_by_their_characters(
    a: Seq<char>,
    x: char,
    y: char,
    u: Seq<char>,
    v: Seq<char>,
)
    requires
        x != y,
    ensures
        listing::less(a + seq![x] + u, a + seq![y] + v) == (x < y),
        listing::less(a, a + seq![y] + v),
        !listing::less(a + seq![y] + v, a),
        !listing::less(a, a),
{
    lemma_less_skips(a + seq![x] + u, a + seq![y] + v, a.len() as int, 0);
    lemma_less_skips(a, a + seq![y] + v, a.len() as int, 0);
    lemma_less_skips(a + seq![y] + v, a, a.len() as int, 0);
    lemma_less_skips(a, a, a.len() as int, 0);
    assert((a + seq![x] + u)[a.len() as int] == x);
    assert((a + seq![y] + v)[a.len() as int] == y);
}

proof fn lemma_less_skips(a: Seq<char>, b: Seq<char>, n: int, i: int)
    requires
        0 <= i <= n <= a.len(),
        n <= b.len(),
        forall|k: int| 0 <= k < n ==> a[k] == b[k],
    ensures
        listing::less_from(a, b, i) == listing::less_from(a, b, n),
    decreases n - i,
{
    if i < n {
        lemma_less_skips(a, b, n, i + 1);
    }
}

/// The file of a session is one whose name ends in `.jsonl`, in small or capital letters,
/// behind a name.
pub proof fn session_files_are_known_by_their_extension(stem: Seq<char>, extension: Seq<char>)
    requires
        stem.len() > 0,
        extension.len() > 0,
        forall|i: int| 0 <= i < extension.len() ==> extension[i] != '.',
    ensures
        listing::is_session_file(stem + seq!['.'] + extension) == (extension.len() == 5 && (
        extension[0] == 'j' || extension[0] == 'J') && (extension[1] == 's' || extension[1] == 'S')
            && (extension[2] == 'o' || extension[2] == 'O') && (extension[3] == 'n' || extension[3]
            == 'N') && (extension[4] == 'l' || extension[4] == 'L')),
        paths::stem_of(stem + seq!['.'] + extension) == stem,
{
    reveal_strlit("jsonl");
    let name = stem + seq!['.'] + extension;
    lemma_last_dot(name, stem.len() as int, name.len() as int);
    assert(name[name.len() - 1] == extension[extension.len() - 1]);
    assert(name != seq!['.', '.']);
    assert(name.skip(stem.len() as int + 1) =~= extension);
    assert(name.take(stem.len() as int) =~= stem);
    let low = listing::lower_text(extension);
    if extension.len() == 5 {
        lemma_lowered(extension[0], 'j', 'J');
        lemma_lowered(extension[1], 's', 'S');
        lemma_lowered(extension[2], 'o', 'O');
        lemma_lowered(extension[3], 'n', 'N');
        lemma_lowered(extension[4], 'l', 'L');
        assert(low == "jsonl"@ <==> low[0] == 'j' && low[1] == 's' && low[2] == 'o' && low[3] == 'n'
            && low[4] == 'l') by {
            if low[0] == 'j' && low[1] == 's' && low[2] == 'o' && low[3] == 'n' && low[4] == 'l' {
                assert(low =~= "jsonl"@);
            }
        }
    } else {
        assert(low.len() == extension.len());
    }
}

proof fn lemma_lowered(c: char, small: char, capital: char)
    requires
        'a' <= small <= 'z',
        small as u32 == capital as u32 + 32,
    ensures
        listing::lowered(c) == small <==> c == small || c == capital,
{
}

proof fn lemma_last_dot(name: Seq<char>, at: int, end: int)
    requires
        0 <= at < end <= name.len(),
        name[at] == '.',
        forall|k: int| at < k < end ==> name[k] != '.',
    ensures
        paths::last_dot(name, end) == Some(at),
    decreases end,
{
    if at < end - 1 {
        lemma_last_dot(name, at, end - 1);
    }
}

/// A number that is asked for: nothing counts as the default, and zero as one.
pub open spec fn asked_for(o: Option<u32>, default: int) -> int {
    match o {
        Some(n) => if n == 0 {
            1
        } else {
            n as int
        },
        None => default,
    }
}

/// A page of a listing skips the names of the pages before it, twenty to a page where no
/// size is asked for, and takes as many names as stand before its end; of these it
/// shows the names of sessions, in their order. The first page takes as many as its
/// size.
pub proof fn listing_goes_from_page_to_page(
    s: Seq<Seq<char>>,
    page: Option<u32>,
    size: Option<u32>,
) -> (taken: Seq<Seq<char>>)
    ensures
        ({
            let n = asked_for(size, 20);
            let start = (asked_for(page, 1) - 1) * n;
            &&& listing::listed(s, page, size) == taken.filter(
                |x: Seq<char>| listing::is_session_file(x),
            )
            &&& start >= s.len() ==> taken.len() == 0
            &&& start < s.len() ==> taken == s.subrange(
                start,
                if start + (start + n) < s.len() {
                    start + (start + n)
                } else {
                    s.len() as int
                },
            )
            &&& start >= 0
        }),
{
    let n = asked_for(size, 20);
    let start = (asked_for(page, 1) - 1) * n;
    assert(start >= 0) by (nonlinear_arith)
        requires
            start == (asked_for(page, 1) - 1) * n,
            asked_for(page, 1) >= 1,
            n >= 1,
    ;
    let taken = listing::window(s, start, start + n);
    if start < s.len() && start + (start + n) >= s.len() {
        assert(s.skip(start) =~= s.subrange(start, s.len() as int));
    }
    taken
}

/// A sorted listing has no name before one that stands behind it: those that were made last
/// come first.
pub proof fn listings_begin_with_the_last(s: Seq<Seq<char>>, i: int, j: int)
    requires
        listing::falls(s),
        0 <= i < j < s.len(),
    ensures
        !listing::less(s[i], s[j]),
{
}

/// A line that is appended and stands for no entry is counted as one that could not be
/// read, and adds no entry.
pub proof fn unreadable_lines_are_counted(c: Seq<u8>, i: int, line: Seq<char>)
    requires
        0 <= i <= c.len(),
        i < c.len() ==> c.last() == bytes::NEWLINE,
        json::is_line(line),
        entry::entry_of_text(line) is None,
    ensures
        ({
            let d = c + encode_utf8(line.push('\n'));
            &&& restorer::log_unread(d, i) == restorer::log_unread(c, i) + 1
            &&& restorer::log_entries(d, i) == restorer::log_entries(c, i)
        }),
    decreases c.len() - i,
{
    let b = encode_utf8(line);
    let full = line.push('\n');
    text::lemma_encode_last(full);
    assert(full.drop_last() =~= line);
    assert(encode_utf8(full) == b.push(10u8));
    text::lemma_encode_no_newline(line);
    text::lemma_encode_last(line);
    let d = c + encode_utf8(full);
    let n = c.len() as int;
    let end = d.len() as int;
    if i == n {
        assert(d[end - 1] == 10u8);
        assert forall|k: int| n <= k < end - 1 implies d[k] != bytes::NEWLINE by {
            assert(d[k] == b[k - n]);
        }
        restorer::lemma_end_is(d, n, end - 1);
        restorer::lemma_no_return(line);
        assert(d[end - 2] == b.last());
        assert(since::text_end(d, n) == end - 1);
        assert(d.subrange(n, end - 1) =~= b);
        encode_utf8_valid_utf8(line);
        encode_utf8_decode_utf8(line);
        assert(text::trimmed(line) == line);
        assert(restorer::log_entries(d, end) =~= Seq::empty());
        assert(restorer::log_entries(c, n) =~= Seq::empty());
        assert(restorer::log_unread(d, end) == 0);
        assert(restorer::log_unread(c, n) == 0);
    } else {
        restorer::lemma_last_newline(c, i);
        bytes::lemma_line_end(c, i);
        let x = bytes::line_end(c, i);
        assert forall|k: int| i <= k < x implies d[k] != bytes::NEWLINE by {
            assert(d[k] == c[k]);
        }
        assert(d[x] == c[x]);
        restorer::lemma_end_is(d, i, x);
        let next = x + 1;
        assert(since::text_end(d, i) == since::text_end(c, i)) by {
            if i < x {
                assert(d[x - 1] == c[x - 1]);
            }
        }
        assert(d.subrange(i, since::text_end(d, i)) =~= c.subrange(i, since::text_end(c, i)));
        unreadable_lines_are_counted(c, next, line);
    }
}

/// The identifier of a session is the time at which it was made, an underscore, and the
/// first six characters of a random identifier.
pub proof fn identifiers_are_made_of_time_and_chance(stamp: Seq<char>, uuid: Seq<char>)
    requires
        uuid.len() >= 6,
    ensures
        ({
            let id = session::session_id_of(stamp, uuid);
            &&& id.len() == stamp.len() + 7
            &&& id.take(stamp.len() as int) == stamp
            &&& id[stamp.len() as int] == '_'
            &&& id.skip(stamp.len() as int + 1) == uuid.take(6)
        }),
{
    let id = session::session_id_of(stamp, uuid);
    assert(id.take(stamp.len() as int) =~= stamp);
    assert(id.skip(stamp.len() as int + 1) =~= uuid.take(6));
}

/// An empty line that is appended is no entry, and is not counted.
pub proof fn empty_lines_are_passed_over(c: Seq<u8>, i: int)
    requires
        0 <= i <= c.len(),
        i < c.len() ==> c.last() == bytes::NEWLINE,
    ensures
        restorer::log_unread(c.push(bytes::NEWLINE), i) == restorer::log_unread(c, i),
        restorer::log_entries(c.push(bytes::NEWLINE), i) == restorer::log_entries(c, i),
    decreases c.len() - i,
{
    let d = c.push(bytes::NEWLINE);
    let n = c.len() as int;
    if i == n {
        restorer::lemma_end_is(d, n, n);
        assert(since::text_end(d, n) == n);
        assert(d.subrange(n, n) =~= Seq::empty());
        let none = Seq::<char>::empty();
        encode_utf8_valid_utf8(none);
        encode_utf8_decode_utf8(none);
        assert(encode_utf8(none) =~= Seq::empty());
        assert(text::trimmed(none).len() == 0);
        assert(restorer::is_blank(d, n));
        assert(restorer::log_entries(d, n + 1) =~= Seq::empty());
        assert(restorer::log_entries(c, n) =~= Seq::empty());
        assert(restorer::log_unread(d, n + 1) == 0);
        assert(restorer::log_unread(c, n) == 0);
    } else {
        restorer::lemma_last_newline(c, i);
        bytes::lemma_line_end(c, i);
        let x = bytes::line_end(c, i);
        assert forall|k: int| i <= k < x implies d[k] != bytes::NEWLINE by {
            assert(d[k] == c[k]);
        }
        assert(d[x] == c[x]);
        restorer::lemma_end_is(d, i, x);
        let next = x + 1;
        assert(since::text_end(d, i) == since::text_end(c, i)) by {
            if i < x {
                assert(d[x - 1] == c[x - 1]);
            }
        }
        assert(d.subrange(i, since::text_end(d, i)) =~= c.subrange(i, since::text_end(c, i)));
        empty_lines_are_passed_over(c, next);
    }
}

/// Groups are not torn apart: the start and the end of a list lie between groups, and a place
/// within it does where not both of its neighbours are part of a run.
pub proof fn runs_are_not_torn_apart(es: Seq<entry::EntryView>, i: int)
    ensures
        groups::is_boundary(es, 0),
        groups::is_boundary(es, es.len() as int),
        0 < i < es.len() ==> groups::is_boundary(es, i) == !(runs_on(es[i - 1]) && runs_on(es[i])),
        !(0 <= i <= es.len()) ==> !groups::is_boundary(es, i),
{
}

/// A name that begins with its only full stop has no extension, and is no session's; nor is
/// one without a full stop.
pub proof fn hidden_files_are_no_sessions(name: Seq<char>)
    requires
        forall|i: int| 0 < i < name.len() ==> name[i] != '.',
    ensures
        paths::stem_of(name) == name,
        !listing::is_session_file(name),
{
    lemma_no_dot(name, name.len() as int);
}

proof fn lemma_no_dot(name: Seq<char>, end: int)
    requires
        0 <= end <= name.len(),
        forall|i: int| 0 < i < name.len() ==> name[i] != '.',
    ensures
        match paths::last_dot(name, end) {
            Some(i) => i == 0,
            None => true,
        },
    decreases end,
{
    if end > 0 {
        lemma_no_dot(name, end - 1);
    }
}

/// Capital letters of ASCII become small ones, and nothing else changes.
pub proof fn capitals_become_small(c: char)
    ensures
        'A' <= c <= 'Z' ==> listing::lowered(c) as u32 == c as u32 + 32,
        !('A' <= c <= 'Z') ==> listing::lowered(c) == c,
{
}

/// Behind the end of a file there are no lines.
pub proof fn no_lines_follow_the_end(c: Seq<u8>, i: int)
    requires
        i >= c.len(),
        i >= 0,
    ensures
        bytes::line_count(c, i) == 0,
{
}

} // verus!
