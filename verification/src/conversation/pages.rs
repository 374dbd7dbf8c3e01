//! Pages of a conversation file, read backward or forward from a byte offset.

use crate::bytes;
use crate::conversation::entry::ConversationEntry;
use crate::conversation::entry;
use crate::conversation::groups;
use crate::error::RuntimeError;
use crate::list;
use crate::text;
use vstd::prelude::*;
use vstd::utf8::*;

verus! {

/// How many lines are read for a page at most.
pub const MAX_RAW_PER_DISPLAY_PAGE: usize = 500;

/// A page of a conversation.
#[derive(Debug, PartialEq, Eq)]
pub struct PaginatedMessages {
    /// The entries of the page, the oldest first.
    pub messages: Vec<ConversationEntry>,
    /// Where the next page begins, as `offset:` and a number of bytes.
    pub cursor: Option<String>,
    /// Whether there is a next page.
    pub has_more: bool,
}

/// What a page holds.
pub struct PageView {
    pub messages: Seq<entry::EntryView>,
    pub cursor: Option<Seq<char>>,
    pub has_more: bool,
}

impl View for PaginatedMessages {
    type V = PageView;

    open spec fn view(&self) -> PageView {
        PageView {
            messages: entry::entry_views(self.messages@),
            cursor: text::opt_text(self.cursor),
            has_more: self.has_more,
        }
    }
}

/// A page with nothing on it, and none behind it.
pub open spec fn empty_page() -> PageView {
    PageView { messages: Seq::empty(), cursor: None, has_more: false }
}

/// A page with nothing on it.
pub fn no_page() -> (r: PaginatedMessages)
    ensures
        r@ == empty_page(),
{
    let r: PaginatedMessages = PaginatedMessages {
        messages: Vec::new(),
        cursor: None,
        has_more: false,
    };
    proof {
        assert(r@.messages =~= Seq::empty());
    }
    r
}

/// What stands before the number of a cursor.
pub const CURSOR_PREFIX: &'static str = "offset:";

/// The cursor of a byte offset.
pub open spec fn cursor_text(offset: u64) -> Seq<char> {
    CURSOR_PREFIX@ + text::decimal(offset as nat)
}

/// The byte offset of a cursor.
pub open spec fn cursor_offset(cursor: Seq<char>) -> Option<u64> {
    if text::stands_at(cursor, CURSOR_PREFIX@, 0) {
        text::number_value(cursor.skip(CURSOR_PREFIX@.len() as int))
    } else {
        None
    }
}

/// A cursor leads back to its offset.
pub proof fn cursor_is_read_back(offset: u64)
    ensures
        cursor_offset(cursor_text(offset)) == Some(offset),
{
    let c = cursor_text(offset);
    assert(c.skip(CURSOR_PREFIX@.len() as int) =~= text::decimal(offset as nat));
    assert(c.subrange(0, CURSOR_PREFIX@.len() as int) =~= CURSOR_PREFIX@);
    text::decimal_is_read_back(offset);
}

/// The byte offset of a cursor, or `None` where it is not one.
pub fn parse_offset_cursor(cursor: &str) -> (r: Option<u64>)
    ensures
        r == cursor_offset(cursor@),
{
    if !text::begins_with(cursor, CURSOR_PREFIX) {
        return None;
    }
    let cs: Vec<char> = text::chars_of(cursor);
    let prefix: Vec<char> = text::chars_of(CURSOR_PREFIX);
    let number: String = text::string_of(&cs, prefix.len(), cs.len());
    proof {
        assert(number@ =~= cursor@.skip(CURSOR_PREFIX@.len() as int));
    }
    text::parse_number(number.as_str())
}

fn offset_cursor(offset: u64) -> (r: String)
    ensures
        r@ == cursor_text(offset),
{
    let mut r: String = CURSOR_PREFIX.to_string();
    r.append(text::decimal_text(offset).as_str());
    r
}

/// The offset that an optional cursor gives, or `default`.
pub open spec fn offset_or(cursor: Option<Seq<char>>, default: u64) -> u64 {
    match cursor {
        Some(c) => match cursor_offset(c) {
            Some(n) => n,
            None => default,
        },
        None => default,
    }
}

/// The offset that an optional cursor gives, or `default`.
pub fn offset_or_default(cursor: &Option<String>, default: u64) -> (r: u64)
    ensures
        r == offset_or(text::opt_text(*cursor), default),
{
    match cursor {
        Some(c) => match parse_offset_cursor(c.as_str()) {
            Some(n) => n,
            None => default,
        },
        None => default,
    }
}

/// A line of a file: its text without white space at either end, where it
/// begins, and where it ends, before its newline.
#[derive(Debug, PartialEq, Eq)]
pub struct LineWithOffset {
    pub content: String,
    pub offset: u64,
    pub end: u64,
}

/// What a line holds.
pub struct LineView {
    pub content: Seq<char>,
    pub offset: u64,
    pub end: u64,
}

impl View for LineWithOffset {
    type V = LineView;

    open spec fn view(&self) -> LineView {
        LineView { content: self.content@, offset: self.offset, end: self.end }
    }
}

/// What each line of a sequence holds.
pub open spec fn line_views(ls: Seq<LineWithOffset>) -> Seq<LineView> {
    ls.map_values(|l: LineWithOffset| l@)
}

/// The text of the bytes from `from` to `to`, without white space at either end.
pub open spec fn shown_text(c: Seq<u8>, from: int, to: int) -> Seq<char> {
    let b = c.subrange(from, to);
    if valid_utf8(b) {
        text::trimmed(decode_utf8(b))
    } else {
        text::trimmed(bytes::lossy_text(b))
    }
}

/// No bytes are no text.
pub proof fn lemma_no_text(c: Seq<u8>, at: int)
    requires
        0 <= at <= c.len(),
    ensures
        shown_text(c, at, at).len() == 0,
{
    let b = c.subrange(at, at);
    assert(b =~= Seq::empty());
    assert(valid_utf8(b));
    assert(decode_utf8(b) =~= Seq::empty());
}

/// The line of the bytes from `from` to `to`.
pub open spec fn shown_line(c: Seq<u8>, from: int, to: int) -> LineView {
    LineView { content: shown_text(c, from, to), offset: from as u64, end: to as u64 }
}

/// The lines of `c` between `lo` and `hi` that are not blank.
pub open spec fn lines_between(c: Seq<u8>, lo: int, hi: int) -> Seq<LineView>
    decreases hi - lo + 1,
    via lines_between_decreases
{
    if lo < hi {
        let s = bytes::line_start(c, lo, hi);
        let before = lines_between(c, lo, s - 1);
        if shown_text(c, s, hi).len() == 0 {
            before
        } else {
            before.push(shown_line(c, s, hi))
        }
    } else {
        Seq::empty()
    }
}

#[via_fn]
proof fn lines_between_decreases(c: Seq<u8>, lo: int, hi: int) {
    if lo < hi {
        bytes::lemma_line_start(c, lo, hi);
    }
}

/// The last `count` elements of `s`, or all where there are fewer.
pub open spec fn last_of<A>(s: Seq<A>, count: nat) -> Seq<A> {
    if s.len() <= count {
        s
    } else {
        s.skip(s.len() - count)
    }
}

/// The last `count` lines of `c` between `lo` and `hi` that are not blank, the
/// oldest first.
pub fn read_lines_backward(c: &Vec<u8>, lo: usize, hi: usize, count: usize) -> (r: Vec<
    LineWithOffset,
>)
    requires
        lo <= hi <= c@.len(),
    ensures
        line_views(r@) == last_of(lines_between(c@, lo as int, hi as int), count as nat),
{
    let ghost all: Seq<LineView> = lines_between(c@, lo as int, hi as int);
    let mut found: Vec<LineWithOffset> = Vec::new();
    let mut pos: usize = hi;
    let mut more: bool = lo < hi;
    proof {
        assert(all =~= all + line_views(found@).reverse());
    }
    while more && found.len() < count
        invariant
            lo <= pos <= hi <= c@.len(),
            more ==> lo < pos,
            all == lines_between(c@, lo as int, hi as int),
            all == (if more {
                lines_between(c@, lo as int, pos as int)
            } else {
                Seq::empty()
            }) + line_views(found@).reverse(),
            found@.len() <= count,
        decreases (if more {
            pos + 1
        } else {
            0
        }),
    {
        let s: usize = bytes::find_line_start(c, lo, pos);
        let part: Vec<u8> = bytes::part(c, s, pos);
        let whole: String = bytes::text_lossy(part.as_slice());
        let content: String = text::trim(whole.as_str());
        let ghost before: Seq<LineWithOffset> = found@;
        let ghost older: Seq<LineView> = lines_between(c@, lo as int, s - 1);
        if !content.as_str().is_empty() {
            found.push(LineWithOffset { content, offset: s as u64, end: pos as u64 });
            proof {
                let l = shown_line(c@, s as int, pos as int);
                assert(line_views(found@) =~= line_views(before).push(l));
                assert(line_views(found@).reverse() =~= seq![l] + line_views(before).reverse());
                assert(all =~= older + line_views(found@).reverse());
            }
        } else {
            proof {
                assert(content@.len() == 0);
            }
        }
        if s > lo && s - 1 > lo {
            pos = s - 1;
        } else {
            more = false;
            proof {
                assert(older =~= Seq::empty());
                assert(all =~= Seq::empty() + line_views(found@).reverse());
            }
        }
    }
    let ghost taken: Seq<LineWithOffset> = found@;
    let r: Vec<LineWithOffset> = list::take_reversed(&mut found);
    proof {
        assert(line_views(r@) =~= line_views(taken).reverse());
        assert(line_views(r@) =~= last_of(all, count as nat));
    }
    r
}

/// The line that begins at `i`, read as UTF-8.
pub open spec fn exact_line(c: Seq<u8>, i: int) -> LineView {
    LineView {
        content: text::trimmed(decode_utf8(c.subrange(i, bytes::line_end(c, i)))),
        offset: i as u64,
        end: bytes::line_end(c, i) as u64,
    }
}

/// The first `count` lines of `c` from `i` on that are not blank, or `None`
/// where a line on the way is not UTF-8.
pub open spec fn lines_ahead(c: Seq<u8>, i: int, count: nat) -> Option<Seq<LineView>>
    decreases c.len() - i,
    when i >= 0
    via lines_ahead_decreases
{
    if i >= c.len() || count == 0 {
        Some(Seq::empty())
    } else if !valid_utf8(c.subrange(i, bytes::line_end(c, i))) {
        None
    } else if exact_line(c, i).content.len() == 0 {
        lines_ahead(c, bytes::next_line(c, i), count)
    } else {
        match lines_ahead(c, bytes::next_line(c, i), (count - 1) as nat) {
            Some(rest) => Some(seq![exact_line(c, i)] + rest),
            None => None,
        }
    }
}

#[via_fn]
proof fn lines_ahead_decreases(c: Seq<u8>, i: int, count: nat) {
    bytes::lemma_line_end(c, i);
}

/// The first `count` lines of `c` from `start` on that are not blank, or `None`
/// where a line on the way is not UTF-8.
pub fn read_lines_forward(c: &Vec<u8>, start: usize, count: usize) -> (r: Option<
    Vec<LineWithOffset>,
>)
    ensures
        match r {
            Some(v) => lines_ahead(c@, start as int, count as nat) == Some(line_views(v@)),
            None => lines_ahead(c@, start as int, count as nat) is None,
        },
{
    let mut found: Vec<LineWithOffset> = Vec::new();
    let mut i: usize = start;
    proof {
        if let Some(rest) = lines_ahead(c@, start as int, count as nat) {
            assert(line_views(found@) + rest =~= rest);
        }
    }
    while i < c.len() && found.len() < count
        invariant
            start <= i,
            found@.len() <= count,
            lines_ahead(c@, start as int, count as nat) == (match lines_ahead(
                c@,
                i as int,
                (count - found@.len()) as nat,
            ) {
                Some(rest) => Some(line_views(found@) + rest),
                None => None,
            }),
        decreases c@.len() - i,
    {
        let e: usize = bytes::find_line_end(c, i);
        proof {
            bytes::lemma_line_end(c@, i as int);
        }
        let next: usize = if e < c.len() {
            e + 1
        } else {
            e
        };
        let whole: String = match bytes::text_exact(bytes::part(c, i, e)) {
            Some(s) => s,
            None => {
                return None;
            },
        };
        let content: String = text::trim(whole.as_str());
        let ghost before: Seq<LineWithOffset> = found@;
        if !content.as_str().is_empty() {
            found.push(LineWithOffset { content, offset: i as u64, end: e as u64 });
            proof {
                let l = exact_line(c@, i as int);
                assert(line_views(found@) =~= line_views(before).push(l));
                if let Some(rest) = lines_ahead(
                    c@,
                    next as int,
                    (count - found@.len()) as nat,
                ) {
                    assert(line_views(before) + (seq![l] + rest) =~= line_views(found@) + rest);
                }
            }
        } else {
            proof {
                assert(content@.len() == 0);
            }
        }
        i = next;
    }
    proof {
        assert(line_views(found@) + Seq::<LineView>::empty() =~= line_views(found@));
    }
    Some(found)
}

/// An entry of a file, where its line begins, and where it ends.
pub struct PlacedView {
    pub entry: entry::EntryView,
    pub offset: u64,
    pub end: u64,
}

/// The entries of `lines`. Lines that stand for none are passed over.
pub open spec fn entries_of(lines: Seq<LineView>) -> Seq<PlacedView>
    decreases lines.len(),
{
    if lines.len() == 0 {
        Seq::empty()
    } else {
        let before = entries_of(lines.drop_last());
        match entry::entry_of_text(lines.last().content) {
            Some(e) => before.push(
                PlacedView { entry: e, offset: lines.last().offset, end: lines.last().end },
            ),
            None => before,
        }
    }
}

/// The entries, without their places.
pub open spec fn bare(ps: Seq<PlacedView>) -> Seq<entry::EntryView> {
    ps.map_values(|p: PlacedView| p.entry)
}

/// The entries of a file with their places.
#[derive(Debug, PartialEq, Eq)]
pub struct PlacedEntries {
    pub entries: Vec<ConversationEntry>,
    /// Where the line of each entry begins.
    pub offsets: Vec<u64>,
    /// Where the line of each entry ends.
    pub ends: Vec<u64>,
}

impl PlacedEntries {
    /// Each entry has its places.
    pub open spec fn wf(self) -> bool {
        self.offsets@.len() == self.entries@.len() && self.ends@.len() == self.entries@.len()
    }
}

impl View for PlacedEntries {
    type V = Seq<PlacedView>;

    open spec fn view(&self) -> Seq<PlacedView> {
        Seq::new(
            self.entries@.len(),
            |i: int|
                PlacedView {
                    entry: self.entries@[i]@,
                    offset: self.offsets@[i],
                    end: self.ends@[i],
                },
        )
    }
}

/// The entries of `lines`, with their places.
pub fn read_entries(lines: &Vec<LineWithOffset>) -> (r: PlacedEntries)
    ensures
        r.wf(),
        r@ == entries_of(line_views(lines@)),
{
    let mut r: PlacedEntries = PlacedEntries {
        entries: Vec::new(),
        offsets: Vec::new(),
        ends: Vec::new(),
    };
    let mut i: usize = 0;
    proof {
        assert(r@ =~= entries_of(line_views(lines@).take(0)));
    }
    while i < lines.len()
        invariant
            i <= lines@.len(),
            r.wf(),
            r@ == entries_of(line_views(lines@).take(i as int)),
        decreases lines@.len() - i,
    {
        proof {
            let t = line_views(lines@).take(i + 1);
            assert(t.drop_last() =~= line_views(lines@).take(i as int));
            assert(t.last() == lines@[i as int]@);
        }
        let ghost before: Seq<PlacedView> = r@;
        if let Some(e) = entry::read_entry(lines[i].content.as_str()) {
            let ghost p: PlacedView = PlacedView {
                entry: e@,
                offset: lines@[i as int].offset,
                end: lines@[i as int].end,
            };
            r.entries.push(e);
            r.offsets.push(lines[i].offset);
            r.ends.push(lines[i].end);
            proof {
                assert(r@ =~= before.push(p));
            }
        }
        i = i + 1;
    }
    proof {
        assert(line_views(lines@).take(i as int) =~= line_views(lines@));
    }
    r
}

/// The whole display groups from `k` on are the newest `max`, or all.
pub open spec fn keeps_newest(es: Seq<entry::EntryView>, k: int, max: nat) -> bool {
    groups::is_boundary(es, k) && if groups::group_count(es) <= max {
        k == 0
    } else {
        groups::group_count(es.skip(k)) == max
    }
}

/// The whole display groups before `k` are the oldest `max`, or all.
pub open spec fn keeps_oldest(es: Seq<entry::EntryView>, k: int, max: nat) -> bool {
    groups::is_boundary(es, k) && if groups::group_count(es) <= max {
        k == es.len()
    } else {
        groups::group_count(es.take(k)) == max
    }
}

/// Where the first of `ps` begins, or `default` where there is none.
pub open spec fn first_offset(ps: Seq<PlacedView>, default: u64) -> u64 {
    if ps.len() == 0 {
        default
    } else {
        ps[0].offset
    }
}

/// Where the line behind one that ends at `end` begins in a file of `file_len`
/// bytes.
pub open spec fn after_end(end: u64, file_len: u64) -> u64 {
    if end < file_len {
        (end + 1) as u64
    } else {
        end
    }
}

fn behind_end(end: u64, file_len: u64) -> (r: u64)
    ensures
        r == after_end(end, file_len),
{
    if end < file_len {
        end + 1
    } else {
        end
    }
}

/// Where the line behind the last of `ps` begins in a file of `file_len` bytes, or
/// `default` where there is none.
pub open spec fn last_next(ps: Seq<PlacedView>, default: u64, file_len: u64) -> u64 {
    if ps.len() == 0 {
        default
    } else {
        after_end(ps.last().end, file_len)
    }
}

/// A page of `ps`, with a next page at `at`, if there is `more`.
pub open spec fn page_of(ps: Seq<PlacedView>, at: u64, more: bool) -> PageView {
    PageView {
        messages: bare(ps),
        cursor: if more {
            Some(cursor_text(at))
        } else {
            None
        },
        has_more: more,
    }
}

/// The page of the entries from `k` on. There is a page before it where one of the
/// entries that were read is left out, or there are `older` ones. A page with
/// nothing on it begins at `otherwise`.
pub open spec fn back_page(ps: Seq<PlacedView>, k: int, otherwise: u64, older: bool) -> PageView {
    page_of(ps.skip(k), first_offset(ps.skip(k), otherwise), k > 0 || older)
}

/// The page of the entries before `k`. There is a page behind it where one of the
/// entries that were read is left out, or there are `newer` ones. A page with
/// nothing on it ends at `otherwise`.
pub open spec fn ahead_page(
    ps: Seq<PlacedView>,
    k: int,
    otherwise: u64,
    newer: bool,
    file_len: u64,
) -> PageView {
    page_of(ps.take(k), last_next(ps.take(k), otherwise, file_len), k < ps.len() || newer)
}

/// `p` is the page of the newest `limit` display groups of `ps`, before which
/// there are `older` entries or none.
pub open spec fn is_newest_page(
    ps: Seq<PlacedView>,
    limit: u32,
    otherwise: u64,
    older: bool,
    p: PageView,
) -> bool {
    exists|k: int| #[trigger]
        keeps_newest(bare(ps), k, limit as nat) && p == back_page(ps, k, otherwise, older)
}

/// `p` is the page of the oldest `limit` display groups of `ps`, behind which
/// there are `newer` entries or none.
pub open spec fn is_oldest_page(
    ps: Seq<PlacedView>,
    limit: u32,
    otherwise: u64,
    newer: bool,
    file_len: u64,
    p: PageView,
) -> bool {
    exists|k: int| #[trigger]
        keeps_oldest(bare(ps), k, limit as nat) && p == ahead_page(
            ps,
            k,
            otherwise,
            newer,
            file_len,
        )
}

fn finished_page(messages: Vec<ConversationEntry>, at: u64, more: bool) -> (r: PaginatedMessages)
    ensures
        r@.messages == entry::entry_views(messages@),
        r@.cursor == (if more {
            Some(cursor_text(at))
        } else {
            None
        }),
        r@.has_more == more,
{
    PaginatedMessages {
        messages,
        cursor: if more {
            Some(offset_cursor(at))
        } else {
            None
        },
        has_more: more,
    }
}

/// The page of the newest `limit` display groups of the entries that were read,
/// before which there are `older` ones or none. Where it holds nothing, it begins
/// at `otherwise`.
pub fn page_backward(placed: PlacedEntries, limit: u32, otherwise: u64, older: bool) -> (r:
    PaginatedMessages)
    requires
        placed.wf(),
    ensures
        is_newest_page(placed@, limit, otherwise, older, r@),
{
    let mut placed: PlacedEntries = placed;
    let ghost all: Seq<PlacedView> = placed@;
    proof {
        assert(bare(all) =~= entry::entry_views(placed.entries@));
    }
    let k: usize = groups::trim_oldest_display_groups(&placed.entries, limit as usize);
    let at: u64 = if k < placed.offsets.len() {
        placed.offsets[k]
    } else {
        otherwise
    };
    let messages: Vec<ConversationEntry> = placed.entries.split_off(k);
    let r: PaginatedMessages = finished_page(messages, at, k > 0 || older);
    proof {
        assert(keeps_newest(bare(all), k as int, limit as nat));
        assert(r@.messages =~= bare(all.skip(k as int)));
        assert(r@ == back_page(all, k as int, otherwise, older));
    }
    r
}

/// The page of the oldest `limit` display groups of the entries that were read,
/// behind which there are `newer` ones or none. Where it holds nothing, it ends at
/// `otherwise`.
pub fn page_forward(
    placed: PlacedEntries,
    limit: u32,
    otherwise: u64,
    newer: bool,
    file_len: u64,
) -> (r: PaginatedMessages)
    requires
        placed.wf(),
    ensures
        is_oldest_page(placed@, limit, otherwise, newer, file_len, r@),
{
    let mut placed: PlacedEntries = placed;
    let ghost all: Seq<PlacedView> = placed@;
    proof {
        assert(bare(all) =~= entry::entry_views(placed.entries@));
    }
    let k: usize = groups::trim_newest_display_groups(&placed.entries, limit as usize);
    let at: u64 = if k > 0 {
        behind_end(placed.ends[k - 1], file_len)
    } else {
        otherwise
    };
    let more: bool = k < placed.entries.len() || newer;
    placed.entries.truncate(k);
    let r: PaginatedMessages = finished_page(placed.entries, at, more);
    proof {
        assert(keeps_oldest(bare(all), k as int, limit as nat));
        assert(r@.messages =~= bare(all.take(k as int)));
        assert(r@ == ahead_page(all, k as int, otherwise, newer, file_len));
    }
    r
}

/// Whether a page is read forward: only where `direction` is `forward`.
pub fn is_forward(direction: &str) -> (r: bool)
    ensures
        r == (direction@ == "forward"@),
{
    text::same_text(direction, "forward")
}

/// How many lines are read for a page of `limit` display groups.
pub open spec fn raw_limit(limit: u32) -> nat {
    if limit as nat * 10 < MAX_RAW_PER_DISPLAY_PAGE {
        limit as nat * 10
    } else {
        MAX_RAW_PER_DISPLAY_PAGE as nat
    }
}

/// How many lines are read for a page of `limit` display groups.
pub fn lines_for_page(limit: u32) -> (r: usize)
    ensures
        r == raw_limit(limit),
{
    if limit < 50 {
        limit as usize * 10
    } else {
        MAX_RAW_PER_DISPLAY_PAGE
    }
}

/// What is said of a file that is not UTF-8 where it has to be.
pub const NOT_UTF8: &'static str = "stream did not contain valid UTF-8";

/// Where the data section of a file begins: behind the first line. `None` where
/// that is not UTF-8.
pub open spec fn data_start(c: Seq<u8>) -> Option<int> {
    if valid_utf8(c.subrange(0, bytes::next_line(c, 0))) {
        Some(bytes::next_line(c, 0))
    } else {
        None
    }
}

/// Where the data section of a file begins.
pub fn metadata_end_offset(c: &Vec<u8>) -> (r: Option<usize>)
    ensures
        match r {
            Some(n) => data_start(c@) == Some(n as int) && n <= c@.len(),
            None => data_start(c@) is None,
        },
{
    let e: usize = bytes::find_line_end(c, 0);
    let next: usize = if e < c.len() {
        e + 1
    } else {
        e
    };
    match bytes::text_exact(bytes::part(c, 0, next)) {
        Some(_) => Some(next),
        None => None,
    }
}

/// Where the first of `lines` begins, or `default` where there is none.
pub open spec fn first_line_offset(lines: Seq<LineView>, default: u64) -> u64 {
    if lines.len() == 0 {
        default
    } else {
        lines[0].offset
    }
}

/// Where the line behind the last of `lines` begins in a file of `file_len` bytes,
/// or `default` where there is none.
pub open spec fn last_line_next(lines: Seq<LineView>, default: u64, file_len: u64) -> u64 {
    if lines.len() == 0 {
        default
    } else {
        after_end(lines.last().end, file_len)
    }
}

/// The bytes of `c` between `lo` and `hi` hold an entry.
pub open spec fn has_entry_between(c: Seq<u8>, lo: int, hi: int) -> bool {
    entries_of(lines_between(c, lo, hi)).len() > 0
}

/// The line that begins at `i` holds an entry.
pub open spec fn is_entry_line(c: Seq<u8>, i: int) -> bool {
    &&& valid_utf8(c.subrange(i, bytes::line_end(c, i)))
    &&& exact_line(c, i).content.len() > 0
    &&& entry::entry_of_text(exact_line(c, i).content) is Some
}

/// A line of `c` that begins at `i` or behind it holds an entry.
pub open spec fn has_entry_ahead(c: Seq<u8>, i: int) -> bool
    decreases c.len() - i,
    when i >= 0
    via has_entry_ahead_decreases
{
    i < c.len() && (is_entry_line(c, i) || has_entry_ahead(c, bytes::next_line(c, i)))
}

#[via_fn]
proof fn has_entry_ahead_decreases(c: Seq<u8>, i: int) {
    bytes::lemma_line_end(c, i);
}

/// Where a page that is read backward ends: at the cursor, or at the end of the
/// file.
pub open spec fn back_end(c: Seq<u8>, cursor: Option<Seq<char>>) -> int {
    let raw_end = offset_or(cursor, c.len() as u64);
    if raw_end < c.len() {
        raw_end as int
    } else {
        c.len() as int
    }
}

/// Where a page that is read forward begins: at the cursor, or at the start of the
/// data section.
pub open spec fn ahead_start(data: u64, cursor: Option<Seq<char>>) -> u64 {
    let raw_start = offset_or(cursor, data);
    if raw_start < data {
        data
    } else {
        raw_start
    }
}

/// `p` is the page of at most `limit` display groups that ends at the cursor, or
/// at the end of the file. There is a page before it where an entry stands before
/// it.
pub open spec fn is_back_page(
    c: Seq<u8>,
    start: u64,
    cursor: Option<Seq<char>>,
    limit: u32,
    p: PageView,
) -> bool {
    let end = back_end(c, cursor);
    let lines = last_of(lines_between(c, start as int, end), raw_limit(limit));
    let otherwise = first_line_offset(lines, end as u64);
    if end <= start {
        p == empty_page()
    } else {
        is_newest_page(
            entries_of(lines),
            limit,
            otherwise,
            has_entry_between(c, start as int, otherwise as int),
            p,
        )
    }
}

/// `o` is the page of at most `limit` display groups that begins at the cursor,
/// or at the start of the data section; it is `None` where a line on the way is
/// not UTF-8. There is a page behind it where an entry stands behind it.
pub open spec fn is_ahead_page(
    c: Seq<u8>,
    data: u64,
    cursor: Option<Seq<char>>,
    limit: u32,
    o: Option<PageView>,
) -> bool {
    let start = ahead_start(data, cursor);
    match lines_ahead(c, start as int, raw_limit(limit)) {
        Some(lines) => {
            let otherwise = last_line_next(lines, start, c.len() as u64);
            o matches Some(p) && is_oldest_page(
                entries_of(lines),
                limit,
                otherwise,
                has_entry_ahead(c, otherwise as int),
                c.len() as u64,
                p,
            )
        },
        None => o is None,
    }
}

/// Whether an entry stands between `lo` and `hi`.
pub fn finds_entry_between(c: &Vec<u8>, lo: usize, hi: usize) -> (r: bool)
    requires
        lo <= hi <= c@.len(),
    ensures
        r == has_entry_between(c@, lo as int, hi as int),
{
    let mut pos: usize = hi;
    while lo < pos
        invariant
            lo <= pos <= hi <= c@.len(),
            has_entry_between(c@, lo as int, hi as int) == has_entry_between(
                c@,
                lo as int,
                pos as int,
            ),
        decreases pos,
    {
        let s: usize = bytes::find_line_start(c, lo, pos);
        let part: Vec<u8> = bytes::part(c, s, pos);
        let whole: String = bytes::text_lossy(part.as_slice());
        let content: String = text::trim(whole.as_str());
        let ghost before: Seq<LineView> = lines_between(c@, lo as int, s - 1);
        proof {
            bytes::lemma_line_start(c@, lo as int, pos as int);
            assert(before.push(shown_line(c@, s as int, pos as int)).drop_last() =~= before);
        }
        if !content.as_str().is_empty() {
            if entry::read_entry(content.as_str()).is_some() {
                return true;
            }
        } else {
            proof {
                assert(content@.len() == 0);
            }
        }
        if s <= lo {
            proof {
                assert(before =~= Seq::empty());
                assert(entries_of(before).len() == 0);
            }
            return false;
        }
        pos = s - 1;
    }
    false
}

/// Whether an entry stands at `i` or behind it.
pub fn finds_entry_ahead(c: &Vec<u8>, i: usize) -> (r: bool)
    ensures
        r == has_entry_ahead(c@, i as int),
{
    let mut pos: usize = i;
    while pos < c.len()
        invariant
            i <= pos,
            has_entry_ahead(c@, i as int) == has_entry_ahead(c@, pos as int),
        decreases c@.len() - pos,
    {
        let e: usize = bytes::find_line_end(c, pos);
        proof {
            bytes::lemma_line_end(c@, pos as int);
        }
        if let Some(whole) = bytes::text_exact(bytes::part(c, pos, e)) {
            let content: String = text::trim(whole.as_str());
            if !content.as_str().is_empty() {
                if entry::read_entry(content.as_str()).is_some() {
                    return true;
                }
            } else {
                proof {
                    assert(content@.len() == 0);
                }
            }
        }
        pos = if e < c.len() {
            e + 1
        } else {
            e
        };
    }
    false
}

/// The page that ends at the cursor, or at the end of the file.
pub fn read_messages_backward(
    c: &Vec<u8>,
    cursor: &Option<String>,
    limit: u32,
    data: usize,
) -> (r: PaginatedMessages)
    requires
        data <= c@.len(),
    ensures
        is_back_page(c@, data as u64, text::opt_text(*cursor), limit, r@),
{
    let raw_end: u64 = offset_or_default(cursor, c.len() as u64);
    let end: usize = if raw_end < c.len() as u64 {
        raw_end as usize
    } else {
        c.len()
    };
    if end <= data {
        return no_page();
    }
    let lines: Vec<LineWithOffset> = read_lines_backward(c, data, end, lines_for_page(limit));
    let ghost all: Seq<LineView> = lines_between(c@, data as int, end as int);
    proof {
        assert(line_views(lines@).len() == lines@.len());
        if lines@.len() > 0 {
            assert(line_views(lines@)[0] == lines@[0]@);
            lemma_lines_before(c@, data as int, end as int, all.len() - lines@.len());
        }
    }
    let otherwise: usize = if lines.len() > 0 {
        lines[0].offset as usize
    } else {
        end
    };
    let older: bool = finds_entry_between(c, data, otherwise);
    page_backward(read_entries(&lines), limit, otherwise as u64, older)
}

/// The page that begins at the cursor, or at the start of the data section.
pub fn read_messages_forward(
    c: &Vec<u8>,
    cursor: &Option<String>,
    limit: u32,
    data: usize,
) -> (r: Option<PaginatedMessages>)
    requires
        data <= c@.len(),
    ensures
        is_ahead_page(
            c@,
            data as u64,
            text::opt_text(*cursor),
            limit,
            match r {
                Some(p) => Some(p@),
                None => None,
            },
        ),
{
    let raw_start: u64 = offset_or_default(cursor, data as u64);
    let start: u64 = if raw_start < data as u64 {
        data as u64
    } else {
        raw_start
    };
    let count: usize = lines_for_page(limit);
    if start >= c.len() as u64 {
        let none: PlacedEntries = read_entries(&Vec::new());
        proof {
            assert(none@ =~= Seq::empty());
            assert(lines_ahead(c@, start as int, count as nat) == Some(Seq::<LineView>::empty()));
            assert(entries_of(Seq::<LineView>::empty()) =~= none@);
        }
        return Some(page_forward(none, limit, start, false, c.len() as u64));
    }
    match read_lines_forward(c, start as usize, count) {
        Some(lines) => {
            let n: usize = lines.len();
            proof {
                assert(line_views(lines@).len() == n);
                if n > 0 {
                    assert(line_views(lines@)[n - 1] == lines@[n - 1]@);
                    lemma_ahead_inside(c@, start as int, count as nat, n - 1);
                }
            }
            let otherwise: u64 = if n > 0 {
                behind_end(lines[n - 1].end, c.len() as u64)
            } else {
                start
            };
            let newer: bool = finds_entry_ahead(c, otherwise as usize);
            Some(page_forward(read_entries(&lines), limit, otherwise, newer, c.len() as u64))
        },
        None => None,
    }
}

/// A page of the conversation file with the contents `c`: of at most `limit`
/// display groups, before the cursor or, where `direction` is `forward`, behind
/// it. The mark of a compaction is an entry like others.
pub fn read_messages_paginated(
    c: &Vec<u8>,
    cursor: Option<String>,
    limit: u32,
    direction: &str,
) -> (r: Result<PaginatedMessages, RuntimeError>)
    ensures
        match data_start(c@) {
            None => r matches Err(RuntimeError::Io(e)) && e@ == NOT_UTF8@,
            Some(data) => if c@.len() <= data {
                r matches Ok(p) && p@ == empty_page()
            } else if direction@ == "forward"@ {
                match r {
                    Ok(p) => is_ahead_page(
                        c@,
                        data as u64,
                        text::opt_text(cursor),
                        limit,
                        Some(p@),
                    ),
                    Err(e) => is_ahead_page(c@, data as u64, text::opt_text(cursor), limit, None)
                        && (e matches RuntimeError::Io(s) && s@ == NOT_UTF8@),
                }
            } else {
                r matches Ok(p) && is_back_page(
                    c@,
                    data as u64,
                    text::opt_text(cursor),
                    limit,
                    p@,
                )
            },
        },
{
    let data: usize = match metadata_end_offset(c) {
        Some(n) => n,
        None => {
            return Err(RuntimeError::Io(NOT_UTF8.to_string()));
        },
    };
    if c.len() <= data {
        return Ok(no_page());
    }
    if is_forward(direction) {
        match read_messages_forward(c, &cursor, limit, data) {
            Some(p) => Ok(p),
            None => Err(RuntimeError::Io(NOT_UTF8.to_string())),
        }
    } else {
        Ok(read_messages_backward(c, &cursor, limit, data))
    }
}

/// There is one way to keep the newest display groups.
pub proof fn newest_are_kept_in_one_way(es: Seq<entry::EntryView>, a: int, b: int, max: nat)
    requires
        keeps_newest(es, a, max),
        keeps_newest(es, b, max),
    ensures
        a == b,
{
    if a < b {
        lemma_later_has_fewer(es, a, b);
    }
    if b < a {
        lemma_later_has_fewer(es, b, a);
    }
}

/// There is one way to keep the oldest display groups.
pub proof fn oldest_are_kept_in_one_way(es: Seq<entry::EntryView>, a: int, b: int, max: nat)
    requires
        keeps_oldest(es, a, max),
        keeps_oldest(es, b, max),
    ensures
        a == b,
{
    groups::groups_add_up(es, a);
    groups::groups_add_up(es, b);
    if a < b {
        lemma_later_has_fewer(es, a, b);
    }
    if b < a {
        lemma_later_has_fewer(es, b, a);
    }
}

proof fn lemma_later_has_fewer(es: Seq<entry::EntryView>, a: int, b: int)
    requires
        groups::is_boundary(es, a),
        groups::is_boundary(es, b),
        a < b,
    ensures
        groups::group_count(es.skip(a)) > groups::group_count(es.skip(b)),
{
    let tail = es.skip(a);
    if b < es.len() {
        assert(tail[b - a] == es[b]);
        assert(tail[b - a - 1] == es[b - 1]);
    }
    assert(groups::is_boundary(tail, b - a));
    groups::groups_add_up(tail, b - a);
    assert(tail.skip(b - a) =~= es.skip(b));
    groups::groups_are_not_more(tail.take(b - a));
}

/// The entries of lines, and those of the lines behind them.
pub proof fn lemma_entries_concat(a: Seq<LineView>, b: Seq<LineView>)
    ensures
        entries_of(a + b) == entries_of(a) + entries_of(b),
    decreases b.len(),
{
    if b.len() == 0 {
        assert(a + b =~= a);
        assert(entries_of(a) + entries_of(b) =~= entries_of(a));
    } else {
        assert((a + b).drop_last() =~= a + b.drop_last());
        lemma_entries_concat(a, b.drop_last());
        assert(entries_of(a + b) =~= entries_of(a) + entries_of(b));
    }
}

/// The line of the entry at `k`.
proof fn lemma_entry_line(lines: Seq<LineView>, k: int) -> (i: int)
    requires
        0 <= k < entries_of(lines).len(),
    ensures
        0 <= i < lines.len(),
        lines[i].offset == entries_of(lines)[k].offset,
        entries_of(lines.take(i)) == entries_of(lines).take(k),
    decreases lines.len(),
{
    let rest = lines.drop_last();
    let before = entries_of(rest);
    if k < before.len() {
        let i = lemma_entry_line(rest, k);
        assert(rest.take(i) =~= lines.take(i));
        assert(before.take(k) =~= entries_of(lines).take(k));
        i
    } else {
        assert(lines.take(lines.len() - 1) =~= rest);
        assert(entries_of(lines).take(k) =~= before);
        lines.len() - 1
    }
}

/// The lines before a line are those between the same start and where it begins.
pub proof fn lemma_lines_before(c: Seq<u8>, lo: int, hi: int, i: int)
    requires
        0 <= lo,
        hi <= c.len() <= u64::MAX,
        0 <= i < lines_between(c, lo, hi).len(),
    ensures
        lo <= lines_between(c, lo, hi)[i].offset <= hi,
        lines_between(c, lo, lines_between(c, lo, hi)[i].offset as int) == lines_between(
            c,
            lo,
            hi,
        ).take(i),
    decreases hi - lo + 1,
{
    bytes::lemma_line_start(c, lo, hi);
    let lines = lines_between(c, lo, hi);
    let s = bytes::line_start(c, lo, hi);
    let before = lines_between(c, lo, s - 1);
    if i < before.len() {
        lemma_lines_before(c, lo, s - 1, i);
        assert(before.take(i) =~= lines.take(i));
    } else {
        assert(lines == before.push(shown_line(c, s, hi)));
        assert(lines.take(i) =~= before);
        if lo < s {
            assert(bytes::line_start(c, lo, s) == s);
            lemma_no_text(c, s);
        }
    }
}

/// What the pages before a page hold, and what the page holds, is all there is
/// before its end: reading backward, from page to page, leaves no entry out and
/// gives none twice. There is a page before it if and only if there is an entry
/// before it, and where pages hold anything at all, each ends before the one that
/// was read first.
pub proof fn backward_pages_are_complete(
    c: Seq<u8>,
    start: u64,
    cursor: Option<Seq<char>>,
    limit: u32,
    p: PageView,
)
    requires
        start <= c.len() <= u64::MAX,
        is_back_page(c, start, cursor, limit, p),
    ensures
        ({
            let end = back_end(c, cursor);
            let next = back_end(c, p.cursor);
            let before = if p.has_more {
                bare(entries_of(lines_between(c, start as int, next)))
            } else {
                Seq::empty()
            };
            &&& bare(entries_of(lines_between(c, start as int, end))) == before + p.messages
            &&& p.has_more <==> before.len() > 0
            &&& p.has_more <==> p.cursor is Some
            &&& p.has_more ==> start < next <= end
            &&& p.has_more && limit > 0 ==> next < end
            &&& groups::group_count(p.messages) <= limit
        }),
{
    let end = back_end(c, cursor);
    if end <= start {
        assert(bare(entries_of(lines_between(c, start as int, end))) =~= Seq::<
            entry::EntryView,
        >::empty() + p.messages);
        assert(p.messages =~= Seq::empty());
    } else {
        let read = last_of(lines_between(c, start as int, end), raw_limit(limit));
        let ps = entries_of(read);
        let otherwise = first_line_offset(read, end as u64);
        let older = has_entry_between(c, start as int, otherwise as int);
        assert(is_newest_page(ps, limit, otherwise, older, p));
        let k = choose|k: int| #[trigger]
            keeps_newest(bare(ps), k, limit as nat) && p == back_page(ps, k, otherwise, older);
        assert(bare(ps.skip(k)) =~= bare(ps).skip(k));
        assert(bare(ps).skip(0) =~= bare(ps));
        if k == ps.len() {
            lemma_nothing_is_kept(bare(ps), limit as nat, k);
        }
        lemma_back_split(c, start, end, limit, k);
        let at = first_offset(ps.skip(k), otherwise);
        let older_entries = entries_of(lines_between(c, start as int, at as int));
        assert(bare(entries_of(lines_between(c, start as int, end))) =~= bare(older_entries)
            + p.messages);
        cursor_is_read_back(at);
        if !p.has_more {
            assert(bare(older_entries) =~= Seq::empty());
        }
    }
}

/// The entries before a page and those on it.
proof fn lemma_back_split(c: Seq<u8>, start: u64, end: int, limit: u32, k: int)
    requires
        start < end <= c.len() <= u64::MAX,
        ({
            let ps = entries_of(
                last_of(lines_between(c, start as int, end), raw_limit(limit)),
            );
            0 <= k <= ps.len() && (k == ps.len() ==> ps.len() == 0)
        }),
    ensures
        ({
            let lines = lines_between(c, start as int, end);
            let read = last_of(lines, raw_limit(limit));
            let ps = entries_of(read);
            let otherwise = first_line_offset(read, end as u64);
            let at = first_offset(ps.skip(k), otherwise);
            let older = entries_of(lines_between(c, start as int, at as int));
            &&& entries_of(lines) == older + ps.skip(k)
            &&& older.len() > 0 <==> (k > 0 || has_entry_between(
                c,
                start as int,
                otherwise as int,
            ))
            &&& at <= end
            &&& older.len() > 0 ==> start < at
            &&& older.len() > 0 && limit > 0 ==> at < end
        }),
{
    let n = raw_limit(limit);
    let lines = lines_between(c, start as int, end);
    let read = last_of(lines, n);
    let cut = lines.len() - read.len();
    let ps = entries_of(read);
    let otherwise = first_line_offset(read, end as u64);
    let at = first_offset(ps.skip(k), otherwise);
    let older = entries_of(lines_between(c, start as int, at as int));
    assert(read =~= lines.skip(cut));
    assert(lines.take(cut) + read =~= lines);
    lemma_entries_concat(lines.take(cut), read);
    if read.len() > 0 {
        assert(read[0] == lines[cut]);
        lemma_lines_before(c, start as int, end, cut);
        lemma_offset_before_end(c, start as int, end, cut);
    } else {
        assert(lines.take(cut) =~= lines);
    }
    assert(lines_between(c, start as int, otherwise as int) == lines.take(cut));
    if k < ps.len() {
        assert(ps.skip(k)[0] == ps[k]);
        let i = lemma_entry_line(read, k);
        assert(read[i] == lines[cut + i]);
        lemma_lines_before(c, start as int, end, cut + i);
        lemma_offset_before_end(c, start as int, end, cut + i);
        assert(lines.take(cut + i) =~= lines.take(cut) + read.take(i));
        lemma_entries_concat(lines.take(cut), read.take(i));
    }
    assert(older =~= entries_of(lines.take(cut)) + ps.take(k));
    assert(entries_of(lines) =~= older + ps.skip(k));
    if at <= start {
        assert(lines_between(c, start as int, at as int) =~= Seq::empty());
        assert(older.len() == 0);
    }
    if read.len() == 0 && limit > 0 {
        assert(lines.len() == 0);
        assert(lines.take(cut) =~= Seq::empty());
    }
}

/// Where none of the entries is kept, there is none, or none may be.
proof fn lemma_nothing_is_kept(es: Seq<entry::EntryView>, max: nat, k: int)
    requires
        keeps_newest(es, k, max),
        k == es.len(),
    ensures
        es.len() == 0 || max == 0,
{
    if es.len() > 0 {
        assert(es.skip(k) =~= Seq::empty());
    }
}

proof fn lemma_offset_before_end(c: Seq<u8>, lo: int, hi: int, i: int)
    requires
        0 <= lo,
        hi <= c.len() <= u64::MAX,
        0 <= i < lines_between(c, lo, hi).len(),
    ensures
        lines_between(c, lo, hi)[i].offset < hi,
    decreases hi - lo + 1,
{
    bytes::lemma_line_start(c, lo, hi);
    let s = bytes::line_start(c, lo, hi);
    let before = lines_between(c, lo, s - 1);
    if i < before.len() {
        lemma_offset_before_end(c, lo, s - 1, i);
    } else {
        lemma_no_text(c, hi);
        assert(shown_text(c, s, hi).len() > 0);
    }
}

/// The lines of `c` from `i` on that are not blank, or `None` where one is not
/// UTF-8.
pub open spec fn all_ahead(c: Seq<u8>, i: int) -> Option<Seq<LineView>> {
    lines_ahead(c, i, c.len())
}

/// Fewer lines are the first of more.
proof fn lemma_ahead_prefix(c: Seq<u8>, i: int, n: nat, k: nat)
    requires
        0 <= i,
        n <= k,
        lines_ahead(c, i, k) is Some,
    ensures
        lines_ahead(c, i, n) matches Some(ls) && ls.len() <= n && ls.len() <= lines_ahead(
            c,
            i,
            k,
        )->0.len() && ls == lines_ahead(c, i, k)->0.take(ls.len() as int) && (ls.len() < n
            ==> ls.len() == lines_ahead(c, i, k)->0.len()),
    decreases c.len() - i,
{
    let more = lines_ahead(c, i, k)->0;
    if i >= c.len() || n == 0 {
        assert(Seq::<LineView>::empty() =~= more.take(0));
    } else {
        bytes::lemma_line_end(c, i);
        let next = bytes::next_line(c, i);
        if exact_line(c, i).content.len() == 0 {
            lemma_ahead_prefix(c, next, n, k);
        } else {
            lemma_ahead_prefix(c, next, (n - 1) as nat, (k - 1) as nat);
            let rest = lines_ahead(c, next, (n - 1) as nat)->0;
            let ls = seq![exact_line(c, i)] + rest;
            assert(ls =~= more.take(ls.len() as int));
        }
    }
}

/// There are no more lines than bytes.
proof fn lemma_ahead_enough(c: Seq<u8>, i: int, n: nat, k: nat)
    requires
        0 <= i,
        c.len() - i <= n,
        c.len() - i <= k,
    ensures
        lines_ahead(c, i, n) == lines_ahead(c, i, k),
    decreases c.len() - i,
{
    if i < c.len() {
        bytes::lemma_line_end(c, i);
        let next = bytes::next_line(c, i);
        lemma_ahead_enough(c, next, n, k);
        lemma_ahead_enough(c, next, (n - 1) as nat, (k - 1) as nat);
    }
}

/// A line that is read ahead ends in the file.
proof fn lemma_ahead_inside(c: Seq<u8>, i: int, n: nat, j: int)
    requires
        0 <= i,
        c.len() <= u64::MAX,
        lines_ahead(c, i, n) matches Some(ls) && 0 <= j < ls.len(),
    ensures
        i <= lines_ahead(c, i, n)->0[j].end <= c.len(),
    decreases c.len() - i,
{
    bytes::lemma_line_end(c, i);
    let next = bytes::next_line(c, i);
    if exact_line(c, i).content.len() == 0 {
        lemma_ahead_inside(c, next, n, j);
    } else if j > 0 {
        let rest = lines_ahead(c, next, (n - 1) as nat)->0;
        lemma_ahead_inside(c, next, (n - 1) as nat, j - 1);
        assert(lines_ahead(c, i, n)->0[j] == rest[j - 1]);
    }
}

/// An entry stands ahead where one of the lines ahead holds one.
proof fn lemma_entry_ahead(c: Seq<u8>, i: int, n: nat)
    requires
        0 <= i,
        c.len() - i <= n,
        lines_ahead(c, i, n) is Some,
    ensures
        has_entry_ahead(c, i) == (entries_of(lines_ahead(c, i, n)->0).len() > 0),
    decreases c.len() - i,
{
    if i < c.len() {
        bytes::lemma_line_end(c, i);
        let next = bytes::next_line(c, i);
        if exact_line(c, i).content.len() == 0 {
            lemma_entry_ahead(c, next, n);
        } else {
            lemma_entry_ahead(c, next, (n - 1) as nat);
            let rest = lines_ahead(c, next, (n - 1) as nat)->0;
            let l = exact_line(c, i);
            lemma_entries_concat(seq![l], rest);
            assert(seq![l].drop_last() =~= Seq::<LineView>::empty());
            assert(entries_of(Seq::<LineView>::empty()).len() == 0);
        }
    }
}

/// What stands behind a line is what is read from where the line behind it begins.
proof fn lemma_ahead_rest(c: Seq<u8>, i: int, n: nat, j: int)
    requires
        0 <= i,
        c.len() <= u64::MAX,
        lines_ahead(c, i, n) matches Some(ls) && 0 <= j < ls.len(),
        c.len() - i <= n,
    ensures
        ({
            let ls = lines_ahead(c, i, n)->0;
            &&& i <= ls[j].end <= c.len()
            &&& i < after_end(ls[j].end, c.len() as u64) <= c.len()
            &&& all_ahead(c, after_end(ls[j].end, c.len() as u64) as int) == Some(ls.skip(j + 1))
        }),
    decreases c.len() - i,
{
    bytes::lemma_line_end(c, i);
    let next = bytes::next_line(c, i);
    let ls = lines_ahead(c, i, n)->0;
    if exact_line(c, i).content.len() == 0 {
        lemma_ahead_rest(c, next, n, j);
    } else {
        let rest = lines_ahead(c, next, (n - 1) as nat)->0;
        if j == 0 {
            lemma_ahead_enough(c, next, (n - 1) as nat, c.len());
            assert(ls.skip(1) =~= rest);
        } else {
            lemma_ahead_rest(c, next, (n - 1) as nat, j - 1);
            assert(ls[j] == rest[j - 1]);
            assert(ls.skip(j + 1) =~= rest.skip(j));
        }
    }
}

/// The line of the last of the first `k` entries.
proof fn lemma_last_line(lines: Seq<LineView>, k: int) -> (i: int)
    requires
        0 < k <= entries_of(lines).len(),
    ensures
        0 <= i < lines.len(),
        lines[i].end == entries_of(lines)[k - 1].end,
        entries_of(lines.take(i + 1)) == entries_of(lines).take(k),
    decreases lines.len(),
{
    let rest = lines.drop_last();
    let before = entries_of(rest);
    if k <= before.len() {
        let i = lemma_last_line(rest, k);
        assert(rest.take(i + 1) =~= lines.take(i + 1));
        assert(before.take(k) =~= entries_of(lines).take(k));
        i
    } else {
        assert(lines.take(lines.len() as int) =~= lines);
        assert(entries_of(lines).take(k) =~= entries_of(lines));
        lines.len() - 1
    }
}

/// What a page holds, and what the pages behind it hold, is all there is from its
/// start on: reading forward, from page to page, leaves no entry out and gives
/// none twice. There is a page behind it if and only if there is an entry behind
/// it, and where pages hold anything at all, each begins behind the one that was
/// read first.
pub proof fn forward_pages_are_complete(
    c: Seq<u8>,
    data: u64,
    cursor: Option<Seq<char>>,
    limit: u32,
    p: PageView,
)
    requires
        c.len() <= u64::MAX,
        is_ahead_page(c, data, cursor, limit, Some(p)),
        all_ahead(c, ahead_start(data, cursor) as int) is Some,
    ensures
        ({
            let start = ahead_start(data, cursor) as int;
            let next = ahead_start(data, p.cursor) as int;
            let behind = if p.has_more {
                bare(entries_of(all_ahead(c, next)->0))
            } else {
                Seq::empty()
            };
            &&& bare(entries_of(all_ahead(c, start)->0)) == p.messages + behind
            &&& p.has_more <==> behind.len() > 0
            &&& p.has_more <==> p.cursor is Some
            &&& p.has_more ==> start <= next < c.len() && all_ahead(c, next) is Some
            &&& p.has_more && limit > 0 ==> start < next
            &&& groups::group_count(p.messages) <= limit
        }),
{
    let start = ahead_start(data, cursor);
    let n = raw_limit(limit);
    let all = all_ahead(c, start as int)->0;
    let many = if n < c.len() {
        c.len()
    } else {
        n
    };
    let len = c.len() as u64;
    lemma_ahead_enough(c, start as int, many, c.len());
    lemma_ahead_prefix(c, start as int, n, many);
    let ls = lines_ahead(c, start as int, n)->0;
    let ps = entries_of(ls);
    let otherwise = last_line_next(ls, start, len);
    let newer = has_entry_ahead(c, otherwise as int);
    assert(is_oldest_page(ps, limit, otherwise, newer, len, p));
    let k = choose|k: int| #[trigger]
        keeps_oldest(bare(ps), k, limit as nat) && p == ahead_page(ps, k, otherwise, newer, len);
    assert(bare(ps.take(k)) =~= bare(ps).take(k));
    assert(bare(ps).take(ps.len() as int) =~= bare(ps));
    let at = last_next(ps.take(k), otherwise, len);
    let m = ls.len() as int;
    if m > 0 {
        assert(ls[m - 1] == all[m - 1]);
        if start as int >= c.len() {
            assert(all.len() == 0);
        }
        lemma_ahead_rest(c, start as int, c.len(), m - 1);
    } else {
        assert(all.skip(0) =~= all);
    }
    assert(all_ahead(c, otherwise as int) == Some(all.skip(m)));
    lemma_entry_ahead(c, otherwise as int, c.len());
    assert(all =~= ls + all.skip(m));
    lemma_entries_concat(ls, all.skip(m));
    assert(bare(entries_of(all)) =~= bare(ps) + bare(entries_of(all.skip(m))));
    cursor_is_read_back(at);
    if k > 0 {
        assert(ps.take(k).last() == ps[k - 1]);
        let i = lemma_last_line(ls, k);
        assert(ls[i] == all[i]);
        assert(ls.take(i + 1) =~= all.take(i + 1));
        if start as int >= c.len() {
            assert(all.len() == 0);
        }
        lemma_ahead_rest(c, start as int, c.len(), i);
        assert(all =~= all.take(i + 1) + all.skip(i + 1));
        lemma_entries_concat(all.take(i + 1), all.skip(i + 1));
        let behind = entries_of(all.skip(i + 1));
        assert(entries_of(all) == ps.take(k) + behind);
        assert(bare(entries_of(all)) =~= p.messages + bare(behind));
        assert(behind.len() == ps.len() - k + entries_of(all.skip(m)).len());
        if !p.has_more {
            assert(bare(behind) =~= Seq::empty());
        } else {
            lemma_entry_ahead(c, at as int, c.len());
        }
    } else {
        assert(bare(ps).take(0) =~= Seq::empty());
        lemma_none_is_kept(bare(ps), limit as nat);
        assert(ps.len() == 0);
        if m == 0 && limit > 0 {
            assert(all.len() == 0);
            assert(all.skip(m) =~= Seq::empty());
        }
        let behind = entries_of(all.skip(m));
        assert(bare(entries_of(all)) =~= p.messages + bare(behind));
        if !p.has_more {
            assert(bare(behind) =~= Seq::empty());
        }
    }
}

/// Where none of the entries is kept, there is none, or none may be.
proof fn lemma_none_is_kept(es: Seq<entry::EntryView>, max: nat)
    requires
        keeps_oldest(es, 0, max),
    ensures
        es.len() == 0 || max == 0,
{
    if es.len() > 0 {
        assert(es.take(0) =~= Seq::empty());
    }
}

/// `pages` are those that are read backward, one after the other, from the cursor
/// on: each begins where the one before says, and the last says that there is none
/// before it.
pub open spec fn is_backward_reading(
    c: Seq<u8>,
    start: u64,
    cursor: Option<Seq<char>>,
    limit: u32,
    pages: Seq<PageView>,
) -> bool
    decreases pages.len(),
{
    &&& pages.len() > 0
    &&& is_back_page(c, start, cursor, limit, pages[0])
    &&& if pages[0].has_more {
        is_backward_reading(c, start, pages[0].cursor, limit, pages.skip(1))
    } else {
        pages.len() == 1
    }
}

/// What the pages hold, the last page first.
pub open spec fn last_page_first(pages: Seq<PageView>) -> Seq<entry::EntryView>
    decreases pages.len(),
{
    if pages.len() == 0 {
        Seq::empty()
    } else {
        last_page_first(pages.skip(1)) + pages[0].messages
    }
}

/// Each page has a cursor where there is another page, and at most `limit` display
/// groups.
pub open spec fn are_pages(pages: Seq<PageView>, limit: u32) -> bool {
    forall|i: int|
        0 <= i < pages.len() ==> (#[trigger] pages[i]).has_more == (pages[i].cursor is Some)
            && groups::group_count(pages[i].messages) <= limit
}

/// Whoever reads a file backward, following each cursor until there are no more
/// pages, is given every entry before the first cursor once: the pages, put
/// together with the last page first, are the entries of the file in their order.
/// The reading ends: there are no more pages than bytes.
pub proof fn reading_backward_gives_every_entry_once(
    c: Seq<u8>,
    start: u64,
    cursor: Option<Seq<char>>,
    limit: u32,
    pages: Seq<PageView>,
)
    requires
        start <= c.len() <= u64::MAX,
        is_backward_reading(c, start, cursor, limit, pages),
    ensures
        last_page_first(pages) == bare(
            entries_of(lines_between(c, start as int, back_end(c, cursor))),
        ),
        are_pages(pages, limit),
        limit > 0 ==> pages.len() <= 1 + c.len(),
        limit > 0 && start < back_end(c, cursor) ==> pages.len() <= back_end(c, cursor) - start,
    decreases pages.len(),
{
    let p = pages[0];
    let rest = pages.skip(1);
    backward_pages_are_complete(c, start, cursor, limit, p);
    if p.has_more {
        reading_backward_gives_every_entry_once(c, start, p.cursor, limit, rest);
    } else {
        assert(rest =~= Seq::empty());
        assert(last_page_first(rest) =~= Seq::empty());
    }
    assert forall|i: int| 0 <= i < pages.len() implies (#[trigger] pages[i]).has_more == (
    pages[i].cursor is Some) && groups::group_count(pages[i].messages) <= limit by {
        if i > 0 {
            assert(pages[i] == rest[i - 1]);
        }
    }
}

/// Every file can be read backward to its end, if pages may hold anything.
pub proof fn every_file_is_read_backward(
    c: Seq<u8>,
    start: u64,
    cursor: Option<Seq<char>>,
    limit: u32,
) -> (pages: Seq<PageView>)
    requires
        start <= c.len() <= u64::MAX,
        limit > 0,
    ensures
        is_backward_reading(c, start, cursor, limit, pages),
    decreases back_end(c, cursor),
{
    let end = back_end(c, cursor);
    let p = if end <= start {
        empty_page()
    } else {
        let lines = last_of(lines_between(c, start as int, end), raw_limit(limit));
        let ps = entries_of(lines);
        let otherwise = first_line_offset(lines, end as u64);
        let es = bare(ps);
        let k = if groups::group_count(es) <= limit {
            0
        } else {
            let k = groups::groups_can_be_counted_off(
                es,
                (groups::group_count(es) - limit) as nat,
            );
            groups::groups_add_up(es, k);
            k
        };
        assert(keeps_newest(es, k, limit as nat));
        back_page(ps, k, otherwise, has_entry_between(c, start as int, otherwise as int))
    };
    assert(is_back_page(c, start, cursor, limit, p));
    backward_pages_are_complete(c, start, cursor, limit, p);
    if p.has_more {
        let rest = every_file_is_read_backward(c, start, p.cursor, limit);
        let pages = seq![p] + rest;
        assert(pages.skip(1) =~= rest);
        pages
    } else {
        seq![p]
    }
}

/// `pages` are those that are read forward, one after the other, from the cursor
/// on: each begins where the one before says, and the last says that there is none
/// behind it.
pub open spec fn is_forward_reading(
    c: Seq<u8>,
    data: u64,
    cursor: Option<Seq<char>>,
    limit: u32,
    pages: Seq<PageView>,
) -> bool
    decreases pages.len(),
{
    &&& pages.len() > 0
    &&& is_ahead_page(c, data, cursor, limit, Some(pages[0]))
    &&& if pages[0].has_more {
        is_forward_reading(c, data, pages[0].cursor, limit, pages.skip(1))
    } else {
        pages.len() == 1
    }
}

/// What the pages hold, the first page first.
pub open spec fn first_page_first(pages: Seq<PageView>) -> Seq<entry::EntryView>
    decreases pages.len(),
{
    if pages.len() == 0 {
        Seq::empty()
    } else {
        pages[0].messages + first_page_first(pages.skip(1))
    }
}

/// Whoever reads a file forward, following each cursor until there are no more
/// pages, is given every entry from the first cursor on once, in their order. The
/// reading ends: there are no more pages than bytes.
pub proof fn reading_forward_gives_every_entry_once(
    c: Seq<u8>,
    data: u64,
    cursor: Option<Seq<char>>,
    limit: u32,
    pages: Seq<PageView>,
)
    requires
        c.len() <= u64::MAX,
        all_ahead(c, ahead_start(data, cursor) as int) is Some,
        is_forward_reading(c, data, cursor, limit, pages),
    ensures
        first_page_first(pages) == bare(
            entries_of(all_ahead(c, ahead_start(data, cursor) as int)->0),
        ),
        are_pages(pages, limit),
        limit > 0 ==> pages.len() <= 1 + c.len(),
        limit > 0 && ahead_start(data, cursor) < c.len() ==> pages.len() <= c.len() - ahead_start(
            data,
            cursor,
        ),
    decreases pages.len(),
{
    let p = pages[0];
    let rest = pages.skip(1);
    forward_pages_are_complete(c, data, cursor, limit, p);
    if p.has_more {
        reading_forward_gives_every_entry_once(c, data, p.cursor, limit, rest);
    } else {
        assert(rest =~= Seq::empty());
        assert(first_page_first(rest) =~= Seq::empty());
    }
    assert forall|i: int| 0 <= i < pages.len() implies (#[trigger] pages[i]).has_more == (
    pages[i].cursor is Some) && groups::group_count(pages[i].messages) <= limit by {
        if i > 0 {
            assert(pages[i] == rest[i - 1]);
        }
    }
}

/// Every file of UTF-8 can be read forward to its end, if pages may hold anything.
pub proof fn every_file_is_read_forward(
    c: Seq<u8>,
    data: u64,
    cursor: Option<Seq<char>>,
    limit: u32,
) -> (pages: Seq<PageView>)
    requires
        c.len() <= u64::MAX,
        all_ahead(c, ahead_start(data, cursor) as int) is Some,
        limit > 0,
    ensures
        is_forward_reading(c, data, cursor, limit, pages),
    decreases c.len() - ahead_start(data, cursor),
{
    let start = ahead_start(data, cursor);
    let n = raw_limit(limit);
    let many = if n < c.len() {
        c.len()
    } else {
        n
    };
    lemma_ahead_enough(c, start as int, many, c.len());
    lemma_ahead_prefix(c, start as int, n, many);
    let lines = lines_ahead(c, start as int, n)->0;
    let ps = entries_of(lines);
    let otherwise = last_line_next(lines, start, c.len() as u64);
    let es = bare(ps);
    let k = if groups::group_count(es) <= limit {
        es.len() as int
    } else {
        groups::groups_can_be_counted_off(es, limit as nat)
    };
    assert(keeps_oldest(es, k, limit as nat));
    let p = ahead_page(
        ps,
        k,
        otherwise,
        has_entry_ahead(c, otherwise as int),
        c.len() as u64,
    );
    assert(is_ahead_page(c, data, cursor, limit, Some(p)));
    forward_pages_are_complete(c, data, cursor, limit, p);
    if p.has_more {
        let rest = every_file_is_read_forward(c, data, p.cursor, limit);
        let pages = seq![p] + rest;
        assert(pages.skip(1) =~= rest);
        pages
    } else {
        seq![p]
    }
}

} // verus!
