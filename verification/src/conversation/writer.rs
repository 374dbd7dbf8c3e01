//! The writing of a conversation file: entries are appended, and the first line
//! is replaced.

use crate::bytes;
use crate::conversation::entry::ConversationEntry;
use crate::conversation::entry;
use crate::conversation::metadata::SessionMetadata;
use crate::conversation::metadata;
use crate::conversation::pages;
use crate::json;
use crate::text;
use vstd::prelude::*;
use vstd::string::*;
use vstd::utf8::*;

verus! {

/// What the writer of a file is asked to do.
pub enum WriterCommand {
    /// Append an entry.
    AppendEntry(ConversationEntry),
    /// Replace the first line.
    UpdateMetadata(SessionMetadata),
    /// Write out what is left, and stop.
    Shutdown,
}

/// The one writer of a conversation file.
#[derive(Debug, PartialEq, Eq)]
pub struct ConversationWriter {
    /// Where the data section begins.
    meta_end: u64,
    /// Where the last mark of a compaction begins, counted from the start of the
    /// data section, if this writer has written one.
    last_compaction_offset: Option<u64>,
}

/// The first newline of `s`, or its end.
pub open spec fn first_line_end(s: Seq<char>) -> int {
    match text::first_index(s, seq!['\n']) {
        Some(i) => i,
        None => s.len() as int,
    }
}

/// The data section of a file: what stands behind its first line.
pub open spec fn data_section(s: Seq<char>) -> Seq<char> {
    if first_line_end(s) < s.len() {
        s.skip(first_line_end(s) + 1)
    } else {
        Seq::empty()
    }
}

/// `s`, with a newline behind it, unless it is empty or ends in one.
pub open spec fn terminated(s: Seq<char>) -> Seq<char> {
    if s.len() == 0 || s.last() == '\n' {
        s
    } else {
        s.push('\n')
    }
}

/// The file `s` with the first line `line`.
pub open spec fn with_first_line(s: Seq<char>, line: Seq<char>) -> Seq<char> {
    line.push('\n') + terminated(data_section(s))
}

/// The file ends where a line ends.
pub open spec fn ends_line(c: Seq<u8>) -> bool {
    c.len() > 0 ==> c.last() == bytes::NEWLINE
}

/// The entry that is read back where an entry was written.
pub open spec fn read_back(e: entry::EntryView) -> entry::EntryView {
    entry::entry_of_text(entry::entry_text(e))->0
}

impl ConversationWriter {
    /// Where the data section begins.
    pub closed spec fn spec_meta_end(self) -> u64 {
        self.meta_end
    }

    /// Where the last mark of a compaction begins in the data section.
    pub closed spec fn spec_last_compaction_offset(self) -> Option<u64> {
        self.last_compaction_offset
    }

    /// The writer of a new file whose data section begins at `meta_end`.
    pub fn new(meta_end: u64) -> (r: Self)
        ensures
            r.spec_meta_end() == meta_end,
            r.spec_last_compaction_offset() is None,
    {
        ConversationWriter { meta_end, last_compaction_offset: None }
    }

    /// The writer of an existing file whose data section begins at `meta_end`, and
    /// whose metadata give `offset` as the place of the last mark of a compaction.
    pub fn resumed(meta_end: u64, offset: Option<u64>) -> (r: Self)
        ensures
            r.spec_meta_end() == meta_end,
            r.spec_last_compaction_offset() == offset,
    {
        ConversationWriter { meta_end, last_compaction_offset: offset }
    }

    /// Where the data section begins.
    pub fn meta_end(&self) -> (r: u64)
        ensures
            r == self.spec_meta_end(),
    {
        self.meta_end
    }

    /// Where the last mark of a compaction begins in the data section.
    pub fn last_compaction_offset(&self) -> (r: Option<u64>)
        ensures
            r == self.spec_last_compaction_offset(),
    {
        self.last_compaction_offset
    }

    /// The line to append for an entry. Behind a file that ends where a line
    /// ends, it is read back as the entry, but for the last digits of numbers that
    /// are not integers.
    pub fn write_entry(entry: &ConversationEntry) -> (r: String)
        ensures
            r@ == entry::entry_text(entry@).push('\n'),
            entry::is_kept(entry@) ==> {
                let k = read_back(entry@);
                &&& entry::entry_of_text(entry::entry_text(entry@)) == Some(k)
                &&& entry::same_entry(entry@, k)
                &&& entry::is_whole_entry(entry@) ==> k == entry@
                &&& forall|c: Seq<u8>, lo: int|
                    #![trigger pages::lines_between(c, lo, c.len() as int)]
                    0 <= lo <= c.len() && ends_line(c.skip(lo)) && c.len() + encode_utf8(r@).len()
                        <= u64::MAX ==> shown(c + encode_utf8(r@), lo) == shown(c, lo).push(k)
            },
    {
        let mut line: String = entry.to_text();
        let ghost bare: Seq<char> = line@;
        line.push('\n');
        proof {
            if entry::is_kept(entry@) {
                assert forall|c: Seq<u8>, lo: int|
                    #![trigger pages::lines_between(c, lo, c.len() as int)]
                    0 <= lo <= c.len() && ends_line(c.skip(lo)) && c.len() + encode_utf8(
                        line@,
                    ).len() <= u64::MAX implies shown(c + encode_utf8(line@), lo) == shown(
                    c,
                    lo,
                ).push(read_back(entry@)) by {
                    appended_entry_is_shown(c, lo, bare, read_back(entry@));
                }
            }
        }
        line
    }

    /// Notes that an entry was written at the offset `at`.
    pub fn entry_written(&mut self, entry: &ConversationEntry, at: u64)
        requires
            old(self).spec_meta_end() <= at,
        ensures
            final(self).spec_meta_end() == old(self).spec_meta_end(),
            final(self).spec_last_compaction_offset() == (if entry@.is_compaction() {
                Some((at - old(self).spec_meta_end()) as u64)
            } else {
                old(self).spec_last_compaction_offset()
            }),
    {
        if entry.is_compaction() {
            self.last_compaction_offset = Some(at - self.meta_end);
        }
    }

    /// The metadata to write: those that were asked for, with the place of the
    /// last mark of a compaction.
    pub fn stamped(&self, meta: SessionMetadata) -> (r: SessionMetadata)
        ensures
            r@ == (metadata::MetadataView {
                last_compaction_offset: self.spec_last_compaction_offset(),
                ..meta@
            }),
    {
        let mut meta: SessionMetadata = meta;
        meta.last_compaction_offset = self.last_compaction_offset;
        meta
    }

    /// The file `content` with its first line replaced. The data section begins
    /// behind the new line then.
    pub fn rewrite_metadata(&mut self, meta: &SessionMetadata, content: &str) -> (r: String)
        ensures
            r@ == with_first_line(content@, metadata::metadata_text(meta@)),
            final(self).spec_last_compaction_offset() == old(self).spec_last_compaction_offset(),
            text::byte_len(metadata::metadata_text(meta@)) < u64::MAX
                ==> final(self).spec_meta_end() == text::byte_len(metadata::metadata_text(meta@))
                + 1,
    {
        let line: String = meta.to_text();
        self.meta_end = (line.as_str().as_bytes().len() as u64).saturating_add(1);
        proof {
            reveal_strlit("\n");
            assert("\n"@ =~= seq!['\n']);
        }
        let cs: Vec<char> = text::chars_of(content);
        let nl: Vec<char> = text::chars_of("\n");
        let mut r: String = line;
        r.push('\n');
        proof {
            text::lemma_first_index_from(content@, seq!['\n'], 0);
        }
        let n: usize = cs.len();
        if let Some(i) = text::find_from(&cs, &nl, 0) {
            let data: String = text::string_of(&cs, i + 1, n);
            proof {
                assert(data@ =~= data_section(content@));
            }
            r.append(data.as_str());
            if i + 1 < n && cs[n - 1] != '\n' {
                r.push('\n');
            }
        }
        proof {
            assert(r@ =~= with_first_line(content@, metadata::metadata_text(meta@)));
        }
        r
    }
}

/// The entries that the data section from `lo` on shows.
pub open spec fn shown(c: Seq<u8>, lo: int) -> Seq<entry::EntryView> {
    pages::bare(pages::entries_of(pages::lines_between(c, lo, c.len() as int)))
}

proof fn lemma_same_lines(c: Seq<u8>, d: Seq<u8>, lo: int, hi: int)
    requires
        0 <= lo,
        hi < c.len(),
        c.len() <= d.len(),
        d.take(c.len() as int) == c,
    ensures
        pages::lines_between(d, lo, hi) == pages::lines_between(c, lo, hi),
    decreases hi - lo + 1,
{
    if lo < hi {
        lemma_same_start(c, d, lo, hi);
        bytes::lemma_line_start(c, lo, hi);
        let s = bytes::line_start(c, lo, hi);
        lemma_same_lines(c, d, lo, s - 1);
        assert(d.subrange(s, hi) =~= c.subrange(s, hi)) by {
            assert forall|k: int| s <= k < hi implies d[k] == c[k] by {
                assert(d.take(c.len() as int)[k] == c[k]);
            }
        }
    }
}

proof fn lemma_same_start(c: Seq<u8>, d: Seq<u8>, lo: int, hi: int)
    requires
        0 <= lo <= hi <= c.len(),
        c.len() <= d.len(),
        d.take(c.len() as int) == c,
    ensures
        bytes::line_start(d, lo, hi) == bytes::line_start(c, lo, hi),
    decreases hi - lo,
{
    if lo < hi {
        assert(d.take(c.len() as int)[hi - 1] == c[hi - 1]);
        if c[hi - 1] != bytes::NEWLINE {
            lemma_same_start(c, d, lo, hi - 1);
        }
    }
}

proof fn lemma_start_is(c: Seq<u8>, lo: int, hi: int, s: int)
    requires
        lo <= s <= hi <= c.len(),
        s > lo ==> c[s - 1] == bytes::NEWLINE,
        forall|k: int| s <= k < hi ==> c[k] != bytes::NEWLINE,
    ensures
        bytes::line_start(c, lo, hi) == s,
    decreases hi - s,
{
    if s < hi {
        lemma_start_is(c, lo, hi - 1, s);
    }
}

/// A line that is appended behind a file that ends where a line ends is shown
/// behind what the file showed before.
pub proof fn appended_entry_is_shown(c: Seq<u8>, lo: int, line: Seq<char>, e: entry::EntryView)
    requires
        0 <= lo <= c.len(),
        ends_line(c.skip(lo)),
        json::is_line(line),
        entry::entry_of_text(line) == Some(e),
        c.len() + text::byte_len(line.push('\n')) <= u64::MAX,
    ensures
        shown(c + encode_utf8(line.push('\n')), lo) == shown(c, lo).push(e),
{
    let b = encode_utf8(line);
    let full = line.push('\n');
    text::lemma_encode_last(full);
    assert(full.drop_last() =~= line);
    assert(encode_utf8(full) == b.push(10u8));
    text::lemma_encode_no_newline(line);
    text::lemma_encode_last(line);
    let d = c + encode_utf8(full);
    let n = c.len() as int;
    let end = d.len() as int;
    assert(d.take(n) =~= c);
    assert(d[end - 1] == 10u8);
    // The empty line behind the last newline.
    lemma_start_is(d, lo, end, end);
    lemma_empty_line(d, end);
    assert(pages::lines_between(d, lo, end) == pages::lines_between(d, lo, end - 1));
    // The appended line.
    assert forall|k: int| n <= k < end - 1 implies d[k] != bytes::NEWLINE by {
        assert(d[k] == b[k - n]);
    }
    if lo < n {
        assert(c.skip(lo).last() == c[n - 1]);
        assert(d[n - 1] == c[n - 1]);
    }
    lemma_start_is(d, lo, end - 1, n);
    assert(d.subrange(n, end - 1) =~= b);
    encode_utf8_valid_utf8(line);
    encode_utf8_decode_utf8(line);
    lemma_trimmed_line(line);
    assert(pages::shown_text(d, n, end - 1) == line);
    let older = pages::lines_between(d, lo, n - 1);
    let l = pages::shown_line(d, n, end - 1);
    assert(pages::lines_between(d, lo, end - 1) == older.push(l));
    // What the file showed before.
    if lo < n {
        lemma_start_is(c, lo, n, n);
        lemma_empty_line(c, n);
        assert(pages::lines_between(c, lo, n) == pages::lines_between(c, lo, n - 1));
        lemma_same_lines(c, d, lo, n - 1);
    } else {
        assert(pages::lines_between(c, lo, n) =~= older);
    }
    assert(older.push(l).drop_last() =~= older);
    assert(pages::bare(pages::entries_of(older.push(l))) =~= pages::bare(
        pages::entries_of(older),
    ).push(e));
}

proof fn lemma_empty_line(c: Seq<u8>, at: int)
    requires
        0 <= at <= c.len(),
    ensures
        pages::shown_text(c, at, at).len() == 0,
{
    let b = c.subrange(at, at);
    assert(b =~= Seq::empty());
    assert(valid_utf8(b));
    assert(decode_utf8(b) =~= Seq::empty());
}

proof fn lemma_trimmed_line(s: Seq<char>)
    requires
        json::is_line(s),
    ensures
        text::trimmed(s) == s,
{
}

/// Replacing the first line keeps every byte of the data section in its place,
/// counted from the start of that section.
pub proof fn rewriting_keeps_the_data(s: Seq<char>, line: Seq<char>)
    ensures
        ({
            let r = encode_utf8(with_first_line(s, line));
            let start = (text::byte_len(line) + 1) as int;
            &&& start <= r.len()
            &&& r.skip(start) == encode_utf8(terminated(data_section(s)))
            &&& encode_utf8(data_section(s)).is_prefix_of(r.skip(start))
        }),
{
    let data = data_section(s);
    let head = line.push('\n');
    text::lemma_encode_concat(head, terminated(data));
    text::lemma_encode_last(head);
    assert(head.drop_last() =~= line);
    let r = encode_utf8(with_first_line(s, line));
    let start = (text::byte_len(line) + 1) as int;
    assert(encode_utf8(head).len() == start);
    assert(r.skip(start) =~= encode_utf8(terminated(data)));
    text::lemma_encode_concat(data, seq!['\n']);
    assert(data + seq!['\n'] =~= data.push('\n'));
}

} // verus!
