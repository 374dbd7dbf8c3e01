//! What is new in a conversation since a reader last looked.

use crate::bytes;
use crate::conversation::entry::ConversationEntry;
use crate::conversation::entry;
use crate::text;
use vstd::prelude::*;
use vstd::utf8::*;

verus! {

/// A message that is being streamed and is not in the file yet.
#[derive(Debug, PartialEq, Eq)]
pub struct StreamingLine {
    /// The number that the line will have in the file, whose first line is 0.
    pub line_number: usize,
    /// `assistant` or `thought`.
    pub role: String,
    /// What has come in so far.
    pub accumulated_content: String,
    /// When the stream began, in ISO 8601.
    pub started_at: String,
    /// When the stream began, in milliseconds of Unix time.
    pub started_at_ms: i64,
}

/// What a streamed line holds.
pub struct StreamingView {
    pub line_number: usize,
    pub role: Seq<char>,
    pub accumulated_content: Seq<char>,
    pub started_at: Seq<char>,
    pub started_at_ms: i64,
}

impl View for StreamingLine {
    type V = StreamingView;

    open spec fn view(&self) -> StreamingView {
        StreamingView {
            line_number: self.line_number,
            role: self.role@,
            accumulated_content: self.accumulated_content@,
            started_at: self.started_at@,
            started_at_ms: self.started_at_ms,
        }
    }
}

impl Clone for StreamingLine {
    fn clone(&self) -> (r: Self)
        ensures
            r@ == self@,
    {
        StreamingLine {
            line_number: self.line_number,
            role: self.role.clone(),
            accumulated_content: self.accumulated_content.clone(),
            started_at: self.started_at.clone(),
            started_at_ms: self.started_at_ms,
        }
    }
}

/// The new part of a streamed line.
#[derive(Debug, PartialEq, Eq)]
pub struct StreamingLineDelta {
    /// The number that the line will have in the file.
    pub line: usize,
    pub role: String,
    /// What came in behind what the reader has.
    pub content: String,
    /// How many characters have come in altogether.
    pub char_offset: usize,
}

/// What the new part of a streamed line holds.
pub struct DeltaView {
    pub line: usize,
    pub role: Seq<char>,
    pub content: Seq<char>,
    pub char_offset: int,
}

impl View for StreamingLineDelta {
    type V = DeltaView;

    open spec fn view(&self) -> DeltaView {
        DeltaView {
            line: self.line,
            role: self.role@,
            content: self.content@,
            char_offset: self.char_offset as int,
        }
    }
}

/// What a reader who has `offset` characters of a streamed line has yet to get.
/// One who claims more than there are gets everything.
pub open spec fn delta_since(line: StreamingView, offset: nat) -> DeltaView {
    let all = line.accumulated_content;
    DeltaView {
        line: line.line_number,
        role: line.role,
        content: if offset <= all.len() {
            all.skip(offset as int)
        } else {
            all
        },
        char_offset: all.len() as int,
    }
}

/// The new part of a streamed line, for a reader who has `offset` characters.
pub fn streaming_delta(line: &StreamingLine, offset: usize) -> (r: StreamingLineDelta)
    ensures
        r@ == delta_since(line@, offset as nat),
{
    let cs: Vec<char> = text::chars_of(line.accumulated_content.as_str());
    let from: usize = if offset <= cs.len() {
        offset
    } else {
        0
    };
    let content: String = text::string_of(&cs, from, cs.len());
    proof {
        assert(content@ =~= cs@.skip(from as int));
        assert(cs@.skip(0) =~= cs@);
    }
    StreamingLineDelta {
        line: line.line_number,
        role: line.role.clone(),
        content,
        char_offset: cs.len(),
    }
}

/// A reader who puts what they have and the new part together has everything
/// that has come in.
pub proof fn deltas_add_up(line: StreamingView, offset: nat)
    requires
        offset <= line.accumulated_content.len(),
    ensures
        line.accumulated_content.take(offset as int) + delta_since(line, offset).content
            == line.accumulated_content,
{
    assert(line.accumulated_content.take(offset as int) + delta_since(line, offset).content
        =~= line.accumulated_content);
}

/// What is new in a conversation.
#[derive(Debug, PartialEq, Eq)]
pub struct ReadMessagesSinceResult {
    /// The entries behind the lines that the reader has.
    pub messages: Vec<ConversationEntry>,
    /// The new part of the line that is being streamed, if one is.
    pub streaming: Option<StreamingLineDelta>,
    /// The number of lines of the file, the first one included.
    pub total_lines: usize,
}

/// The number of lines of a file. The last one may lack its newline.
pub fn count_jsonl_lines(c: &Vec<u8>) -> (r: usize)
    ensures
        r == bytes::line_count(c@, 0),
{
    let mut count: usize = 0;
    let mut i: usize = 0;
    while i < c.len()
        invariant
            i <= c@.len(),
            count <= i,
            bytes::line_count(c@, 0) == count + bytes::line_count(c@, i as int),
        decreases c@.len() - i,
    {
        proof {
            bytes::lemma_line_end(c@, i as int);
        }
        let e: usize = bytes::find_line_end(c, i);
        i = if e < c.len() {
            e + 1
        } else {
            e
        };
        count = count + 1;
    }
    count
}

/// The byte of a carriage return.
pub const RETURN: u8 = 13;

/// Where the text of the line that begins at `i` ends: before the newline, and
/// before a carriage return in front of that.
pub open spec fn text_end(c: Seq<u8>, i: int) -> int {
    let e = bytes::line_end(c, i);
    if i < e < c.len() && c[e - 1] == RETURN {
        e - 1
    } else {
        e
    }
}

/// The entry that the line at `i` stands for. One that is not UTF-8 stands for
/// none.
pub open spec fn entry_at(c: Seq<u8>, i: int) -> Option<entry::EntryView> {
    let b = c.subrange(i, text_end(c, i));
    if valid_utf8(b) {
        entry::entry_of_text(decode_utf8(b))
    } else {
        None
    }
}

/// The entries of the lines from `i` on whose number is above `after`, where the
/// line at `i` has the number `number`.
pub open spec fn entries_behind(c: Seq<u8>, i: int, number: nat, after: nat) -> Seq<
    entry::EntryView,
>
    decreases c.len() - i,
    when i >= 0
    via entries_behind_decreases
{
    if i >= c.len() {
        Seq::empty()
    } else {
        let rest = entries_behind(c, bytes::next_line(c, i), number + 1, after);
        match entry_at(c, i) {
            Some(e) => if number > after {
                seq![e] + rest
            } else {
                rest
            },
            None => rest,
        }
    }
}

#[via_fn]
proof fn entries_behind_decreases(c: Seq<u8>, i: int, number: nat, after: nat) {
    bytes::lemma_line_end(c, i);
}

fn read_entry_at(c: &Vec<u8>, i: usize, e: usize) -> (r: Option<ConversationEntry>)
    requires
        i <= e <= c@.len(),
        e == bytes::line_end(c@, i as int),
    ensures
        entry::opt_entry(r) == entry_at(c@, i as int),
{
    let end: usize = if i < e && e < c.len() && c[e - 1] == RETURN {
        e - 1
    } else {
        e
    };
    match bytes::text_exact(bytes::part(c, i, end)) {
        Some(s) => entry::read_entry(s.as_str()),
        None => None,
    }
}

/// The entries of the lines with a number above `after`.
pub fn read_entries_behind(c: &Vec<u8>, after: usize) -> (r: Vec<ConversationEntry>)
    ensures
        entry::entry_views(r@) == entries_behind(c@, 0, 0, after as nat),
{
    let mut r: Vec<ConversationEntry> = Vec::new();
    let mut i: usize = 0;
    let mut number: usize = 0;
    proof {
        assert(entry::entry_views(r@) + entries_behind(c@, 0, 0, after as nat) =~= entries_behind(
            c@,
            0,
            0,
            after as nat,
        ));
    }
    while i < c.len()
        invariant
            i <= c@.len(),
            number <= i,
            entries_behind(c@, 0, 0, after as nat) == entry::entry_views(r@) + entries_behind(
                c@,
                i as int,
                number as nat,
                after as nat,
            ),
        decreases c@.len() - i,
    {
        proof {
            bytes::lemma_line_end(c@, i as int);
        }
        let e: usize = bytes::find_line_end(c, i);
        let next: usize = if e < c.len() {
            e + 1
        } else {
            e
        };
        let ghost rest: Seq<entry::EntryView> = entries_behind(
            c@,
            next as int,
            (number + 1) as nat,
            after as nat,
        );
        let ghost before: Seq<ConversationEntry> = r@;
        if number > after {
            if let Some(entry) = read_entry_at(c, i, e) {
                let ghost v: entry::EntryView = entry@;
                r.push(entry);
                proof {
                    assert(entry::entry_views(r@) =~= entry::entry_views(before).push(v));
                    assert(entry::entry_views(before) + (seq![v] + rest) =~= entry::entry_views(r@)
                        + rest);
                }
            }
        }
        i = next;
        number = number + 1;
    }
    proof {
        assert(entry::entry_views(r@) + Seq::<entry::EntryView>::empty() =~= entry::entry_views(
            r@,
        ));
    }
    r
}

/// What is new in the conversation file with the contents `c`, for a reader who
/// has the lines up to `line_number` and `line_char_offset` characters of the
/// line that is being streamed. `cached_total_lines` is the number of lines,
/// where it is known, and 0 otherwise.
pub fn read_messages_since(
    c: &Vec<u8>,
    line_number: usize,
    line_char_offset: usize,
    streaming: Option<&StreamingLine>,
    cached_total_lines: usize,
) -> (r: ReadMessagesSinceResult)
    ensures
        r.total_lines == (if cached_total_lines > 0 {
            cached_total_lines as nat
        } else {
            bytes::line_count(c@, 0)
        }),
        entry::entry_views(r.messages@) == (if line_number < r.total_lines {
            entries_behind(c@, 0, 0, line_number as nat)
        } else {
            Seq::empty()
        }),
        match streaming {
            Some(line) => r.streaming matches Some(d) && d@ == delta_since(
                line@,
                line_char_offset as nat,
            ),
            None => r.streaming is None,
        },
{
    let total_lines: usize = if cached_total_lines > 0 {
        cached_total_lines
    } else {
        count_jsonl_lines(c)
    };
    let messages: Vec<ConversationEntry> = if line_number < total_lines {
        read_entries_behind(c, line_number)
    } else {
        Vec::new()
    };
    proof {
        assert(line_number >= total_lines ==> entry::entry_views(messages@) =~= Seq::empty());
    }
    ReadMessagesSinceResult {
        messages,
        streaming: match streaming {
            Some(line) => Some(streaming_delta(line, line_char_offset)),
            None => None,
        },
        total_lines,
    }
}

} // verus!
