//! Thinking that a model writes into its content between tags.
//!
//! Some OpenAI-compatible providers put the thinking of a model into the
//! content of its reply, between `<!think>` and `willReturn` (MiniMax-M3) or
//! between `<think>` and `</think>`. The parser splits the content of a stream
//! into thinking and content, also where a tag spans several chunks.

use crate::text;
use vstd::prelude::*;
use vstd::string::*;
use vstd::utf8::*;

verus! {

/// A pair of tags around thinking.
#[derive(Clone, Copy, Debug, PartialEq, Eq, Structural)]
pub enum ThinkTag {
    /// `<!think>` and `willReturn`.
    MiniMax,
    /// `<think>` and `</think>`.
    Standard,
}

impl ThinkTag {
    pub open spec fn open_text(self) -> Seq<char> {
        match self {
            ThinkTag::MiniMax => "<!think>"@,
            ThinkTag::Standard => "<think>"@,
        }
    }

    pub open spec fn close_text(self) -> Seq<char> {
        match self {
            ThinkTag::MiniMax => "willReturn"@,
            ThinkTag::Standard => "</think>"@,
        }
    }

    /// The tag that begins the thinking.
    pub fn open_tag(self) -> (r: &'static str)
        ensures
            r@ == self.open_text(),
            vstd::utf8::is_ascii_chars(r@),
            r@.len() > 0,
    {
        proof {
            lemma_tags();
        }
        match self {
            ThinkTag::MiniMax => "<!think>",
            ThinkTag::Standard => "<think>",
        }
    }

    /// The tag that ends the thinking.
    pub fn close_tag(self) -> (r: &'static str)
        ensures
            r@ == self.close_text(),
            vstd::utf8::is_ascii_chars(r@),
            r@.len() > 0,
    {
        proof {
            lemma_tags();
        }
        match self {
            ThinkTag::MiniMax => "willReturn",
            ThinkTag::Standard => "</think>",
        }
    }
}

/// The tags are ASCII, and of these lengths.
pub proof fn lemma_tags()
    ensures
        ThinkTag::MiniMax.open_text().len() == 8,
        ThinkTag::Standard.open_text().len() == 7,
        ThinkTag::MiniMax.close_text().len() == 10,
        ThinkTag::Standard.close_text().len() == 8,
        is_ascii_chars(ThinkTag::MiniMax.open_text()),
        is_ascii_chars(ThinkTag::Standard.open_text()),
        is_ascii_chars(ThinkTag::MiniMax.close_text()),
        is_ascii_chars(ThinkTag::Standard.close_text()),
{
    reveal_strlit("<!think>");
    reveal_strlit("<think>");
    reveal_strlit("willReturn");
    reveal_strlit("</think>");
}

/// A piece of the content of a stream.
#[derive(Debug, PartialEq, Eq)]
pub enum ThinkPiece {
    Content(String),
    Reasoning(String),
}

/// What a piece holds: whether it is thinking, and its text.
pub open spec fn piece_view(p: ThinkPiece) -> (bool, Seq<char>) {
    match p {
        ThinkPiece::Content(s) => (false, s@),
        ThinkPiece::Reasoning(s) => (true, s@),
    }
}

/// What each piece of a sequence holds.
pub open spec fn piece_views(ps: Seq<ThinkPiece>) -> Seq<(bool, Seq<char>)> {
    ps.map_values(|p: ThinkPiece| piece_view(p))
}

/// The greatest length of at most `max` of a suffix of `s` that is a prefix of
/// `tag`.
pub open spec fn overlap_upto<T>(s: Seq<T>, tag: Seq<T>, max: int) -> int
    decreases max,
{
    if max <= 0 {
        0
    } else if max <= s.len() && max <= tag.len() && s.skip(s.len() - max) == tag.take(max) {
        max
    } else {
        overlap_upto(s, tag, max - 1)
    }
}

/// The length of the longest suffix of `s` that is a prefix of `tag`.
pub open spec fn overlap<T>(s: Seq<T>, tag: Seq<T>) -> int {
    overlap_upto(s, tag, tag.len() as int)
}

/// `overlap_upto` finds the greatest length.
pub proof fn lemma_overlap<T>(s: Seq<T>, tag: Seq<T>, max: int)
    requires
        0 <= max <= tag.len(),
    ensures
        0 <= overlap_upto(s, tag, max) <= max,
        overlap_upto(s, tag, max) <= s.len(),
        s.skip(s.len() - overlap_upto(s, tag, max)) == tag.take(overlap_upto(s, tag, max)),
        forall|l: int|
            overlap_upto(s, tag, max) < l <= max && l <= s.len() ==> #[trigger] s.skip(s.len() - l)
                != tag.take(l),
    decreases max,
{
    if max > 0 {
        if !(max <= s.len() && s.skip(s.len() - max) == tag.take(max)) {
            lemma_overlap(s, tag, max - 1);
        }
    } else {
        assert(s.skip(s.len() as int) =~= tag.take(0));
    }
}

/// One piece, unless its text is empty.
pub open spec fn one_piece(reasoning: bool, s: Seq<char>) -> Seq<(bool, Seq<char>)> {
    if s.len() > 0 {
        seq![(reasoning, s)]
    } else {
        Seq::empty()
    }
}

/// The first opening tag in `s`: where it stands, and which it is.
pub open spec fn first_open(s: Seq<char>) -> Option<(int, ThinkTag)> {
    match (
        text::first_index(s, ThinkTag::MiniMax.open_text()),
        text::first_index(s, ThinkTag::Standard.open_text()),
    ) {
        (Some(m), Some(t)) => if t < m {
            Some((t, ThinkTag::Standard))
        } else {
            Some((m, ThinkTag::MiniMax))
        },
        (Some(m), None) => Some((m, ThinkTag::MiniMax)),
        (None, Some(t)) => Some((t, ThinkTag::Standard)),
        (None, None) => None,
    }
}

/// How much of the end of `s` may be the beginning of an opening tag.
pub open spec fn open_overlap(s: Seq<char>) -> int {
    let m = overlap(s, ThinkTag::MiniMax.open_text());
    let t = overlap(s, ThinkTag::Standard.open_text());
    if t > m {
        t
    } else {
        m
    }
}

/// What parsing the text `s` gives, in the state `active` (within thinking that
/// the closing tag of `active` ends, or outside): the pieces, the state after
/// it, and the end of `s` that is held back because it may begin a tag.
pub open spec fn parsed(active: Option<ThinkTag>, s: Seq<char>) -> (
    Seq<(bool, Seq<char>)>,
    Option<ThinkTag>,
    Seq<char>,
)
    decreases s.len(),
{
    match active {
        Some(tag) => match text::first_index(s, tag.close_text()) {
            Some(i) => {
                let rest = s.skip(i + tag.close_text().len());
                if 0 <= i && rest.len() < s.len() {
                    let r = parsed(None, rest);
                    (one_piece(true, s.take(i)) + r.0, r.1, r.2)
                } else {
                    (Seq::empty(), active, s)
                }
            },
            None => {
                let n = s.len() - overlap(s, tag.close_text());
                (one_piece(true, s.take(n)), active, s.skip(n))
            },
        },
        None => match first_open(s) {
            Some((i, tag)) => {
                let rest = s.skip(i + tag.open_text().len());
                if 0 <= i && rest.len() < s.len() {
                    let r = parsed(Some(tag), rest);
                    (one_piece(false, s.take(i)) + r.0, r.1, r.2)
                } else {
                    (Seq::empty(), active, s)
                }
            },
            None => {
                let n = s.len() - open_overlap(s);
                (one_piece(false, s.take(n)), active, s.skip(n))
            },
        },
    }
}

/// The parser of a stream.
pub struct ThinkTagParser {
    scratch: String,
    active: Option<ThinkTag>,
}

/// What a parser holds: the tag whose thinking it is within, and the text held
/// back.
pub struct ThinkTagParserView {
    pub active: Option<ThinkTag>,
    pub scratch: Seq<char>,
}

impl View for ThinkTagParser {
    type V = ThinkTagParserView;

    closed spec fn view(&self) -> ThinkTagParserView {
        ThinkTagParserView { active: self.active, scratch: self.scratch@ }
    }
}

/// For an ASCII tag, counting bytes and counting characters give the same
/// overlap.
proof fn lemma_overlap_bytes(s: Seq<char>, tag: Seq<char>, l: int)
    requires
        is_ascii_chars(tag),
        0 <= l <= tag.len(),
    ensures
        l <= encode_utf8(s).len() && encode_utf8(s).skip(encode_utf8(s).len() - l) == encode_utf8(
            tag,
        ).take(l) <==> l <= s.len() && s.skip(s.len() - l) == tag.take(l),
    decreases l,
{
    let b = encode_utf8(s);
    let tb = encode_utf8(tag);
    is_ascii_chars_encode_utf8(tag);
    if l == 0 {
        assert(b.skip(b.len() as int) =~= tb.take(0));
        assert(s.skip(s.len() as int) =~= tag.take(0));
    } else if s.len() == 0 {
        assert(b.len() == 0);
    } else {
        text::lemma_encode_last(s);
        let t = s.drop_last();
        let c = s.last();
        lemma_overlap_bytes(t, tag, l - 1);
        let d = tag[l - 1];
        assert(tb[l - 1] == d as u8);
        assert((d as u32) <= 0x7f);
        if l <= b.len() && b.skip(b.len() - l) == tb.take(l) {
            assert(b.skip(b.len() - l)[l - 1] == b.last());
            assert(tb.take(l)[l - 1] == d as u8);
            assert((d as u8) < 0x80);
            assert(c as u32 <= 0x7f);
            let bt = encode_utf8(t);
            assert(bt.skip(bt.len() - (l - 1)) =~= b.skip(b.len() - l).drop_last());
            assert(tb.take(l - 1) =~= tb.take(l).drop_last());
            assert(s.skip(s.len() - l) =~= t.skip(t.len() - (l - 1)).push(c));
            assert(tag.take(l) =~= tag.take(l - 1).push(d));
            assert(c as u8 == d as u8);
            text::lemma_char_range(c);
            text::lemma_char_range(d);
            assert(c == d);
        }
        if l <= s.len() && s.skip(s.len() - l) == tag.take(l) {
            assert(s.skip(s.len() - l)[l - 1] == c);
            assert(c == d);
            assert(t.skip(t.len() - (l - 1)) =~= s.skip(s.len() - l).drop_last());
            assert(tag.take(l - 1) =~= tag.take(l).drop_last());
            let bt = encode_utf8(t);
            assert(b.skip(b.len() - l) =~= bt.skip(bt.len() - (l - 1)).push(c as u8));
            assert(tb.take(l) =~= tb.take(l - 1).push(d as u8));
        }
    }
}

proof fn lemma_overlap_upto_bytes(s: Seq<char>, tag: Seq<char>, max: int)
    requires
        is_ascii_chars(tag),
        0 <= max <= tag.len(),
    ensures
        overlap_upto(encode_utf8(s), encode_utf8(tag), max) == overlap_upto(s, tag, max),
    decreases max,
{
    is_ascii_chars_encode_utf8(tag);
    if max > 0 {
        lemma_overlap_bytes(s, tag, max);
        lemma_overlap_upto_bytes(s, tag, max - 1);
    }
}

/// The length in bytes of the longest suffix of `text` that is a prefix of
/// `tag`.
pub fn partial_tag_suffix(text: &str, tag: &str) -> (r: usize)
    ensures
        r == overlap(encode_utf8(text@), encode_utf8(tag@)),
{
    let a: &[u8] = text.as_bytes();
    let b: &[u8] = tag.as_bytes();
    let mut len: usize = b.len();
    while len > 0
        invariant
            a@ == encode_utf8(text@),
            b@ == encode_utf8(tag@),
            len <= b@.len(),
            overlap(a@, b@) == overlap_upto(a@, b@, len as int),
        decreases len,
    {
        if len <= a.len() {
            let n: usize = a.len();
            let mut k: usize = 0;
            while k < len && a[n - len + k] == b[k]
                invariant
                    n == a@.len(),
                    len <= n,
                    len <= b@.len(),
                    k <= len,
                    forall|j: int| 0 <= j < k ==> a@[n - len + j] == b@[j],
                decreases len - k,
            {
                k = k + 1;
            }
            if k == len {
                proof {
                    assert(a@.skip(n - len) =~= b@.take(len as int));
                }
                return len;
            }
            proof {
                assert(a@.skip(n - len)[k as int] != b@.take(len as int)[k as int]);
            }
        }
        len = len - 1;
    }
    0
}

/// Adds a piece, unless its text is empty.
fn push_piece(pieces: &mut Vec<ThinkPiece>, reasoning: bool, s: String)
    ensures
        piece_views(final(pieces)@) == piece_views(old(pieces)@) + one_piece(reasoning, s@),
{
    let ghost before: Seq<ThinkPiece> = pieces@;
    if s.as_str().is_empty() {
        proof {
            assert(piece_views(before) + one_piece(reasoning, s@) =~= piece_views(before));
        }
        return;
    }
    let p: ThinkPiece = if reasoning {
        ThinkPiece::Reasoning(s)
    } else {
        ThinkPiece::Content(s)
    };
    pieces.push(p);
    proof {
        assert(piece_views(pieces@) =~= piece_views(before) + one_piece(reasoning, s@));
    }
}

impl ThinkTagParser {
    /// A parser outside thinking that holds nothing back.
    pub fn new() -> (r: ThinkTagParser)
        ensures
            r@ == (ThinkTagParserView { active: None, scratch: Seq::empty() }),
    {
        ThinkTagParser { scratch: String::new(), active: None }
    }

    /// Takes the next chunk of the content, and gives the pieces that are
    /// complete.
    pub fn feed(&mut self, chunk: &str) -> (r: Vec<ThinkPiece>)
        ensures
            ({
                let p = parsed(old(self)@.active, old(self)@.scratch + chunk@);
                &&& piece_views(r@) == p.0
                &&& final(self)@.active == p.1
                &&& final(self)@.scratch == p.2
            }),
    {
        self.scratch.append(chunk);
        let ghost goal: (Seq<(bool, Seq<char>)>, Option<ThinkTag>, Seq<char>) = parsed(
            self.active,
            self.scratch@,
        );
        let mut pieces: Vec<ThinkPiece> = Vec::new();
        proof {
            assert(piece_views(pieces@) + goal.0 =~= goal.0);
        }
        loop
            invariant
                goal == (
                    piece_views(pieces@) + parsed(self.active, self.scratch@).0,
                    parsed(self.active, self.scratch@).1,
                    parsed(self.active, self.scratch@).2,
                ),
                goal == parsed(old(self)@.active, old(self)@.scratch + chunk@),
            decreases self.scratch@.len(),
        {
            let ghost s: Seq<char> = self.scratch@;
            let ghost before: Seq<(bool, Seq<char>)> = piece_views(pieces@);
            let v: Vec<char> = text::chars_of(self.scratch.as_str());
            let n: usize = v.len();
            match self.active {
                Some(tag) => {
                    let close: Vec<char> = text::chars_of(tag.close_tag());
                    proof {
                        text::lemma_first_index_from(s, tag.close_text(), 0);
                        lemma_tags();
                    }
                    match text::find_from(&v, &close, 0) {
                        Some(i) => {
                            let from: usize = i + close.len();
                            push_piece(&mut pieces, true, text::string_of(&v, 0, i));
                            self.scratch = text::string_of(&v, from, n);
                            self.active = None;
                            proof {
                                assert(s.subrange(0, i as int) =~= s.take(i as int));
                                assert(s.subrange(from as int, n as int) =~= s.skip(from as int));
                                let r = parsed(None, s.skip(from as int));
                                assert(before + (one_piece(true, s.take(i as int)) + r.0) =~= (
                                before + one_piece(true, s.take(i as int))) + r.0);
                            }
                        },
                        None => {
                            let keep: usize = partial_tag_suffix(
                                self.scratch.as_str(),
                                tag.close_tag(),
                            );
                            proof {
                                lemma_overlap_upto_bytes(
                                    s,
                                    tag.close_text(),
                                    tag.close_text().len() as int,
                                );
                                is_ascii_chars_encode_utf8(tag.close_text());
                                lemma_overlap(
                                    s,
                                    tag.close_text(),
                                    tag.close_text().len() as int,
                                );
                            }
                            let m: usize = n - keep;
                            push_piece(&mut pieces, true, text::string_of(&v, 0, m));
                            self.scratch = text::string_of(&v, m, n);
                            proof {
                                assert(s.subrange(0, m as int) =~= s.take(m as int));
                                assert(s.subrange(m as int, n as int) =~= s.skip(m as int));
                            }
                            return pieces;
                        },
                    }
                },
                None => {
                    let m_open: Vec<char> = text::chars_of(ThinkTag::MiniMax.open_tag());
                    let t_open: Vec<char> = text::chars_of(ThinkTag::Standard.open_tag());
                    proof {
                        text::lemma_first_index_from(s, ThinkTag::MiniMax.open_text(), 0);
                        text::lemma_first_index_from(s, ThinkTag::Standard.open_text(), 0);
                        lemma_tags();
                    }
                    let m_at: Option<usize> = text::find_from(&v, &m_open, 0);
                    let t_at: Option<usize> = text::find_from(&v, &t_open, 0);
                    let found: Option<(usize, ThinkTag)> = match (m_at, t_at) {
                        (Some(m), Some(t)) => if t < m {
                            Some((t, ThinkTag::Standard))
                        } else {
                            Some((m, ThinkTag::MiniMax))
                        },
                        (Some(m), None) => Some((m, ThinkTag::MiniMax)),
                        (None, Some(t)) => Some((t, ThinkTag::Standard)),
                        (None, None) => None,
                    };
                    match found {
                        Some((i, tag)) => {
                            let from: usize = i + match tag {
                                ThinkTag::MiniMax => m_open.len(),
                                ThinkTag::Standard => t_open.len(),
                            };
                            push_piece(&mut pieces, false, text::string_of(&v, 0, i));
                            self.scratch = text::string_of(&v, from, n);
                            self.active = Some(tag);
                            proof {
                                assert(s.subrange(0, i as int) =~= s.take(i as int));
                                assert(s.subrange(from as int, n as int) =~= s.skip(from as int));
                                let r = parsed(Some(tag), s.skip(from as int));
                                assert(before + (one_piece(false, s.take(i as int)) + r.0) =~= (
                                before + one_piece(false, s.take(i as int))) + r.0);
                            }
                        },
                        None => {
                            let a: usize = partial_tag_suffix(
                                self.scratch.as_str(),
                                ThinkTag::MiniMax.open_tag(),
                            );
                            let b: usize = partial_tag_suffix(
                                self.scratch.as_str(),
                                ThinkTag::Standard.open_tag(),
                            );
                            proof {
                                lemma_overlap_upto_bytes(s, ThinkTag::MiniMax.open_text(), 8);
                                lemma_overlap_upto_bytes(s, ThinkTag::Standard.open_text(), 7);
                                is_ascii_chars_encode_utf8(ThinkTag::MiniMax.open_text());
                                is_ascii_chars_encode_utf8(ThinkTag::Standard.open_text());
                                lemma_overlap(s, ThinkTag::MiniMax.open_text(), 8);
                                lemma_overlap(s, ThinkTag::Standard.open_text(), 7);
                            }
                            let keep: usize = if b > a { b } else { a };
                            let m: usize = n - keep;
                            push_piece(&mut pieces, false, text::string_of(&v, 0, m));
                            self.scratch = text::string_of(&v, m, n);
                            proof {
                                assert(s.subrange(0, m as int) =~= s.take(m as int));
                                assert(s.subrange(m as int, n as int) =~= s.skip(m as int));
                            }
                            return pieces;
                        },
                    }
                },
            }
        }
    }

    /// Gives what is held back, at the end of the stream.
    pub fn flush(&mut self) -> (r: Vec<ThinkPiece>)
        ensures
            piece_views(r@) == one_piece(old(self)@.active is Some, old(self)@.scratch),
            final(self)@.active == old(self)@.active,
            final(self)@.scratch.len() == 0,
    {
        let mut pieces: Vec<ThinkPiece> = Vec::new();
        let mut held: String = String::new();
        std::mem::swap(&mut held, &mut self.scratch);
        let reasoning: bool = self.active.is_some();
        push_piece(&mut pieces, reasoning, held);
        proof {
            assert(piece_views(pieces@) =~= one_piece(reasoning, held@));
        }
        pieces
    }
}

/// The characters of `s`, each marked as thinking or not.
pub open spec fn marked(reasoning: bool, s: Seq<char>) -> Seq<(bool, char)> {
    s.map_values(|c: char| (reasoning, c))
}

/// The characters of the pieces `ps`, each marked as thinking or not.
pub open spec fn characters(ps: Seq<(bool, Seq<char>)>) -> Seq<(bool, char)>
    decreases ps.len(),
{
    if ps.len() == 0 {
        Seq::empty()
    } else {
        characters(ps.drop_last()) + marked(ps.last().0, ps.last().1)
    }
}

proof fn lemma_characters_concat(a: Seq<(bool, Seq<char>)>, b: Seq<(bool, Seq<char>)>)
    ensures
        characters(a + b) == characters(a) + characters(b),
    decreases b.len(),
{
    if b.len() == 0 {
        assert(a + b =~= a);
        assert(characters(a) + characters(b) =~= characters(a));
    } else {
        lemma_characters_concat(a, b.drop_last());
        assert((a + b).drop_last() =~= a + b.drop_last());
        assert((a + b).last() == b.last());
        assert(characters(a + b) =~= characters(a) + characters(b));
    }
}

proof fn lemma_one_piece(reasoning: bool, s: Seq<char>)
    ensures
        characters(one_piece(reasoning, s)) == marked(reasoning, s),
{
    if s.len() > 0 {
        let p = seq![(reasoning, s)];
        assert(p.drop_last() =~= Seq::empty());
        assert(characters(p.drop_last()) =~= Seq::empty());
        assert(characters(p) == characters(p.drop_last()) + marked(p.last().0, p.last().1));
        assert(characters(p) =~= marked(reasoning, s));
    } else {
        assert(marked(reasoning, s) =~= Seq::empty());
    }
}

proof fn lemma_stands_extended(x: Seq<char>, b: Seq<char>, c: Seq<char>, j: int)
    requires
        0 <= j,
        j + c.len() <= x.len(),
    ensures
        text::stands_at(x + b, c, j) == text::stands_at(x, c, j),
{
    assert((x + b).subrange(j, j + c.len()) =~= x.subrange(j, j + c.len()));
}

/// What stands in a text still stands there first when the text goes on.
proof fn lemma_found_extended(x: Seq<char>, b: Seq<char>, c: Seq<char>)
    requires
        text::first_index(x, c) is Some,
    ensures
        text::first_index(x + b, c) == text::first_index(x, c),
{
    let i = text::first_index(x, c)->0;
    text::lemma_first_index_from(x, c, 0);
    text::lemma_first_index_from(x + b, c, 0);
    lemma_stands_extended(x, b, c, i);
    assert(text::stands_at(x + b, c, i));
    let j = text::first_index(x + b, c)->0;
    if j < i {
        lemma_stands_extended(x, b, c, j);
    }
}

/// A tag that `x` does not hold begins in `x + b` no earlier than where the
/// overlap of `x` with it begins.
proof fn lemma_no_earlier(x: Seq<char>, b: Seq<char>, c: Seq<char>, j: int)
    requires
        text::first_index(x, c) is None,
        text::stands_at(x + b, c, j),
    ensures
        j >= x.len() - overlap(x, c),
{
    text::lemma_first_index_from(x, c, 0);
    lemma_overlap(x, c, c.len() as int);
    if j + c.len() <= x.len() {
        lemma_stands_extended(x, b, c, j);
    } else if j < x.len() {
        let l = x.len() - j;
        assert forall|k: int| 0 <= k < l implies x.skip(j)[k] == c.take(l)[k] by {
            assert((x + b).subrange(j, j + c.len())[k] == c[k]);
        }
        assert(x.skip(x.len() - l) =~= c.take(l));
    }
}

proof fn lemma_search_skips(s: Seq<char>, c: Seq<char>, n: int, from: int)
    requires
        0 <= from <= n <= s.len(),
        forall|j: int| from <= j < n ==> !text::stands_at(s, c, j),
    ensures
        text::first_index_from(s, c, from) == text::first_index_from(s, c, n),
    decreases n - from,
{
    if from < n {
        lemma_search_skips(s, c, n, from + 1);
    }
}

/// The search for a tag may forget what stands before the overlap.
proof fn lemma_search_from_overlap(x: Seq<char>, b: Seq<char>, c: Seq<char>, n: int)
    requires
        text::first_index(x, c) is None,
        0 <= n <= x.len() - overlap(x, c),
    ensures
        text::first_index(x + b, c) == (match text::first_index(x.skip(n) + b, c) {
            Some(i) => Some(i + n),
            None => None,
        }),
{
    lemma_overlap(x, c, c.len() as int);
    assert forall|j: int| 0 <= j < n implies !text::stands_at(x + b, c, j) by {
        if text::stands_at(x + b, c, j) {
            lemma_no_earlier(x, b, c, j);
        }
    }
    lemma_search_skips(x + b, c, n, 0);
    text::lemma_first_index_skip(x + b, c, n, 0);
    assert((x + b).skip(n) =~= x.skip(n) + b);
}

/// So may the overlap itself.
proof fn lemma_overlap_from_overlap(x: Seq<char>, b: Seq<char>, c: Seq<char>, n: int)
    requires
        0 <= n <= x.len() - overlap(x, c),
    ensures
        overlap(x + b, c) == overlap(x.skip(n) + b, c),
{
    let s = x + b;
    let t = x.skip(n) + b;
    lemma_overlap(x, c, c.len() as int);
    lemma_overlap(s, c, c.len() as int);
    lemma_overlap(t, c, c.len() as int);
    let a = overlap(s, c);
    let d = overlap(t, c);
    assert(t.len() == s.len() - n);
    assert forall|l: int| 0 <= l <= t.len() implies #[trigger] s.skip(s.len() - l) == t.skip(
        t.len() - l,
    ) by {
        assert(s.skip(s.len() - l) =~= t.skip(t.len() - l));
    }
    if a > t.len() {
        let j = s.len() - a;
        let l = x.len() - j;
        assert(0 <= j < n);
        assert forall|k: int| 0 <= k < l implies x.skip(j)[k] == c.take(l)[k] by {
            assert(s.skip(s.len() - a)[k] == c.take(a)[k]);
        }
        assert(x.skip(x.len() - l) =~= c.take(l));
        assert(l > overlap(x, c));
        assert(false);
    }
    assert(s.skip(s.len() - a) == t.skip(t.len() - a));
    assert(s.skip(s.len() - d) == t.skip(t.len() - d));
}

/// An opening tag that `x` holds is still the first when the text goes on.
proof fn lemma_open_extended(x: Seq<char>, b: Seq<char>)
    requires
        first_open(x) is Some,
    ensures
        first_open(x + b) == first_open(x),
{
    let m = ThinkTag::MiniMax.open_text();
    let t = ThinkTag::Standard.open_text();
    lemma_tags();
    text::lemma_first_index_from(x, m, 0);
    text::lemma_first_index_from(x, t, 0);
    text::lemma_first_index_from(x + b, m, 0);
    text::lemma_first_index_from(x + b, t, 0);
    if text::first_index(x, m) is Some {
        lemma_found_extended(x, b, m);
    } else if text::first_index(x + b, m) is Some {
        let j = text::first_index(x + b, m)->0;
        if j + m.len() <= x.len() {
            lemma_stands_extended(x, b, m, j);
        }
    }
    assert forall|j: int| text::stands_at(x + b, m, j) implies !text::stands_at(x + b, t, j) by {
        reveal_strlit("<!think>");
        reveal_strlit("<think>");
        if text::stands_at(x + b, t, j) {
            assert((x + b).subrange(j, j + m.len())[1] == '!');
            assert((x + b).subrange(j, j + t.len())[1] == 't');
        }
    }
    if text::first_index(x, t) is Some {
        lemma_found_extended(x, b, t);
    } else if text::first_index(x + b, t) is Some {
        let j = text::first_index(x + b, t)->0;
        if j + t.len() <= x.len() {
            lemma_stands_extended(x, b, t, j);
        }
    }
}

/// Feeding `b` after `x` is like feeding them at once.
pub open spec fn chunks_join(active: Option<ThinkTag>, x: Seq<char>, b: Seq<char>) -> bool {
    let first = parsed(active, x);
    let second = parsed(first.1, first.2 + b);
    let whole = parsed(active, x + b);
    &&& characters(whole.0) == characters(first.0) + characters(second.0)
    &&& whole.1 == second.1
    &&& whole.2 == second.2
}

proof fn lemma_join_inside(tag: ThinkTag, x: Seq<char>, b: Seq<char>)
    requires
        text::first_index(x, tag.close_text()) is None,
    ensures
        chunks_join(Some(tag), x, b),
{
    let c = tag.close_text();
    let s = x + b;
    let first = parsed(Some(tag), x);
    let whole = parsed(Some(tag), s);
    lemma_tags();
    lemma_overlap(x, c, c.len() as int);
    let n = x.len() - overlap(x, c);
    lemma_search_from_overlap(x, b, c, n);
    lemma_overlap_from_overlap(x, b, c, n);
    let t = x.skip(n) + b;
    let second = parsed(Some(tag), t);
    assert(t == s.skip(n)) by {
        lemma_same_after_hold(true, x, b, n);
    }
    text::lemma_first_index_from(t, c, 0);
    lemma_overlap(t, c, c.len() as int);
    if text::first_index(t, c) is Some {
        let i = text::first_index(t, c)->0;
        lemma_cut_after_hold(true, x, b, n, i);
        assert(s.skip(n + i + c.len()) =~= t.skip(i + c.len()));
        let r = parsed(None, t.skip(i + c.len()));
        lemma_characters_concat(one_piece(true, t.take(i)), r.0);
        lemma_characters_concat(one_piece(true, s.take(n + i)), r.0);
        assert(whole.0 == one_piece(true, s.take(n + i)) + r.0);
        assert(second.0 == one_piece(true, t.take(i)) + r.0);
        assert(characters(whole.0) =~= characters(first.0) + characters(second.0));
    } else {
        let k = t.len() - overlap(t, c);
        lemma_cut_after_hold(true, x, b, n, k);
        assert(s.skip(n + k) =~= t.skip(k));
    }
}

/// Outside thinking, what is held back is all that the search needs.
proof fn lemma_open_shift(x: Seq<char>, b: Seq<char>)
    requires
        first_open(x) is None,
    ensures
        ({
            let n = x.len() - open_overlap(x);
            let t = x.skip(n) + b;
            &&& 0 <= n <= x.len()
            &&& t == (x + b).skip(n)
            &&& t.len() == x.len() - n + b.len()
            &&& first_open(x + b) == (match first_open(t) {
                Some((i, tag)) => Some((i + n, tag)),
                None => None,
            })
            &&& open_overlap(x + b) == open_overlap(t)
            &&& 0 <= open_overlap(t) <= t.len()
            &&& first_open(t) matches Some((i, tag)) ==> 0 <= i && i + tag.open_text().len()
                <= t.len()
        }),
{
    let m = ThinkTag::MiniMax.open_text();
    let o = ThinkTag::Standard.open_text();
    lemma_tags();
    lemma_overlap(x, m, m.len() as int);
    lemma_overlap(x, o, o.len() as int);
    let n = x.len() - open_overlap(x);
    lemma_search_from_overlap(x, b, m, n);
    lemma_search_from_overlap(x, b, o, n);
    lemma_overlap_from_overlap(x, b, m, n);
    lemma_overlap_from_overlap(x, b, o, n);
    let t = x.skip(n) + b;
    assert(t =~= (x + b).skip(n));
    text::lemma_first_index_from(t, m, 0);
    text::lemma_first_index_from(t, o, 0);
    lemma_overlap(t, m, m.len() as int);
    lemma_overlap(t, o, o.len() as int);
}

proof fn lemma_join_outside(x: Seq<char>, b: Seq<char>)
    requires
        first_open(x) is None,
    ensures
        chunks_join(None, x, b),
{
    let s = x + b;
    let first = parsed(None, x);
    let whole = parsed(None, s);
    lemma_tags();
    lemma_open_shift(x, b);
    let n = x.len() - open_overlap(x);
    let t = x.skip(n) + b;
    let second = parsed(None, t);
    assert(first == (one_piece(false, x.take(n)), None::<ThinkTag>, x.skip(n)));
    match first_open(t) {
        Some((i, tag)) => {
            let c = tag.open_text();
            lemma_cut_after_hold(false, x, b, n, i);
            assert(s.skip(n + i + c.len()) =~= t.skip(i + c.len()));
            let r = parsed(Some(tag), t.skip(i + c.len()));
            lemma_characters_concat(one_piece(false, t.take(i)), r.0);
            lemma_characters_concat(one_piece(false, s.take(n + i)), r.0);
            assert(first_open(s) == Some((n + i, tag)));
            assert(whole.0 == one_piece(false, s.take(n + i)) + r.0);
            assert(second.0 == one_piece(false, t.take(i)) + r.0);
            assert(characters(whole.0) =~= characters(first.0) + characters(second.0));
        },
        None => {
            let k = t.len() - open_overlap(t);
            lemma_cut_after_hold(false, x, b, n, k);
            assert(s.skip(n + k) =~= t.skip(k));
        },
    }
}

/// What a stream gives does not depend on where it is cut into chunks: feeding
/// `x` and then `b` gives the same characters, marked alike, as feeding them at
/// once, and leaves the parser in the same state.
pub proof fn chunks_do_not_matter(active: Option<ThinkTag>, x: Seq<char>, b: Seq<char>)
    ensures
        chunks_join(active, x, b),
    decreases x.len(),
{
    let first = parsed(active, x);
    let second = parsed(first.1, first.2 + b);
    let s = x + b;
    let whole = parsed(active, s);
    lemma_tags();
    match active {
        Some(tag) => {
            let c = tag.close_text();
            if text::first_index(x, c) is Some {
                text::lemma_first_index_from(x, c, 0);
                let i = text::first_index(x, c)->0;
                lemma_found_extended(x, b, c);
                let rest = x.skip(i + c.len());
                chunks_do_not_matter(None, rest, b);
                assert(s.skip(i + c.len()) =~= rest + b);
                assert(s.take(i) =~= x.take(i));
                let p = one_piece(true, x.take(i));
                lemma_characters_concat(p, parsed(None, rest).0);
                lemma_characters_concat(p, parsed(None, rest + b).0);
                assert(characters(whole.0) =~= characters(first.0) + characters(second.0));
            } else {
                lemma_join_inside(tag, x, b);
            }
        },
        None => {
            if first_open(x) is Some {
                text::lemma_first_index_from(x, ThinkTag::MiniMax.open_text(), 0);
                text::lemma_first_index_from(x, ThinkTag::Standard.open_text(), 0);
                let (i, tag) = first_open(x)->0;
                let c = tag.open_text();
                lemma_open_extended(x, b);
                let rest = x.skip(i + c.len());
                chunks_do_not_matter(Some(tag), rest, b);
                assert(s.skip(i + c.len()) =~= rest + b);
                assert(s.take(i) =~= x.take(i));
                let p = one_piece(false, x.take(i));
                lemma_characters_concat(p, parsed(Some(tag), rest).0);
                lemma_characters_concat(p, parsed(Some(tag), rest + b).0);
                assert(characters(whole.0) =~= characters(first.0) + characters(second.0));
            } else {
                lemma_join_outside(x, b);
            }
        },
    }
}

proof fn lemma_same_after_hold(reasoning: bool, x: Seq<char>, b: Seq<char>, n: int)
    requires
        0 <= n <= x.len(),
    ensures
        characters(one_piece(reasoning, x.take(n))) == marked(reasoning, x.take(n)),
        x.skip(n) + b == (x + b).skip(n),
{
    lemma_one_piece(reasoning, x.take(n));
    assert(x.skip(n) + b =~= (x + b).skip(n));
}

proof fn lemma_cut_after_hold(reasoning: bool, x: Seq<char>, b: Seq<char>, n: int, i: int)
    requires
        0 <= n <= x.len(),
        0 <= i <= x.len() - n + b.len(),
    ensures
        characters(one_piece(reasoning, (x + b).take(n + i))) == characters(
            one_piece(reasoning, x.take(n)),
        ) + characters(one_piece(reasoning, (x.skip(n) + b).take(i))),
{
    lemma_one_piece(reasoning, (x + b).take(n + i));
    lemma_one_piece(reasoning, x.take(n));
    lemma_one_piece(reasoning, (x.skip(n) + b).take(i));
    assert(marked(reasoning, (x + b).take(n + i)) =~= marked(reasoning, x.take(n)) + marked(
        reasoning,
        (x.skip(n) + b).take(i),
    ));
}

/// Text without an opening tag comes out as it is: what `feed` gives and what
/// `flush` gives after it are the text, and none of it is thinking.
pub proof fn untagged_text_is_kept(s: Seq<char>)
    requires
        first_open(s) is None,
    ensures
        ({
            let p = parsed(None, s);
            &&& p.1 is None
            &&& characters(p.0) + characters(one_piece(false, p.2)) == marked(false, s)
        }),
{
    lemma_tags();
    lemma_overlap(s, ThinkTag::MiniMax.open_text(), 8);
    lemma_overlap(s, ThinkTag::Standard.open_text(), 7);
    let n = s.len() - open_overlap(s);
    lemma_one_piece(false, s.take(n));
    lemma_one_piece(false, s.skip(n));
    assert(marked(false, s) =~= marked(false, s.take(n)) + marked(false, s.skip(n)));
}

} // verus!
