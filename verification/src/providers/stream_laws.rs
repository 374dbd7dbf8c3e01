//! What a streamed reply gives as a whole: thinking apart from content, and nothing lost
//! between one part of the stream and the next.

use crate::providers::sse;
use crate::providers::sse_laws;
use crate::providers::stream;
use crate::providers::think_tag::ThinkTag;
use crate::providers::think_tag;
use crate::providers::types;
use crate::text;
use vstd::prelude::*;

verus! {

/// `open` and `close` are the tags around thinking.
pub open spec fn is_tag_pair(open: Seq<char>, close: Seq<char>) -> bool {
    ||| open == "<think>"@ && close == "</think>"@
    ||| open == "<!think>"@ && close == "willReturn"@
}

/// No opening tag stands in `s` before `end`.
pub open spec fn opens_nothing(s: Seq<char>, end: int) -> bool {
    forall|j: int|
        #![trigger text::stands_at(s, "<think>"@, j)]
        #![trigger text::stands_at(s, "<!think>"@, j)]
        j < end ==> !text::stands_at(s, "<think>"@, j) && !text::stands_at(s, "<!think>"@, j)
}

/// Characters of a stream, each with whether it is thinking.
pub open spec fn all_marked(thinking: bool, s: Seq<char>) -> Seq<(bool, char)> {
    s.map_values(|c: char| (thinking, c))
}

proof fn lemma_marked(thinking: bool, s: Seq<char>)
    ensures
        think_tag::characters(think_tag::one_piece(thinking, s)) == all_marked(thinking, s),
{
    let p = think_tag::one_piece(thinking, s);
    reveal_with_fuel(think_tag::characters, 2);
    if s.len() > 0 {
        assert(p.drop_last() =~= Seq::empty());
        assert(p.drop_first() =~= Seq::empty());
    }
    assert(think_tag::characters(p) =~= all_marked(thinking, s));
}

proof fn lemma_characters(a: Seq<(bool, Seq<char>)>, b: Seq<(bool, Seq<char>)>)
    ensures
        think_tag::characters(a + b) == think_tag::characters(a) + think_tag::characters(b),
    decreases b.len(),
{
    if b.len() == 0 {
        assert(a + b =~= a);
        assert(think_tag::characters(a) + think_tag::characters(b) =~= think_tag::characters(a));
    } else {
        assert((a + b).drop_last() =~= a + b.drop_last());
        lemma_characters(a, b.drop_last());
        assert(think_tag::characters(a + b) =~= think_tag::characters(a) + think_tag::characters(
            b,
        ));
    }
}

spec fn tag_of(open: Seq<char>) -> ThinkTag {
    if open == "<think>"@ {
        ThinkTag::Standard
    } else {
        ThinkTag::MiniMax
    }
}

proof fn lemma_opened(a: Seq<char>, open: Seq<char>, close: Seq<char>, rest: Seq<char>)
    requires
        is_tag_pair(open, close),
        opens_nothing(a + open + rest, a.len() as int),
    ensures
        think_tag::first_open(a + open + rest) == Some((a.len() as int, tag_of(open))),
        tag_of(open).open_text() == open,
        tag_of(open).close_text() == close,
        open.len() > 0,
        close.len() > 0,
{
    lemma_tag_texts();
    let s = a + open + rest;
    let n = a.len() as int;
    lemma_stands(a, open, rest);
    let other = if open == "<think>"@ {
        "<!think>"@
    } else {
        "<think>"@
    };
    lemma_one_of_two(s, open, other, n);
    assert forall|j: int| j < n implies !text::stands_at(s, open, j) && !#[trigger] text::stands_at(
        s,
        other,
        j,
    ) by {
    }
    lemma_first_at(s, open, other, n);
}

proof fn lemma_stands(a: Seq<char>, p: Seq<char>, rest: Seq<char>)
    ensures
        text::stands_at(a + p + rest, p, a.len() as int),
{
    let n = a.len() as int;
    assert((a + p + rest).subrange(n, n + p.len()) =~= p);
}

proof fn lemma_one_of_two(s: Seq<char>, p: Seq<char>, q: Seq<char>, n: int)
    requires
        p.len() > 1,
        q.len() > 1,
        p[1] != q[1],
        text::stands_at(s, p, n),
    ensures
        !text::stands_at(s, q, n),
{
    assert(s.subrange(n, n + p.len())[1] == s[n + 1]);
    if text::stands_at(s, q, n) {
        assert(s.subrange(n, n + q.len())[1] == s[n + 1]);
    }
}

proof fn lemma_first_at(s: Seq<char>, p: Seq<char>, q: Seq<char>, n: int)
    requires
        0 <= n,
        text::stands_at(s, p, n),
        !text::stands_at(s, q, n),
        forall|j: int|
            j < n ==> !text::stands_at(s, p, j) && !#[trigger] text::stands_at(s, q, j),
    ensures
        text::first_index(s, p) == Some(n),
        text::first_index(s, q) matches Some(i) ==> i > n,
{
    text::lemma_first_index_from(s, p, 0);
    text::lemma_first_index_from(s, q, 0);
    let i = text::first_index(s, p)->0;
    if i < n {
        assert(!text::stands_at(s, q, i));
    }
}

/// The tags are told apart by their second character.
proof fn lemma_tag_texts()
    ensures
        "<think>"@.len() == 7,
        "<!think>"@.len() == 8,
        "</think>"@.len() == 8,
        "willReturn"@.len() == 10,
        "<think>"@[1] != "<!think>"@[1],
{
    reveal_strlit("<think>");
    reveal_strlit("<!think>");
    reveal_strlit("</think>");
    reveal_strlit("willReturn");
}

/// What stands before an opening tag is content, what stands between it and its closing
/// tag is thinking, the tags are dropped, and behind them the text goes on as a new one.
pub proof fn tagged_text_is_thinking(
    a: Seq<char>,
    open: Seq<char>,
    b: Seq<char>,
    close: Seq<char>,
    rest: Seq<char>,
)
    requires
        is_tag_pair(open, close),
        opens_nothing(a + open + (b + close + rest), a.len() as int),
        forall|j: int| j < b.len() ==> !#[trigger] text::stands_at(b + close + rest, close, j),
    ensures
        ({
            let whole = think_tag::parsed(None, a + open + (b + close + rest));
            let after = think_tag::parsed(None, rest);
            &&& think_tag::characters(whole.0) == all_marked(false, a) + all_marked(true, b)
                + think_tag::characters(after.0)
            &&& whole.1 == after.1
            &&& whole.2 == after.2
        }),
{
    let t = b + close + rest;
    let s = a + open + t;
    lemma_opened(a, open, close, t);
    let tag = tag_of(open);
    assert(s.skip(a.len() as int + open.len()) =~= t);
    assert(s.take(a.len() as int) =~= a);
    text::lemma_first_index_from(t, close, 0);
    assert(t.subrange(b.len() as int, b.len() as int + close.len()) =~= close);
    assert(text::stands_at(t, close, b.len() as int));
    assert(text::first_index(t, close) == Some(b.len() as int));
    assert(t.skip(b.len() as int + close.len()) =~= rest);
    assert(t.take(b.len() as int) =~= b);
    let after = think_tag::parsed(None, rest);
    let inner = think_tag::parsed(Some(tag), t);
    assert(inner.0 == think_tag::one_piece(true, b) + after.0);
    let whole = think_tag::parsed(None, s);
    assert(whole.0 == think_tag::one_piece(false, a) + inner.0);
    lemma_characters(think_tag::one_piece(true, b), after.0);
    lemma_characters(think_tag::one_piece(false, a), inner.0);
    lemma_marked(false, a);
    lemma_marked(true, b);
    assert(think_tag::characters(whole.0) =~= all_marked(false, a) + all_marked(true, b)
        + think_tag::characters(after.0));
}

/// Thinking that is not closed goes on to the end: what the parser gives and what it holds
/// back are the text before the tag and the thinking behind it.
pub proof fn unclosed_thinking_goes_on(
    a: Seq<char>,
    open: Seq<char>,
    b: Seq<char>,
    close: Seq<char>,
)
    requires
        is_tag_pair(open, close),
        opens_nothing(a + open + b, a.len() as int),
        forall|j: int| !#[trigger] text::stands_at(b, close, j),
    ensures
        ({
            let r = think_tag::parsed(None, a + open + b);
            &&& r.1 is Some
            &&& think_tag::characters(r.0) + all_marked(true, r.2) == all_marked(false, a)
                + all_marked(true, b)
        }),
{
    let s = a + open + b;
    lemma_opened(a, open, close, b);
    let tag = tag_of(open);
    assert(s.skip(a.len() as int + open.len()) =~= b);
    assert(s.take(a.len() as int) =~= a);
    text::lemma_first_index_from(b, close, 0);
    think_tag::lemma_overlap(b, close, close.len() as int);
    let n = b.len() - think_tag::overlap(b, close);
    let inner = think_tag::parsed(Some(tag), b);
    assert(inner.0 == think_tag::one_piece(true, b.take(n)));
    let whole = think_tag::parsed(None, s);
    assert(whole.0 == think_tag::one_piece(false, a) + inner.0);
    lemma_characters(think_tag::one_piece(false, a), inner.0);
    lemma_marked(false, a);
    lemma_marked(true, b.take(n));
    assert(think_tag::characters(whole.0) + all_marked(true, whole.2) =~= all_marked(false, a)
        + all_marked(true, b));
}

/// The characters of `s` that are thinking, or those that are not.
pub open spec fn only(s: Seq<(bool, char)>, thinking: bool) -> Seq<char> {
    s.filter(|x: (bool, char)| x.0 == thinking).map_values(|x: (bool, char)| x.1)
}

proof fn lemma_only(a: Seq<(bool, char)>, b: Seq<(bool, char)>, thinking: bool)
    ensures
        only(a + b, thinking) == only(a, thinking) + only(b, thinking),
    decreases b.len(),
{
    reveal(Seq::filter);
    if b.len() == 0 {
        assert(a + b =~= a);
        assert(only(a, thinking) + only(b, thinking) =~= only(a, thinking));
    } else {
        assert((a + b).drop_last() =~= a + b.drop_last());
        lemma_only(a, b.drop_last(), thinking);
        assert(only(a + b, thinking) =~= only(a, thinking) + only(b, thinking));
    }
}

proof fn lemma_only_marked(s: Seq<char>, mark: bool, thinking: bool)
    ensures
        only(all_marked(mark, s), thinking) == (if mark == thinking {
            s
        } else {
            Seq::empty()
        }),
    decreases s.len(),
{
    reveal(Seq::filter);
    let m = all_marked(mark, s);
    if s.len() > 0 {
        lemma_only_marked(s.drop_last(), mark, thinking);
        assert(m.drop_last() =~= all_marked(mark, s.drop_last()));
        assert(m.last() == (mark, s.last()));
        assert(s.drop_last().push(s.last()) =~= s);
    }
    assert(only(m, thinking) =~= if mark == thinking {
        s
    } else {
        Seq::empty()
    });
}

/// The events of pieces say what the pieces say.
proof fn lemma_pieces(ps: Seq<(bool, Seq<char>)>, n: u64)
    ensures
        ({
            let events = stream::piece_events(ps);
            &&& sse_laws::content_text(events) == only(think_tag::characters(ps), false)
            &&& sse_laws::reasoning_text(events) == only(think_tag::characters(ps), true)
            &&& sse_laws::argument_text(events, n).len() == 0
            &&& sse_laws::started(events).len() == 0
        }),
    decreases ps.len(),
{
    reveal(Seq::filter);
    let events = stream::piece_events(ps);
    if ps.len() > 0 {
        let qs = ps.drop_last();
        let p = ps.last();
        lemma_pieces(qs, n);
        assert(events.drop_last() =~= stream::piece_events(qs));
        assert(events.last() == stream::piece_event(p));
        assert(qs + seq![p] =~= ps);
        lemma_characters(qs, seq![p]);
        assert(think_tag::characters(seq![p]) =~= all_marked(p.0, p.1)) by {
            reveal_with_fuel(think_tag::characters, 2);
            assert(seq![p].drop_last() =~= Seq::empty());
        }
        lemma_only(think_tag::characters(qs), all_marked(p.0, p.1), false);
        lemma_only(think_tag::characters(qs), all_marked(p.0, p.1), true);
        lemma_only_marked(p.1, p.0, false);
        lemma_only_marked(p.1, p.0, true);
    }
    assert(sse_laws::content_text(events) =~= only(think_tag::characters(ps), false));
    assert(sse_laws::reasoning_text(events) =~= only(think_tag::characters(ps), true));
}

/// The text that a parser holds back says nothing yet.
pub open spec fn is_settled(p: think_tag::ThinkTagParserView) -> bool {
    let r = think_tag::parsed(p.active, p.scratch);
    think_tag::characters(r.0).len() == 0 && r.1 == p.active && r.2 == p.scratch
}

/// A parser that has taken some text, or none, holds back only what says nothing yet.
pub proof fn parsers_settle(p: think_tag::ThinkTagParserView, s: Seq<char>)
    ensures
        is_settled(stream::fed(p, s)),
        is_settled(think_tag::ThinkTagParserView { active: None, scratch: Seq::empty() }),
{
    let x = p.scratch + s;
    think_tag::chunks_do_not_matter(p.active, x, Seq::empty());
    assert(x + Seq::<char>::empty() =~= x);
    let r = think_tag::parsed(p.active, x);
    assert(r.2 + Seq::<char>::empty() =~= r.2);
    lemma_nothing();
}

proof fn lemma_nothing()
    ensures
        is_settled(think_tag::ThinkTagParserView { active: None, scratch: Seq::empty() }),
{
    let none = Seq::<char>::empty();
    think_tag::lemma_tags();
    text::lemma_first_index_from(none, ThinkTag::MiniMax.open_text(), 0);
    text::lemma_first_index_from(none, ThinkTag::Standard.open_text(), 0);
    think_tag::lemma_overlap(none, ThinkTag::MiniMax.open_text(), 8);
    think_tag::lemma_overlap(none, ThinkTag::Standard.open_text(), 7);
    let r = think_tag::parsed(None, none);
    assert(r.0 =~= Seq::empty());
    assert(r.2 =~= none);
    assert(think_tag::characters(r.0).len() == 0);
}

/// The events with their content split: the tool calls stay as they are; the content is
/// what the whole text of the events holds outside the tags; what it holds within
/// them is thinking, behind which the thinking of the events stays; and the parser is
/// where it would be, had it taken the text at once.
pub proof fn splitting_keeps_all_but_the_tags(
    p: think_tag::ThinkTagParserView,
    events: Seq<types::StreamEventView>,
    i: int,
    n: u64,
)
    requires
        0 <= i <= events.len(),
    ensures
        ({
            let (out, q) = stream::split_events(p, events, i);
            let part = events.take(i);
            let whole = think_tag::parsed(p.active, p.scratch + sse_laws::content_text(part));
            &&& sse_laws::argument_text(out, n) == sse_laws::argument_text(part, n)
            &&& sse_laws::started(out) == sse_laws::started(part)
            &&& is_settled(p) ==> {
                &&& sse_laws::content_text(out) == only(think_tag::characters(whole.0), false)
                &&& sse_laws::reasoning_text(part).len() == 0 ==> sse_laws::reasoning_text(out)
                    == only(think_tag::characters(whole.0), true)
                &&& q.active == whole.1
                &&& q.scratch == whole.2
            }
        }),
    decreases i,
{
    let (out, q) = stream::split_events(p, events, i);
    let part = events.take(i);
    let whole = think_tag::parsed(p.active, p.scratch + sse_laws::content_text(part));
    if i > 0 {
        splitting_keeps_all_but_the_tags(p, events, i - 1, n);
        let (out0, q0) = stream::split_events(p, events, i - 1);
        let e = events[i - 1];
        assert(part.drop_last() =~= events.take(i - 1));
        assert(part.last() == e);
        match e {
            types::StreamEventView::Content(s) => {
                let x = p.scratch + sse_laws::content_text(part.drop_last());
                think_tag::chunks_do_not_matter(p.active, x, s);
                assert(p.scratch + sse_laws::content_text(part) =~= x + s);
                let ps = think_tag::parsed(q0.active, q0.scratch + s).0;
                lemma_pieces(ps, n);
                sse_laws::lemma_joined(out0, stream::piece_events(ps), n);
                let a = think_tag::characters(think_tag::parsed(p.active, x).0);
                let b = think_tag::characters(ps);
                lemma_only(a, b, false);
                lemma_only(a, b, true);
                assert(sse_laws::argument_text(out, n) =~= sse_laws::argument_text(part, n));
                assert(sse_laws::started(out) =~= sse_laws::started(part));
            },
            _ => {
                assert(out.drop_last() =~= out0);
                assert(out.last() == e);
                if sse_laws::reasoning_text(part).len() == 0 {
                    assert(sse_laws::reasoning_text(out) =~= sse_laws::reasoning_text(out0));
                }
            },
        }
    } else {
        reveal(Seq::filter);
        assert(part =~= Seq::empty());
        assert(is_settled(p) ==> think_tag::characters(whole.0) =~= Seq::empty());
        assert(p.scratch + sse_laws::content_text(part) =~= p.scratch);
        assert(only(think_tag::characters(Seq::empty()), false) =~= Seq::empty());
        assert(only(think_tag::characters(Seq::empty()), true) =~= Seq::empty());
    }
}

/// A line's usage and finish reason are kept until a later line gives others, and stand in
/// the last event of the reply, behind what the tag parser held back.
pub proof fn last_report_counts(st: stream::SseView, out: sse::LineView)
    ensures
        ({
            let after = stream::after_line(st, out).1;
            &&& out.usage is Some ==> after.usage == out.usage
            &&& out.usage is None ==> after.usage == st.usage
            &&& out.finish_reason is Some ==> after.finish_reason == out.finish_reason
            &&& out.finish_reason is None ==> after.finish_reason == st.finish_reason
            &&& after.buffer == st.buffer
            &&& after.done == st.done
            &&& (stream::after_line(st, out).0, after.parser) == stream::split_events(
                st.parser,
                out.events,
                out.events.len() as int,
            )
        }),
        ({
            let events = stream::last_events(st);
            &&& events.len() > 0
            &&& events.last() matches types::StreamEventView::Finished(r) && r.usage == st.usage
                && r.finish_reason == st.finish_reason && r.tool_calls is None && r.content.len()
                == 0
            &&& st.parser.active is None ==> sse_laws::content_text(events) == st.parser.scratch
                && sse_laws::reasoning_text(events).len() == 0
            &&& st.parser.active is Some ==> sse_laws::reasoning_text(events) == st.parser.scratch
                && sse_laws::content_text(events).len() == 0
        }),
{
    let events = stream::last_events(st);
    let thinking = st.parser.active is Some;
    let ps = think_tag::one_piece(thinking, st.parser.scratch);
    lemma_pieces(ps, 0);
    lemma_marked(thinking, st.parser.scratch);
    lemma_only_marked(st.parser.scratch, thinking, false);
    lemma_only_marked(st.parser.scratch, thinking, true);
    assert(events.drop_last() =~= stream::piece_events(ps));
}

/// What a stream gives does not depend on where its text is cut: reading `y` behind what
/// was read before gives the events, and leaves the reader, as reading all of it at
/// once does.
pub proof fn parts_of_a_stream_do_not_matter(
    st: stream::SseView,
    events: Seq<types::StreamEventView>,
    mid: stream::SseView,
    y: Seq<char>,
    more: Seq<types::StreamEventView>,
    end: stream::SseView,
)
    requires
        !st.done,
        !mid.done,
        stream::may_read(st, events, mid),
        stream::may_read(stream::SseView { buffer: mid.buffer + y, ..mid }, more, end),
    ensures
        stream::may_read(stream::SseView { buffer: st.buffer + y, ..st }, events + more, end),
    decreases st.buffer.len(),
{
    reveal_strlit("\n");
    let big = stream::SseView { buffer: st.buffer + y, ..st };
    text::lemma_first_index_from(st.buffer, "\n"@, 0);
    match text::first_index(st.buffer, "\n"@) {
        None => {
            assert(events + more =~= more);
        },
        Some(i) => {
            let line = st.buffer.take(i);
            let rest = stream::SseView { buffer: st.buffer.skip(i + 1), ..st };
            lemma_newline(st.buffer, y);
            assert(big.buffer.take(i) =~= line);
            assert(big.buffer.skip(i + 1) =~= rest.buffer + y);
            let rest_big = stream::SseView { buffer: big.buffer.skip(i + 1), ..big };
            let (out, tail) = choose|out: sse::LineView, tail: Seq<types::StreamEventView>|
                {
                    &&& #[trigger] sse::is_line_outcome(line, out)
                    &&& events == #[trigger] (stream::after_line(rest, out).0 + tail)
                    &&& stream::may_read(stream::after_line(rest, out).1, tail, mid)
                };
            let next = stream::after_line(rest, out).1;
            parts_of_a_stream_do_not_matter(next, tail, mid, y, more, end);
            let next_big = stream::after_line(rest_big, out).1;
            assert(next_big == stream::SseView { buffer: next.buffer + y, ..next });
            let first = stream::after_line(rest_big, out).0;
            assert(events + more =~= first + (tail + more));
            assert(stream::may_read(next_big, tail + more, end));
            assert(sse::is_line_outcome(line, out));
        },
    }
}

proof fn lemma_newline(s: Seq<char>, y: Seq<char>)
    requires
        text::first_index(s, "\n"@) is Some,
    ensures
        text::first_index(s + y, "\n"@) == text::first_index(s, "\n"@),
{
    reveal_strlit("\n");
    let p = "\n"@;
    text::lemma_first_index_from(s, p, 0);
    text::lemma_first_index_from(s + y, p, 0);
    let i = text::first_index(s, p)->0;
    assert((s + y).subrange(i, i + 1) =~= s.subrange(i, i + 1));
    assert(text::stands_at(s + y, p, i));
    let k = text::first_index(s + y, p)->0;
    if k < i {
        assert((s + y).subrange(k, k + 1) =~= s.subrange(k, k + 1));
        assert(text::stands_at(s, p, k));
    }
}

/// The text behind the last line of what was read is kept, and nothing else: as long as
/// the reply has not ended, no complete line waits.
pub proof fn complete_lines_are_read(
    st: stream::SseView,
    events: Seq<types::StreamEventView>,
    end: stream::SseView,
)
    requires
        !st.done,
        stream::may_read(st, events, end),
    ensures
        !end.done ==> !end.buffer.contains('\n') && end.buffer.len() <= st.buffer.len()
            && end.buffer == st.buffer.skip(st.buffer.len() - end.buffer.len()),
        !st.buffer.contains('\n') ==> events.len() == 0 && end == st,
    decreases st.buffer.len(),
{
    reveal_strlit("\n");
    let p = "\n"@;
    text::lemma_first_index_from(st.buffer, p, 0);
    match text::first_index(st.buffer, p) {
        None => {
            if st.buffer.contains('\n') {
                let k = choose|k: int| 0 <= k < st.buffer.len() && st.buffer[k] == '\n';
                assert(st.buffer.subrange(k, k + 1) =~= p);
                assert(text::stands_at(st.buffer, p, k));
            }
            assert(st.buffer.skip(0) =~= st.buffer);
        },
        Some(i) => {
            assert(st.buffer.subrange(i, i + 1)[0] == st.buffer[i]);
            assert(st.buffer[i] == '\n');
            let line = st.buffer.take(i);
            let rest = stream::SseView { buffer: st.buffer.skip(i + 1), ..st };
            if !end.done {
                let (out, tail) = choose|out: sse::LineView, tail: Seq<types::StreamEventView>|
                    {
                        &&& #[trigger] sse::is_line_outcome(line, out)
                        &&& events == #[trigger] (stream::after_line(rest, out).0 + tail)
                        &&& stream::may_read(stream::after_line(rest, out).1, tail, end)
                    };
                complete_lines_are_read(stream::after_line(rest, out).1, tail, end);
                assert(end.buffer =~= st.buffer.skip(st.buffer.len() - end.buffer.len()));
            }
        },
    }
}

/// Events are split one after the other: behind what the events before give, a piece of
/// content gives the pieces that the parser makes of it, each as content or as thinking,
/// and every other event stays as it is.
pub proof fn events_keep_their_order(
    p: think_tag::ThinkTagParserView,
    events: Seq<types::StreamEventView>,
    e: types::StreamEventView,
    ps: Seq<(bool, Seq<char>)>,
    i: int,
)
    requires
        0 <= i < ps.len(),
    ensures
        ({
            let n = events.len() as int;
            let (before, q) = stream::split_events(p, events, n);
            let after = stream::split_events(p, events.push(e), n + 1).0;
            match e {
                types::StreamEventView::Content(s) => after == before + stream::piece_events(
                    think_tag::parsed(q.active, q.scratch + s).0,
                ),
                _ => after == before.push(e),
            }
        }),
        stream::piece_events(ps).len() == ps.len(),
        stream::piece_events(ps)[i] == (if ps[i].0 {
            types::StreamEventView::ReasoningContent(ps[i].1)
        } else {
            types::StreamEventView::Content(ps[i].1)
        }),
        stream::split_events(p, events, 0).0.len() == 0,
{
    let n = events.len() as int;
    lemma_same_events(p, events, events.push(e), n);
    assert(events.push(e)[n] == e);
}

proof fn lemma_same_events(
    p: think_tag::ThinkTagParserView,
    a: Seq<types::StreamEventView>,
    b: Seq<types::StreamEventView>,
    n: int,
)
    requires
        0 <= n <= a.len(),
        n <= b.len(),
        forall|k: int| 0 <= k < n ==> a[k] == b[k],
    ensures
        stream::split_events(p, a, n) == stream::split_events(p, b, n),
    decreases n,
{
    if n > 0 {
        lemma_same_events(p, a, b, n - 1);
    }
}

/// The first line of what waits is read first: its events come first, and behind them those
/// of the rest. The line that ends the reply gives what was held back and the end, whatever
/// follows it.
pub proof fn lines_are_read_in_turn(
    st: stream::SseView,
    line: Seq<char>,
    rest: Seq<char>,
    events: Seq<types::StreamEventView>,
    end: stream::SseView,
) -> (r: (sse::LineView, Seq<types::StreamEventView>))
    requires
        !st.done,
        !line.contains('\n'),
        st.buffer == line + seq!['\n'] + rest,
        stream::may_read(st, events, end),
    ensures
        text::trimmed(line) == "data: [DONE]"@ ==> end.done && events == stream::last_events(st),
        text::trimmed(line) != "data: [DONE]"@ && sse::line_fits(line) && sse::line_ids(line)
            <= usize::MAX ==> {
            let next = stream::SseView { buffer: rest, ..st };
            &&& sse::is_line_outcome(line, r.0)
            &&& events == stream::after_line(next, r.0).0 + r.1
            &&& stream::may_read(stream::after_line(next, r.0).1, r.1, end)
        },
{
    reveal_strlit("\n");
    let p = "\n"@;
    let n = line.len() as int;
    text::lemma_first_index_from(st.buffer, p, 0);
    assert(st.buffer.subrange(n, n + 1) =~= p);
    assert(text::stands_at(st.buffer, p, n));
    let i = text::first_index(st.buffer, p)->0;
    if i < n {
        assert(st.buffer.subrange(i, i + 1)[0] == line[i]);
        assert(line.contains(line[i]));
    }
    assert(st.buffer.take(n) =~= line);
    assert(st.buffer.skip(n + 1) =~= rest);
    let next = stream::SseView { buffer: rest, ..st };
    if text::trimmed(line) != "data: [DONE]"@ && stream::readable(line) {
        let (out, tail) = choose|out: sse::LineView, tail: Seq<types::StreamEventView>|
            {
                &&& #[trigger] sse::is_line_outcome(line, out)
                &&& events == #[trigger] (stream::after_line(next, out).0 + tail)
                &&& stream::may_read(stream::after_line(next, out).1, tail, end)
            };
        (out, tail)
    } else {
        (sse::nothing(), Seq::empty())
    }
}

} // verus!
