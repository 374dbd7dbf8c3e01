//! The reading of a streamed reply: bytes come in, events go out.

use crate::bytes;
use crate::message;
use crate::providers::sse;
use crate::providers::think_tag::{ThinkPiece, ThinkTagParser};
use crate::providers::think_tag;
use crate::providers::types::{ChatResponse, StreamError, StreamEvent, UsageInfo};
use crate::providers::types;
use crate::text;
use vstd::prelude::*;
use vstd::string::*;
use vstd::utf8::*;

verus! {

/// The reader of a streamed reply.
pub struct SseReader {
    buffer: String,
    usage: Option<UsageInfo>,
    finish_reason: Option<String>,
    parser: ThinkTagParser,
    done: bool,
}

/// What a reader holds.
pub struct SseView {
    /// The text behind the last complete line.
    pub buffer: Seq<char>,
    /// The usage that was reported last.
    pub usage: Option<UsageInfo>,
    /// The finish reason that was given last.
    pub finish_reason: Option<Seq<char>>,
    pub parser: think_tag::ThinkTagParserView,
    /// The reply has ended.
    pub done: bool,
}

impl View for SseReader {
    type V = SseView;

    closed spec fn view(&self) -> SseView {
        SseView {
            buffer: self.buffer@,
            usage: self.usage,
            finish_reason: text::opt_text(self.finish_reason),
            parser: self.parser@,
            done: self.done,
        }
    }
}

/// The event of a piece of content or thinking.
pub open spec fn piece_event(p: (bool, Seq<char>)) -> types::StreamEventView {
    if p.0 {
        types::StreamEventView::ReasoningContent(p.1)
    } else {
        types::StreamEventView::Content(p.1)
    }
}

/// The events of pieces.
pub open spec fn piece_events(ps: Seq<(bool, Seq<char>)>) -> Seq<types::StreamEventView> {
    ps.map_values(|p: (bool, Seq<char>)| piece_event(p))
}

/// A parser after it has taken `s`.
pub open spec fn fed(p: think_tag::ThinkTagParserView, s: Seq<char>) -> think_tag::ThinkTagParserView {
    let r = think_tag::parsed(p.active, p.scratch + s);
    think_tag::ThinkTagParserView { active: r.1, scratch: r.2 }
}

/// The first `i` events of `events` with their content split into content and
/// thinking, and the parser after it.
pub open spec fn split_events(
    p: think_tag::ThinkTagParserView,
    events: Seq<types::StreamEventView>,
    i: int,
) -> (Seq<types::StreamEventView>, think_tag::ThinkTagParserView)
    decreases i,
{
    if i <= 0 {
        (Seq::empty(), p)
    } else {
        let (out, q) = split_events(p, events, i - 1);
        match events[i - 1] {
            types::StreamEventView::Content(s) => (
                out + piece_events(think_tag::parsed(q.active, q.scratch + s).0),
                fed(q, s),
            ),
            e => (out.push(e), q),
        }
    }
}

/// The event at the end of a reply: no content, but the usage and the finish
/// reason that came with the stream.
pub open spec fn finished(st: SseView) -> types::StreamEventView {
    types::StreamEventView::Finished(
        types::ResponseView {
            content: Seq::empty(),
            reasoning_content: None,
            tool_calls: None,
            usage: st.usage,
            finish_reason: st.finish_reason,
        },
    )
}

/// The reader after a line that gave `out`, and its events.
pub open spec fn after_line(st: SseView, out: sse::LineView) -> (
    Seq<types::StreamEventView>,
    SseView,
) {
    let (events, parser) = split_events(st.parser, out.events, out.events.len() as int);
    (
        events,
        SseView {
            usage: if out.usage is Some {
                out.usage
            } else {
                st.usage
            },
            finish_reason: if out.finish_reason is Some {
                out.finish_reason
            } else {
                st.finish_reason
            },
            parser,
            ..st
        },
    )
}

/// A line that can be read.
pub open spec fn readable(line: Seq<char>) -> bool {
    sse::line_fits(line) && sse::line_ids(line) <= usize::MAX
}

/// The events at the end of a reply: what the tag parser held back, and the end.
pub open spec fn last_events(st: SseView) -> Seq<types::StreamEventView> {
    piece_events(think_tag::one_piece(st.parser.active is Some, st.parser.scratch)).push(
        finished(st),
    )
}

/// The reader at the end of a reply: nothing is held back.
pub open spec fn ended(st: SseView) -> SseView {
    SseView {
        parser: think_tag::ThinkTagParserView { scratch: Seq::empty(), ..st.parser },
        done: true,
        ..st
    }
}

/// What is said of a line whose numbers are too large to add up.
pub const UNREADABLE_LINE: &'static str = "Stream error: a line is out of range";

/// Reading the complete lines of `st` gives `events` and leaves `end`: each
/// line is read in turn, until there is none, or one says that the reply is
/// done, or one cannot be read, which breaks the reply off with an error.
pub open spec fn may_read(st: SseView, events: Seq<types::StreamEventView>, end: SseView) -> bool
    decreases st.buffer.len(),
{
    match text::first_index(st.buffer, "\n"@) {
        None => events == Seq::<types::StreamEventView>::empty() && end == st,
        Some(i) => {
            let line = st.buffer.take(i);
            let rest = SseView { buffer: st.buffer.skip(i + 1), ..st };
            if text::trimmed(line) == "data: [DONE]"@ {
                events == last_events(st) && end == ended(rest)
            } else if !readable(line) {
                events == seq![types::StreamEventView::Transport(UNREADABLE_LINE@)] && end == (
                SseView { done: true, ..rest })
            } else if 0 <= i < st.buffer.len() {
                exists|out: sse::LineView, tail: Seq<types::StreamEventView>|
                    {
                        &&& #[trigger] sse::is_line_outcome(line, out)
                        &&& events == #[trigger] (after_line(rest, out).0 + tail)
                        &&& may_read(after_line(rest, out).1, tail, end)
                    }
            } else {
                false
            }
        },
    }
}

/// The events of the pieces `ps`, after `events`.
fn push_pieces(events: &mut Vec<StreamEvent>, ps: Vec<ThinkPiece>)
    ensures
        types::event_views(final(events)@) == types::event_views(old(events)@) + piece_events(
            think_tag::piece_views(ps@),
        ),
{
    let ghost before: Seq<types::StreamEventView> = types::event_views(events@);
    let ghost goal: Seq<types::StreamEventView> = piece_events(think_tag::piece_views(ps@));
    let mut i: usize = 0;
    proof {
        assert(before + goal.take(0) =~= before);
    }
    while i < ps.len()
        invariant
            i <= ps@.len(),
            goal == piece_events(think_tag::piece_views(ps@)),
            types::event_views(events@) == before + goal.take(i as int),
        decreases ps@.len() - i,
    {
        let e: StreamEvent = match &ps[i] {
            ThinkPiece::Content(s) => StreamEvent::Content(s.clone()),
            ThinkPiece::Reasoning(s) => StreamEvent::ReasoningContent(s.clone()),
        };
        proof {
            types::lemma_event_push(events@, e);
            assert(e@ == goal[i as int]);
            assert((before + goal.take(i as int)).push(e@) =~= before + goal.take(i + 1));
        }
        events.push(e);
        i = i + 1;
    }
    proof {
        assert(goal.take(goal.len() as int) =~= goal);
    }
}

impl SseReader {
    /// A reader at the beginning of a reply.
    pub fn new() -> (r: SseReader)
        ensures
            r@ == (SseView {
                buffer: Seq::empty(),
                usage: None,
                finish_reason: None,
                parser: think_tag::ThinkTagParserView { active: None, scratch: Seq::empty() },
                done: false,
            }),
    {
        SseReader {
            buffer: String::new(),
            usage: None,
            finish_reason: None,
            parser: ThinkTagParser::new(),
            done: false,
        }
    }

    /// Whether the reply has ended.
    pub fn is_done(&self) -> (r: bool)
        ensures
            r == self@.done,
    {
        self.done
    }

    /// Takes what a line gave, see `after_line`.
    pub fn on_line(
        &mut self,
        outcome: (Vec<StreamEvent>, Option<UsageInfo>, Option<String>),
    ) -> (r: Vec<StreamEvent>)
        ensures
            types::event_views(r@) == after_line(old(self)@, sse::line_view(outcome)).0,
            final(self)@ == after_line(old(self)@, sse::line_view(outcome)).1,
    {
        let (events, usage, finish_reason) = outcome;
        if usage.is_some() {
            self.usage = usage;
        }
        if finish_reason.is_some() {
            self.finish_reason = finish_reason;
        }
        let ghost start: SseView = old(self)@;
        let ghost all: Seq<types::StreamEventView> = types::event_views(events@);
        let mut rest: Vec<StreamEvent> = events;
        let mut queue: Vec<StreamEvent> = crate::list::take_reversed(&mut rest);
        let mut out: Vec<StreamEvent> = Vec::new();
        proof {
            assert(types::event_views(out@) =~= Seq::empty());
        }
        while queue.len() > 0
            invariant
                queue@.len() <= all.len(),
                all == types::event_views(events@),
                queue@ == events@.skip(all.len() - queue@.len()).reverse(),
                types::event_views(out@) == split_events(
                    start.parser,
                    all,
                    all.len() - queue@.len(),
                ).0,
                self.parser@ == split_events(start.parser, all, all.len() - queue@.len()).1,
                self@ == (SseView {
                    parser: self.parser@,
                    ..after_line(start, sse::line_view(outcome)).1
                }),
            decreases queue@.len(),
        {
            let ghost n: int = all.len() - queue@.len();
            proof {
                assert(queue@.last() == events@[n]);
            }
            if let Some(e) = queue.pop() {
                proof {
                    assert(e@ == all[n]);
                    assert(queue@ =~= events@.skip(n + 1).reverse());
                }
                match e {
                    StreamEvent::Content(s) => {
                        let pieces: Vec<ThinkPiece> = self.parser.feed(s.as_str());
                        push_pieces(&mut out, pieces);
                    },
                    other => {
                        proof {
                            types::lemma_event_push(out@, other);
                        }
                        out.push(other);
                    },
                }
            }
        }
        out
    }

    /// The event at the end of the reply.
    fn finished_event(&self) -> (r: StreamEvent)
        ensures
            r@ == finished(self@),
    {
        StreamEvent::Finished(
            ChatResponse {
                content: String::new(),
                reasoning_content: None,
                tool_calls: None,
                usage: self.usage,
                finish_reason: message::clone_opt(&self.finish_reason),
            },
        )
    }

    /// Ends the reply: gives what the tag parser held back, and the end.
    fn end_reply(&mut self) -> (r: Vec<StreamEvent>)
        ensures
            types::event_views(r@) == last_events(old(self)@),
            final(self)@ == ended(old(self)@),
    {
        let mut out: Vec<StreamEvent> = Vec::new();
        proof {
            assert(types::event_views(out@) =~= Seq::empty());
        }
        let pieces: Vec<ThinkPiece> = self.parser.flush();
        let ghost ps: Seq<(bool, Seq<char>)> = think_tag::piece_views(pieces@);
        push_pieces(&mut out, pieces);
        proof {
            assert(types::event_views(out@) =~= piece_events(ps));
        }
        let e: StreamEvent = self.finished_event();
        proof {
            types::lemma_event_push(out@, e);
        }
        out.push(e);
        self.done = true;
        proof {
            assert(self.parser@.scratch =~= Seq::empty());
        }
        out
    }

    /// Takes the next text of the stream, and gives the events of the lines
    /// that it completes. After the end of the reply nothing is read.
    pub fn on_text(&mut self, chunk: &str) -> (r: Vec<StreamEvent>)
        ensures
            old(self)@.done ==> r@.len() == 0 && final(self)@ == old(self)@,
            !old(self)@.done ==> may_read(
                (SseView { buffer: old(self)@.buffer + chunk@, ..old(self)@ }),
                types::event_views(r@),
                final(self)@,
            ),
    {
        let mut out: Vec<StreamEvent> = Vec::new();
        if self.done {
            return out;
        }
        self.buffer.append(chunk);
        let ghost start: SseView = self@;
        let newline: Vec<char> = text::chars_of("\n");
        proof {
            reveal_strlit("\n");
            assert forall|tail: Seq<types::StreamEventView>, end: SseView|
                #[trigger] may_read(self@, tail, end) implies may_read(
                start,
                types::event_views(out@) + tail,
                end,
            ) by {
                assert(types::event_views(out@) + tail =~= tail);
            }
        }
        loop
            invariant
                newline@ == "\n"@,
                newline@.len() == 1,
                start == (SseView { buffer: old(self)@.buffer + chunk@, ..old(self)@ }),
                !old(self)@.done,
                !self@.done,
                forall|tail: Seq<types::StreamEventView>, end: SseView|
                    #[trigger] may_read(self@, tail, end) ==> may_read(
                        start,
                        types::event_views(out@) + tail,
                        end,
                    ),
            decreases self@.buffer.len(),
        {
            let ghost st: SseView = self@;
            let ghost so_far: Seq<types::StreamEventView> = types::event_views(out@);
            let v: Vec<char> = text::chars_of(self.buffer.as_str());
            let n: usize = v.len();
            proof {
                text::lemma_first_index_from(v@, "\n"@, 0);
            }
            match text::find_from(&v, &newline, 0) {
                None => {
                    proof {
                        assert(may_read(self@, Seq::empty(), self@));
                        assert(so_far + Seq::<types::StreamEventView>::empty() =~= so_far);
                    }
                    return out;
                },
                Some(i) => {
                    let line: String = text::string_of(&v, 0, i);
                    self.buffer = text::string_of(&v, i + 1, n);
                    let ghost rest: SseView = self@;
                    proof {
                        assert(line@ =~= st.buffer.take(i as int));
                        assert(self.buffer@ =~= st.buffer.skip(i + 1));
                        assert(rest == (SseView { buffer: st.buffer.skip(i + 1), ..st }));
                    }
                    let trimmed: String = text::trim(line.as_str());
                    if text::same_text(trimmed.as_str(), "data: [DONE]") {
                        let mut last: Vec<StreamEvent> = self.end_reply();
                        let ghost here: Seq<StreamEvent> = out@;
                        let ghost extra: Seq<StreamEvent> = last@;
                        proof {
                            assert(last_events(rest) == last_events(st));
                            assert(may_read(st, last_events(st), self@));
                            assert(types::event_views(here + extra) =~= so_far + last_events(st));
                        }
                        out.append(&mut last);
                        return out;
                    }
                    match sse::try_parse_sse_line(line.as_str()) {
                        None => {
                            self.done = true;
                            let e: StreamEvent = StreamEvent::Error(
                                StreamError::Transport(UNREADABLE_LINE.to_string()),
                            );
                            proof {
                                let broken = types::StreamEventView::Transport(UNREADABLE_LINE@);
                                assert(e@ == broken);
                                assert(may_read(st, seq![broken], self@));
                                types::lemma_event_push(out@, e);
                                assert(so_far.push(e@) =~= so_far + seq![broken]);
                            }
                            out.push(e);
                            return out;
                        },
                        Some(outcome) => {
                            let ghost lv: sse::LineView = sse::line_view(outcome);
                            let mut more: Vec<StreamEvent> = self.on_line(outcome);
                            let ghost added: Seq<types::StreamEventView> = types::event_views(
                                more@,
                            );
                            let ghost here: Seq<StreamEvent> = out@;
                            let ghost extra: Seq<StreamEvent> = more@;
                            out.append(&mut more);
                            proof {
                                assert(types::event_views(here + extra) =~= so_far + added);
                                assert forall|tail: Seq<types::StreamEventView>, end: SseView|
                                    #[trigger] may_read(self@, tail, end) implies may_read(
                                    start,
                                    types::event_views(out@) + tail,
                                    end,
                                ) by {
                                    assert(sse::is_line_outcome(line@, lv));
                                    assert(may_read(after_line(rest, lv).1, tail, end));
                                    assert(text::first_index(st.buffer, "\n"@) == Some(i as int));
                                    assert(readable(line@));
                                    assert(added == after_line(rest, lv).0);
                                    assert(may_read(st, added + tail, end)) by {
                                        assert(line@ == st.buffer.take(i as int));
                                        assert(rest.buffer == st.buffer.skip(i + 1));
                                    }
                                    assert(so_far + (added + tail) =~= (so_far + added) + tail);
                                }
                            }
                        },
                    }
                },
            }
        }
    }

    /// Takes the next bytes of the stream, see `on_text`.
    pub fn on_bytes(&mut self, bytes: &[u8]) -> (r: Vec<StreamEvent>)
        ensures
            old(self)@.done ==> r@.len() == 0 && final(self)@ == old(self)@,
            !old(self)@.done ==> may_read(
                (SseView { buffer: old(self)@.buffer + bytes::lossy_text(bytes@), ..old(self)@ }),
                types::event_views(r@),
                final(self)@,
            ),
    {
        let s: String = bytes::text_lossy(bytes);
        self.on_text(s.as_str())
    }

    /// The events at the end of a stream that did not say that the reply is
    /// done: what the tag parser held back, and the end of the reply.
    pub fn on_end(&mut self) -> (r: Vec<StreamEvent>)
        ensures
            old(self)@.done ==> r@.len() == 0 && final(self)@ == old(self)@,
            !old(self)@.done ==> types::event_views(r@) == last_events(old(self)@)
                && final(self)@ == ended(old(self)@),
    {
        if self.done {
            return Vec::new();
        }
        self.end_reply()
    }

    /// The event of a failed connection. It ends the reply.
    pub fn on_transport_error(&mut self, error: &str) -> (r: Vec<StreamEvent>)
        ensures
            old(self)@.done ==> r@.len() == 0 && final(self)@ == old(self)@,
            !old(self)@.done ==> types::event_views(r@) == seq![
                types::StreamEventView::Transport("Stream error: "@ + error@),
            ] && final(self)@ == (SseView { done: true, ..old(self)@ }),
    {
        let mut out: Vec<StreamEvent> = Vec::new();
        if !self.done {
            let mut message: String = "Stream error: ".to_string();
            message.append(error);
            out.push(StreamEvent::Error(StreamError::Transport(message)));
            self.done = true;
            proof {
                assert(types::event_views(out@) =~= seq![
                    types::StreamEventView::Transport("Stream error: "@ + error@),
                ]);
            }
        }
        out
    }

    /// The event of a stream that was silent for `seconds`. It ends the reply.
    pub fn on_silence(&mut self, seconds: u64) -> (r: Vec<StreamEvent>)
        ensures
            old(self)@.done ==> r@.len() == 0 && final(self)@ == old(self)@,
            !old(self)@.done ==> types::event_views(r@) == seq![
                types::StreamEventView::Silence(seconds),
            ] && final(self)@ == (SseView { done: true, ..old(self)@ }),
    {
        let mut out: Vec<StreamEvent> = Vec::new();
        if !self.done {
            out.push(StreamEvent::Error(StreamError::Silence(seconds)));
            self.done = true;
            proof {
                assert(types::event_views(out@) =~= seq![types::StreamEventView::Silence(seconds)]);
            }
        }
        out
    }
}

} // verus!
