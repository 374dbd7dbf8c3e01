//! What one session keeps beside its state: its streamed line, its counters and
//! when it last told of new data.

use crate::agent::session_state::SessionStatus;
use crate::agent::session_state;
use crate::agent::streaming::StreamingStateMap;
use crate::conversation::entry::ConversationEntry;
use crate::conversation::entry;
use crate::conversation::session::ConversationSession;
use crate::conversation::since::StreamingLine;
use crate::conversation::since;
use crate::ids::Moment;
use crate::ids;
use crate::json::{Json, JsonMember};
use crate::json;
use crate::text;
use vstd::prelude::*;

verus! {

/// The part of a session that its loop works on.
#[derive(Debug, PartialEq, Eq)]
pub struct SessionCore {
    /// The session's identifier.
    pub session_id: Option<String>,
    /// Whether the session may tell of new data.
    pub notify_enabled: bool,
    /// When the session last told of new data, in milliseconds of Unix time.
    pub last_notify_ts: i64,
    /// How long the session waits before it tells of new data again.
    pub notify_interval_ms: u64,
    /// How many lines the session's file has; 0 where that is not known.
    pub committed_lines: usize,
    /// How many streamed lines were written during the current reply.
    pub streaming_flush_count: u64,
    /// What the session is doing, as the provider sees it.
    pub retry_session_status: SessionStatus,
    /// Where tools work.
    pub current_work_dir: Option<String>,
}

/// What the part of a session holds.
pub struct CoreView {
    pub session_id: Option<Seq<char>>,
    pub notify_enabled: bool,
    pub last_notify_ts: i64,
    pub notify_interval_ms: u64,
    pub committed_lines: usize,
    pub streaming_flush_count: u64,
    pub retry_session_status: session_state::StatusView,
    pub current_work_dir: Option<Seq<char>>,
}

impl View for SessionCore {
    type V = CoreView;

    open spec fn view(&self) -> CoreView {
        CoreView {
            session_id: text::opt_text(self.session_id),
            notify_enabled: self.notify_enabled,
            last_notify_ts: self.last_notify_ts,
            notify_interval_ms: self.notify_interval_ms,
            committed_lines: self.committed_lines,
            streaming_flush_count: self.streaming_flush_count,
            retry_session_status: self.retry_session_status@,
            current_work_dir: text::opt_text(self.current_work_dir),
        }
    }
}

/// News of a session's data.
#[derive(Debug, PartialEq, Eq)]
pub struct NewDataAvailable {
    pub session_id: String,
    /// How many lines the session's file has.
    pub total_lines: usize,
    /// The number of the line that is being streamed, or 0.
    pub streaming_line: usize,
    pub interval_ms: u64,
}

/// The number of lines of a session's file: the one that is known or, where none
/// is, the one that was counted.
pub open spec fn known_lines(committed: usize, counted: usize) -> usize {
    if committed > 0 {
        committed
    } else {
        counted
    }
}

/// What a new streamed line holds.
pub open spec fn new_line(role: Seq<char>, line_number: usize, now: Moment) -> since::StreamingView {
    since::StreamingView {
        line_number,
        role,
        accumulated_content: Seq::empty(),
        started_at: now.text@,
        started_at_ms: now.millis,
    }
}

/// The line that the session streams is of `role`, if it streams one.
pub open spec fn role_fits(c: CoreView, map: StreamingStateMap, role: Seq<char>) -> bool {
    c.session_id matches Some(id) ==> (map.line_of(id) matches Some(l) ==> l.role == role)
}

/// The maps give the same line to every session but `id`.
pub open spec fn same_but(a: StreamingStateMap, b: StreamingStateMap, id: Seq<char>) -> bool {
    forall|other: Seq<char>| other != id ==> #[trigger] a.line_of(other) == b.line_of(other)
}

/// The maps give the same line to every session.
pub open spec fn same_lines(a: StreamingStateMap, b: StreamingStateMap) -> bool {
    forall|other: Seq<char>| #[trigger] a.line_of(other) == b.line_of(other)
}

/// What is written with a thought: when it began and when it ended.
pub open spec fn thought_metadata(start: i64, end: i64) -> json::JsonView {
    json::JsonView::Object(
        seq![("startTime"@, json::signed_view(start)), ("endTime"@, json::signed_view(end))],
    )
}

/// `e` is the entry of a streamed line that ended at `end`.
pub open spec fn is_entry_of(e: entry::EntryView, l: since::StreamingView, end: i64) -> bool {
    &&& ids::uuid_text(e.id)
    &&& ids::utc_stamp(e.ts)
    &&& e == (entry::EntryView {
        id: e.id,
        ts: e.ts,
        role: l.role,
        content: l.accumulated_content,
        metadata: if l.role == "thought"@ {
            Some(thought_metadata(l.started_at_ms, end))
        } else {
            None
        },
        kind: None,
    })
}

fn thought_times(start: i64, end: i64) -> (r: Json)
    ensures
        r@ == thought_metadata(start, end),
{
    let mut m: Vec<JsonMember> = json::no_members();
    json::add_member(&mut m, "startTime", json::signed_value(start));
    json::add_member(&mut m, "endTime", json::signed_value(end));
    let r: Json = json::object_value(m);
    proof {
        assert(r@->Object_0 =~= thought_metadata(start, end)->Object_0);
    }
    r
}

impl SessionCore {
    /// A session that may not tell of new data yet.
    pub fn new(
        session_id: String,
        committed_lines: usize,
        notify_interval_ms: u64,
        initial_work_dir: Option<String>,
    ) -> (r: Self)
        ensures
            r@ == (CoreView {
                session_id: Some(session_id@),
                notify_enabled: false,
                last_notify_ts: 0,
                notify_interval_ms,
                committed_lines,
                streaming_flush_count: 0,
                retry_session_status: session_state::StatusView::Streaming(None),
                current_work_dir: text::opt_text(initial_work_dir),
            }),
    {
        SessionCore {
            session_id: Some(session_id),
            notify_enabled: false,
            last_notify_ts: 0,
            notify_interval_ms,
            committed_lines,
            streaming_flush_count: 0,
            retry_session_status: SessionStatus::Streaming { message_id: None },
            current_work_dir: initial_work_dir,
        }
    }

    /// The number of lines of the session's file, of which `counted` were
    /// counted.
    pub fn get_committed_lines(&mut self, counted: usize) -> (r: usize)
        ensures
            r == known_lines(old(self)@.committed_lines, counted),
            final(self)@ == (CoreView { committed_lines: r, ..old(self)@ }),
    {
        if self.committed_lines == 0 {
            self.committed_lines = counted;
        }
        self.committed_lines
    }

    /// Whether a line of `role` can be streamed on without a flush.
    pub fn role_fits(&self, map: &StreamingStateMap, role: &str) -> (r: bool)
        ensures
            r == role_fits(self@, *map, role@),
    {
        match &self.session_id {
            Some(id) => match map.get(id.as_str()) {
                Some(l) => text::same_text(l.role.as_str(), role),
                None => true,
            },
            None => true,
        }
    }

    /// Begins a streamed line of `role`, unless there is one.
    pub fn ensure_streaming_line(
        &mut self,
        map: &mut StreamingStateMap,
        role: &str,
        counted: usize,
        now: &Moment,
    )
        requires
            role_fits(old(self)@, *old(map), role@),
        ensures
            match old(self)@.session_id {
                Some(id) => if old(map).line_of(id) is Some {
                    final(self)@ == old(self)@ && same_lines(*final(map), *old(map))
                } else {
                    let n = known_lines(old(self)@.committed_lines, counted);
                    &&& final(self)@ == (CoreView { committed_lines: n, ..old(self)@ })
                    &&& final(map).line_of(id) == Some(new_line(role@, n, *now))
                    &&& same_but(*final(map), *old(map), id)
                },
                None => final(self)@ == old(self)@ && same_lines(*final(map), *old(map)),
            },
    {
        let id: String = match &self.session_id {
            Some(id) => id.clone(),
            None => {
                return;
            },
        };
        if map.get(id.as_str()).is_some() {
            return;
        }
        let line_number: usize = self.get_committed_lines(counted);
        let line: StreamingLine = StreamingLine {
            line_number,
            role: role.to_string(),
            accumulated_content: String::new(),
            started_at: now.text.clone(),
            started_at_ms: now.millis,
        };
        proof {
            assert(line@.accumulated_content =~= Seq::empty());
        }
        map.insert(id.as_str(), line);
    }

    /// Adds `delta` to the streamed line of `role`.
    pub fn append_streaming_delta(
        &mut self,
        map: &mut StreamingStateMap,
        role: &str,
        delta: &str,
        counted: usize,
        now: &Moment,
    )
        requires
            role_fits(old(self)@, *old(map), role@),
        ensures
            match old(self)@.session_id {
                Some(id) => {
                    let n = known_lines(old(self)@.committed_lines, counted);
                    let l = match old(map).line_of(id) {
                        Some(l) => l,
                        None => new_line(role@, n, *now),
                    };
                    &&& final(self)@ == (if old(map).line_of(id) is Some {
                        old(self)@
                    } else {
                        CoreView { committed_lines: n, ..old(self)@ }
                    })
                    &&& final(map).line_of(id) == Some(
                        since::StreamingView {
                            accumulated_content: l.accumulated_content + delta@,
                            ..l
                        },
                    )
                    &&& same_but(*final(map), *old(map), id)
                },
                None => final(self)@ == old(self)@ && same_lines(*final(map), *old(map)),
            },
    {
        self.ensure_streaming_line(map, role, counted, now);
        let id: String = match &self.session_id {
            Some(id) => id.clone(),
            None => {
                return;
            },
        };
        if let Some(mut line) = map.remove(id.as_str()) {
            line.accumulated_content.append(delta);
            map.insert(id.as_str(), line);
        }
    }

    /// Takes the streamed line out, and gives what it holds and, unless that is
    /// empty or the session has no file, the entry to write.
    pub fn flush_streaming_line(
        &mut self,
        map: &mut StreamingStateMap,
        conversation: Option<&ConversationSession>,
        now: &Moment,
    ) -> (r: (Option<String>, Option<ConversationEntry>))
        ensures
            match old(self)@.session_id {
                Some(id) => match old(map).line_of(id) {
                    Some(l) => {
                        let writes = conversation is Some && l.accumulated_content.len() > 0;
                        &&& text::opt_text(r.0) == Some(l.accumulated_content)
                        &&& if writes {
                            r.1 matches Some(e) && is_entry_of(e@, l, now.millis)
                        } else {
                            r.1 is None
                        }
                        &&& final(self)@ == (CoreView {
                            streaming_flush_count: if writes {
                                wrapped_next(old(self)@.streaming_flush_count)
                            } else {
                                old(self)@.streaming_flush_count
                            },
                            ..old(self)@
                        })
                        &&& final(map).line_of(id) is None
                        &&& same_but(*final(map), *old(map), id)
                    },
                    None => r.0 is None && r.1 is None && final(self)@ == old(self)@ && same_lines(
                        *final(map),
                        *old(map),
                    ),
                },
                None => r.0 is None && r.1 is None && final(self)@ == old(self)@ && same_lines(
                    *final(map),
                    *old(map),
                ),
            },
    {
        let id: String = match &self.session_id {
            Some(id) => id.clone(),
            None => {
                return (None, None);
            },
        };
        match map.remove(id.as_str()) {
            Some(line) => {
                let entry: Option<ConversationEntry> = if line.accumulated_content.as_str().is_empty() {
                    None
                } else {
                    match conversation {
                        Some(c) => {
                            let metadata: Option<Json> = if text::same_text(
                                line.role.as_str(),
                                "thought",
                            ) {
                                Some(thought_times(line.started_at_ms, now.millis))
                            } else {
                                None
                            };
                            self.streaming_flush_count = if self.streaming_flush_count == u64::MAX {
                                0
                            } else {
                                self.streaming_flush_count + 1
                            };
                            Some(
                                c.append_message(
                                    line.role.as_str(),
                                    line.accumulated_content.as_str(),
                                    metadata,
                                ),
                            )
                        },
                        None => None,
                    }
                };
                (Some(line.accumulated_content), entry)
            },
            None => (None, None),
        }
    }

    /// Drops the streamed line.
    pub fn remove_streaming_line(&self, map: &mut StreamingStateMap)
        ensures
            match self@.session_id {
                Some(id) => final(map).line_of(id) is None && same_but(
                    *final(map),
                    *old(map),
                    id,
                ),
                None => same_lines(*final(map), *old(map)),
            },
    {
        if let Some(id) = &self.session_id {
            map.remove(id.as_str());
        }
    }

    /// Goes on with a streamed line of `role`. One of another role is ended: what
    /// it holds is given as an entry to write, unless that is empty or the session
    /// has no file.
    pub fn flush_and_new_streaming_line(
        &mut self,
        map: &mut StreamingStateMap,
        new_role: &str,
        conversation: Option<&ConversationSession>,
        counted: usize,
        now: &Moment,
    ) -> (r: Option<ConversationEntry>)
        ensures
            match old(self)@.session_id {
                Some(id) => {
                    let n = known_lines(old(self)@.committed_lines, counted);
                    let kept = old(map).line_of(id) matches Some(l) && l.role == new_role@;
                    let writes = !kept && conversation is Some && (old(map).line_of(
                        id,
                    ) matches Some(l) && l.accumulated_content.len() > 0);
                    &&& if writes {
                        r matches Some(e) && is_entry_of(e@, old(map).line_of(id)->0, now.millis)
                    } else {
                        r is None
                    }
                    &&& final(map).line_of(id) == (if kept {
                        old(map).line_of(id)
                    } else {
                        Some(new_line(new_role@, n, *now))
                    })
                    &&& same_but(*final(map), *old(map), id)
                    &&& final(self)@ == (CoreView {
                        committed_lines: if kept {
                            old(self)@.committed_lines
                        } else {
                            n
                        },
                        streaming_flush_count: if writes {
                            wrapped_next(old(self)@.streaming_flush_count)
                        } else {
                            old(self)@.streaming_flush_count
                        },
                        ..old(self)@
                    })
                },
                None => r is None && final(self)@ == old(self)@ && same_lines(
                    *final(map),
                    *old(map),
                ),
            },
    {
        let fits: bool = self.role_fits(&*map, new_role);
        let entry: Option<ConversationEntry> = if fits {
            None
        } else {
            self.flush_streaming_line(map, conversation, now).1
        };
        self.ensure_streaming_line(map, new_role, counted, now);
        entry
    }

    /// Starts the count of the lines that are written during a reply.
    pub fn reset_streaming_flush_count(&mut self)
        ensures
            final(self)@ == (CoreView { streaming_flush_count: 0, ..old(self)@ }),
    {
        self.streaming_flush_count = 0;
    }

    /// Tells of new data at the time `now`, where the session may and has not
    /// done so for its interval.
    pub fn notify_new_data_available(
        &mut self,
        map: &StreamingStateMap,
        counted: usize,
        now: i64,
    ) -> (r: Option<NewDataAvailable>)
        ensures
            if !may_notify(old(self)@, now) {
                r is None && final(self)@ == old(self)@
            } else {
                match old(self)@.session_id {
                    Some(id) => {
                        let n = known_lines(old(self)@.committed_lines, counted);
                        &&& final(self)@ == (CoreView {
                            last_notify_ts: now,
                            committed_lines: n,
                            ..old(self)@
                        })
                        &&& r matches Some(d) && d.session_id@ == id && d.total_lines == n
                            && d.streaming_line == (match map.line_of(id) {
                            Some(l) => l.line_number,
                            None => 0,
                        }) && d.interval_ms == old(self)@.notify_interval_ms
                    },
                    None => r is None && final(self)@ == (CoreView {
                        last_notify_ts: now,
                        ..old(self)@
                    }),
                }
            },
    {
        if !self.notify_enabled {
            return None;
        }
        if (now as i128) - (self.last_notify_ts as i128) < self.notify_interval_ms as i128 {
            return None;
        }
        self.last_notify_ts = now;
        let session_id: String = match &self.session_id {
            Some(id) => id.clone(),
            None => {
                return None;
            },
        };
        let total_lines: usize = self.get_committed_lines(counted);
        let streaming_line: usize = match map.get(session_id.as_str()) {
            Some(l) => l.line_number,
            None => 0,
        };
        Some(
            NewDataAvailable {
                session_id,
                total_lines,
                streaming_line,
                interval_ms: self.notify_interval_ms,
            },
        )
    }
}

/// The session may tell of new data, and its interval has passed.
pub open spec fn may_notify(c: CoreView, now: i64) -> bool {
    c.notify_enabled && now - c.last_notify_ts >= c.notify_interval_ms
}

/// The number behind `n`, or 0 behind the largest.
pub open spec fn wrapped_next(n: u64) -> u64 {
    if n == u64::MAX {
        0
    } else {
        (n + 1) as u64
    }
}

} // verus!
