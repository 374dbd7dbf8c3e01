//! The lines that sessions are streaming, by session.

use crate::conversation::since::StreamingLine;
use crate::conversation::since;
use crate::text;
use vstd::prelude::*;

verus! {

/// A session and the line that it is streaming.
#[derive(Debug, PartialEq, Eq)]
struct SessionLine {
    session_id: String,
    line: StreamingLine,
}

/// The lines that are being streamed. A session has at most one.
#[derive(Debug, PartialEq, Eq)]
pub struct StreamingStateMap {
    lines: Vec<SessionLine>,
}

spec fn found(ls: Seq<SessionLine>, id: Seq<char>, from: int) -> Option<since::StreamingView>
    decreases ls.len() - from,
{
    if 0 <= from < ls.len() {
        if ls[from].session_id@ == id {
            Some(ls[from].line@)
        } else {
            found(ls, id, from + 1)
        }
    } else {
        None
    }
}

spec fn distinct(ls: Seq<SessionLine>) -> bool {
    forall|i: int, j: int|
        0 <= i < j < ls.len() ==> (#[trigger] ls[i]).session_id@ != (
        #[trigger] ls[j]).session_id@
}

proof fn lemma_found(ls: Seq<SessionLine>, id: Seq<char>, from: int, at: int)
    requires
        0 <= from <= at <= ls.len(),
        forall|k: int| from <= k < at ==> (#[trigger] ls[k]).session_id@ != id,
        at < ls.len() ==> ls[at].session_id@ == id,
    ensures
        found(ls, id, from) == (if at < ls.len() {
            Some(ls[at].line@)
        } else {
            None
        }),
    decreases at - from,
{
    if from < at {
        lemma_found(ls, id, from + 1, at);
    }
}

/// Where the line of a session stands, or the end.
spec fn place(ls: Seq<SessionLine>, id: Seq<char>, from: int) -> int
    decreases ls.len() - from,
{
    if 0 <= from < ls.len() && ls[from].session_id@ != id {
        place(ls, id, from + 1)
    } else {
        from
    }
}

proof fn lemma_place(ls: Seq<SessionLine>, id: Seq<char>, from: int)
    requires
        0 <= from <= ls.len(),
    ensures
        from <= place(ls, id, from) <= ls.len(),
        forall|k: int| from <= k < place(ls, id, from) ==> (#[trigger] ls[k]).session_id@ != id,
        place(ls, id, from) < ls.len() ==> ls[place(ls, id, from)].session_id@ == id,
        found(ls, id, from) == (if place(ls, id, from) < ls.len() {
            Some(ls[place(ls, id, from)].line@)
        } else {
            None
        }),
    decreases ls.len() - from,
{
    if from < ls.len() && ls[from].session_id@ != id {
        lemma_place(ls, id, from + 1);
    }
}

impl StreamingStateMap {
    #[verifier::type_invariant]
    spec fn wf(&self) -> bool {
        distinct(self.lines@)
    }

    /// The line that the session `id` is streaming.
    pub closed spec fn line_of(self, id: Seq<char>) -> Option<since::StreamingView> {
        found(self.lines@, id, 0)
    }

    /// No session is streaming.
    pub fn new() -> (r: Self)
        ensures
            forall|id: Seq<char>| #[trigger] r.line_of(id) is None,
    {
        StreamingStateMap { lines: Vec::new() }
    }

    fn index_of(&self, id: &str) -> (r: usize)
        ensures
            r == place(self.lines@, id@, 0),
            r <= self.lines@.len(),
    {
        let mut i: usize = 0;
        while i < self.lines.len() && !text::same_text(self.lines[i].session_id.as_str(), id)
            invariant
                i <= self.lines@.len(),
                place(self.lines@, id@, 0) == place(self.lines@, id@, i as int),
            decreases self.lines@.len() - i,
        {
            i = i + 1;
        }
        i
    }

    /// The line that the session `id` is streaming.
    pub fn get(&self, id: &str) -> (r: Option<&StreamingLine>)
        ensures
            match r {
                Some(l) => self.line_of(id@) == Some(l@),
                None => self.line_of(id@) is None,
            },
    {
        proof {
            lemma_place(self.lines@, id@, 0);
        }
        let i: usize = self.index_of(id);
        if i < self.lines.len() {
            Some(&self.lines[i].line)
        } else {
            None
        }
    }

    /// Takes the line of the session `id` out.
    pub fn remove(&mut self, id: &str) -> (r: Option<StreamingLine>)
        ensures
            match r {
                Some(l) => old(self).line_of(id@) == Some(l@),
                None => old(self).line_of(id@) is None,
            },
            forall|other: Seq<char>| #[trigger]
                final(self).line_of(other) == (if other == id@ {
                    None
                } else {
                    old(self).line_of(other)
                }),
    {
        let ghost ls: Seq<SessionLine> = self.lines@;
        proof {
            use_type_invariant(&*self);
            lemma_place(ls, id@, 0);
        }
        let i: usize = self.index_of(id);
        if i >= self.lines.len() {
            return None;
        }
        let mut lines: Vec<SessionLine> = Vec::new();
        std::mem::swap(&mut lines, &mut self.lines);
        let taken: SessionLine = lines.remove(i);
        proof {
            let after = lines@;
            assert(after =~= ls.remove(i as int));
            assert forall|a: int, b: int| 0 <= a < b < after.len() implies (
            #[trigger] after[a]).session_id@ != (#[trigger] after[b]).session_id@ by {
                let x = if a < i {
                    a
                } else {
                    a + 1
                };
                let y = if b < i {
                    b
                } else {
                    b + 1
                };
                assert(after[a] == ls[x] && after[b] == ls[y]);
            }
            assert forall|other: Seq<char>| #[trigger] found(after, other, 0) == (if other == id@ {
                None
            } else {
                found(ls, other, 0)
            }) by {
                lemma_place(ls, other, 0);
                let p = place(ls, other, 0);
                if other == id@ {
                    assert forall|k: int| 0 <= k < after.len() implies (
                    #[trigger] after[k]).session_id@ != id@ by {
                        if k < i {
                            assert(after[k] == ls[k]);
                        } else {
                            assert(after[k] == ls[k + 1]);
                        }
                    }
                    lemma_found(after, other, 0, after.len() as int);
                } else {
                    let q = if p <= i {
                        p
                    } else {
                        p - 1
                    };
                    assert forall|k: int| 0 <= k < q implies (#[trigger] after[k]).session_id@
                        != other by {
                        if k < i {
                            assert(after[k] == ls[k]);
                        } else {
                            assert(after[k] == ls[k + 1]);
                        }
                    }
                    if p < ls.len() {
                        assert(p != i);
                        assert(after[q] == ls[p]);
                    }
                    lemma_found(after, other, 0, q);
                }
            }
        }
        std::mem::swap(&mut lines, &mut self.lines);
        Some(taken.line)
    }

    /// Sets the line of the session `id`.
    pub fn insert(&mut self, id: &str, line: StreamingLine)
        ensures
            forall|other: Seq<char>| #[trigger]
                final(self).line_of(other) == (if other == id@ {
                    Some(line@)
                } else {
                    old(self).line_of(other)
                }),
    {
        self.remove(id);
        let ghost mid: StreamingStateMap = *self;
        let ghost ls: Seq<SessionLine> = self.lines@;
        proof {
            use_type_invariant(&*self);
            assert(self.line_of(id@) is None);
            lemma_place(ls, id@, 0);
        }
        let mut lines: Vec<SessionLine> = Vec::new();
        std::mem::swap(&mut lines, &mut self.lines);
        lines.push(SessionLine { session_id: id.to_string(), line });
        proof {
            let after = lines@;
            assert forall|other: Seq<char>| #[trigger] found(after, other, 0) == (if other == id@ {
                Some(line@)
            } else {
                old(self).line_of(other)
            }) by {
                assert(mid.line_of(other) == found(ls, other, 0));
                lemma_place(ls, other, 0);
                let p = place(ls, other, 0);
                assert forall|k: int| 0 <= k < p implies (#[trigger] after[k]).session_id@
                    != other by {
                    assert(after[k] == ls[k]);
                }
                if p < ls.len() {
                    assert(after[p] == ls[p]);
                    lemma_found(after, other, 0, p);
                } else if other == id@ {
                    lemma_found(after, other, 0, p);
                } else {
                    lemma_found(after, other, 0, after.len() as int);
                }
            }
        }
        std::mem::swap(&mut lines, &mut self.lines);
    }
}

} // verus!
