//! The state of one session.

use crate::agent::history::HistoryManager;
use crate::agent::history;
use crate::conversation::metadata::clone_number;
use crate::conversation::metadata;
use crate::conversation::session::ConversationSession;
use crate::conversation::session;
use crate::json::{Json, JsonMember, JsonNumber};
use crate::json;
use crate::list;
use crate::providers::types::ReasoningEffort;
use crate::text;
use vstd::prelude::*;

verus! {

/// How far a task of a todo list has come.
#[derive(Clone, Copy, Debug, PartialEq, Eq, Structural)]
pub enum TodoStatus {
    Pending,
    InProgress,
    Completed,
}

/// A task of the todo list of a session.
#[derive(Debug, PartialEq, Eq)]
pub struct TodoItem {
    pub id: String,
    pub content: String,
    pub status: TodoStatus,
}

/// What a task holds.
pub struct TodoView {
    pub id: Seq<char>,
    pub content: Seq<char>,
    pub status: TodoStatus,
}

impl View for TodoItem {
    type V = TodoView;

    open spec fn view(&self) -> TodoView {
        TodoView { id: self.id@, content: self.content@, status: self.status }
    }
}

pub open spec fn todo_views(ts: Seq<TodoItem>) -> Seq<TodoView> {
    ts.map_values(|t: TodoItem| t@)
}

impl Clone for TodoItem {
    fn clone(&self) -> (r: Self)
        ensures
            r == *self,
    {
        TodoItem { id: self.id.clone(), content: self.content.clone(), status: self.status }
    }
}

/// A pause before a request is made again.
#[derive(Debug, PartialEq, Eq)]
pub struct RetryPauseInfo {
    pub wait_ms: u64,
    /// Counted from one.
    pub attempt: u32,
    pub max_attempts: u32,
    pub provider: String,
}

/// What a session is doing.
#[derive(Debug, PartialEq, Eq)]
pub enum SessionStatus {
    Idle,
    /// A reply is being written.
    Streaming { message_id: Option<String> },
    /// A tool waits for the approval of the user.
    WaitingApproval { request_id: String },
    /// The session waits for the user, or to make a request again.
    Paused {
        iteration: Option<u32>,
        max_iterations: Option<u32>,
        retry_info: Option<RetryPauseInfo>,
    },
}

/// What a status holds.
pub enum StatusView {
    Idle,
    Streaming(Option<Seq<char>>),
    WaitingApproval(Seq<char>),
    Paused(Option<u32>, Option<u32>, Option<(u64, u32, u32, Seq<char>)>),
}

impl View for SessionStatus {
    type V = StatusView;

    open spec fn view(&self) -> StatusView {
        match *self {
            SessionStatus::Idle => StatusView::Idle,
            SessionStatus::Streaming { message_id } => StatusView::Streaming(
                text::opt_text(message_id),
            ),
            SessionStatus::WaitingApproval { request_id } => StatusView::WaitingApproval(
                request_id@,
            ),
            SessionStatus::Paused { iteration, max_iterations, retry_info } => StatusView::Paused(
                iteration,
                max_iterations,
                match retry_info {
                    Some(i) => Some((i.wait_ms, i.attempt, i.max_attempts, i.provider@)),
                    None => None,
                },
            ),
        }
    }
}

impl Default for SessionStatus {
    fn default() -> (r: Self)
        ensures
            r@ == StatusView::Idle,
    {
        SessionStatus::Idle
    }
}

fn same_opt(a: &Option<String>, b: &Option<String>) -> (r: bool)
    ensures
        r == (text::opt_text(*a) == text::opt_text(*b)),
{
    match (a, b) {
        (Some(x), Some(y)) => text::same_text(x.as_str(), y.as_str()),
        (None, None) => true,
        _ => false,
    }
}

fn same_number(a: &Option<u32>, b: &Option<u32>) -> (r: bool)
    ensures
        r == (*a == *b),
{
    match (a, b) {
        (Some(x), Some(y)) => *x == *y,
        (None, None) => true,
        _ => false,
    }
}

impl SessionStatus {
    /// Whether the session is at work: it writes a reply or waits for approval.
    pub fn is_active(&self) -> (r: bool)
        ensures
            r == (self@ is Streaming || self@ is WaitingApproval),
    {
        match self {
            SessionStatus::Streaming { .. } => true,
            SessionStatus::WaitingApproval { .. } => true,
            _ => false,
        }
    }

    /// Whether two statuses are the same.
    pub fn same(&self, other: &SessionStatus) -> (r: bool)
        ensures
            r == (self@ == other@),
    {
        match (self, other) {
            (SessionStatus::Idle, SessionStatus::Idle) => true,
            (
                SessionStatus::Streaming { message_id: a },
                SessionStatus::Streaming { message_id: b },
            ) => same_opt(a, b),
            (
                SessionStatus::WaitingApproval { request_id: a },
                SessionStatus::WaitingApproval { request_id: b },
            ) => text::same_text(a.as_str(), b.as_str()),
            (
                SessionStatus::Paused { iteration: i, max_iterations: m, retry_info: a },
                SessionStatus::Paused { iteration: j, max_iterations: n, retry_info: b },
            ) => {
                let info: bool = match (a, b) {
                    (Some(x), Some(y)) => x.wait_ms == y.wait_ms && x.attempt == y.attempt
                        && x.max_attempts == y.max_attempts && text::same_text(
                        x.provider.as_str(),
                        y.provider.as_str(),
                    ),
                    (None, None) => true,
                    _ => false,
                };
                same_number(i, j) && same_number(m, n) && info
            },
            _ => false,
        }
    }
}

/// An integer, or null.
pub open spec fn opt_integer_json(o: Option<u32>) -> json::JsonView {
    match o {
        Some(n) => json::integer_view(n as u64),
        None => json::JsonView::Null,
    }
}

/// A status as a JSON object: its name, and what belongs to it.
pub open spec fn status_json(s: StatusView) -> json::JsonView {
    let detail = match s {
        StatusView::Idle => None,
        StatusView::Streaming(id) => Some(
            seq![
                (
                    "message_id"@,
                    match id {
                        Some(t) => json::JsonView::Text(t),
                        None => json::JsonView::Null,
                    },
                ),
            ],
        ),
        StatusView::WaitingApproval(id) => Some(seq![("request_id"@, json::JsonView::Text(id))]),
        StatusView::Paused(i, m, info) => Some(
            json::with_opt(
                seq![
                    ("iteration"@, opt_integer_json(i)),
                    ("max_iterations"@, opt_integer_json(m)),
                ],
                "retry_info"@,
                match info {
                    Some(x) => Some(retry_json(x)),
                    None => None,
                },
            ),
        ),
    };
    json::JsonView::Object(
        json::with_opt(
            seq![("status"@, json::JsonView::Text(status_name(s)))],
            "detail"@,
            match detail {
                Some(d) => Some(json::JsonView::Object(d)),
                None => None,
            },
        ),
    )
}

/// The name of a status.
pub open spec fn status_name(s: StatusView) -> Seq<char> {
    match s {
        StatusView::Idle => "idle"@,
        StatusView::Streaming(_) => "streaming"@,
        StatusView::WaitingApproval(_) => "waiting_approval"@,
        StatusView::Paused(_, _, _) => "paused"@,
    }
}

/// A pause before a request is made again, as a JSON object.
pub open spec fn retry_json(x: (u64, u32, u32, Seq<char>)) -> json::JsonView {
    json::JsonView::Object(
        seq![
            ("wait_ms"@, json::integer_view(x.0)),
            ("attempt"@, json::integer_view(x.1 as u64)),
            ("max_attempts"@, json::integer_view(x.2 as u64)),
            ("provider"@, json::JsonView::Text(x.3)),
        ],
    )
}

fn opt_integer(o: Option<u32>) -> (r: Json)
    ensures
        r@ == opt_integer_json(o),
{
    match o {
        Some(n) => json::integer_value(n as u64),
        None => Json::Null,
    }
}

impl RetryPauseInfo {
    /// The pause as a JSON object.
    pub fn to_json(&self) -> (r: Json)
        ensures
            r@ == retry_json((self.wait_ms, self.attempt, self.max_attempts, self.provider@)),
    {
        let mut m: Vec<JsonMember> = json::no_members();
        json::add_member(&mut m, "wait_ms", json::integer_value(self.wait_ms));
        json::add_member(&mut m, "attempt", json::integer_value(self.attempt as u64));
        json::add_member(&mut m, "max_attempts", json::integer_value(self.max_attempts as u64));
        json::add_member(&mut m, "provider", Json::Text(self.provider.clone()));
        let r: Json = json::object_value(m);
        proof {
            assert(r@->Object_0 =~= retry_json(
                (self.wait_ms, self.attempt, self.max_attempts, self.provider@),
            )->Object_0);
        }
        r
    }
}

impl SessionStatus {
    /// The name of the status.
    pub fn name(&self) -> (r: &'static str)
        ensures
            r@ == status_name(self@),
    {
        match self {
            SessionStatus::Idle => "idle",
            SessionStatus::Streaming { .. } => "streaming",
            SessionStatus::WaitingApproval { .. } => "waiting_approval",
            SessionStatus::Paused { .. } => "paused",
        }
    }

    /// The status as a JSON object.
    pub fn to_json(&self) -> (r: Json)
        ensures
            r@ == status_json(self@),
    {
        let mut m: Vec<JsonMember> = json::no_members();
        json::add_member(&mut m, "status", json::text_value(self.name()));
        proof {
            assert(json::member_views(m@) =~= seq![
                ("status"@, json::JsonView::Text(status_name(self@))),
            ]);
        }
        let mut d: Vec<JsonMember> = json::no_members();
        match self {
            SessionStatus::Idle => {},
            SessionStatus::Streaming { message_id } => {
                let id: Json = match message_id {
                    Some(t) => Json::Text(t.clone()),
                    None => Json::Null,
                };
                let ghost v: json::JsonView = id@;
                json::add_member(&mut d, "message_id", id);
                proof {
                    assert(json::member_views(d@) =~= seq![("message_id"@, v)]);
                }
                json::add_member(&mut m, "detail", json::object_value(d));
            },
            SessionStatus::WaitingApproval { request_id } => {
                json::add_member(&mut d, "request_id", Json::Text(request_id.clone()));
                proof {
                    assert(json::member_views(d@) =~= seq![
                        ("request_id"@, json::JsonView::Text(request_id@)),
                    ]);
                }
                json::add_member(&mut m, "detail", json::object_value(d));
            },
            SessionStatus::Paused { iteration, max_iterations, retry_info } => {
                json::add_member(&mut d, "iteration", opt_integer(*iteration));
                json::add_member(&mut d, "max_iterations", opt_integer(*max_iterations));
                proof {
                    assert(json::member_views(d@) =~= seq![
                        ("iteration"@, opt_integer_json(*iteration)),
                        ("max_iterations"@, opt_integer_json(*max_iterations)),
                    ]);
                }
                if let Some(info) = retry_info {
                    json::add_member(&mut d, "retry_info", info.to_json());
                }
                json::add_member(&mut m, "detail", json::object_value(d));
            },
        }
        json::object_value(m)
    }
}

/// The state of one session.
#[derive(Debug, PartialEq, Eq)]
pub struct SessionState {
    history: HistoryManager,
    conversation: Option<ConversationSession>,
    turn_counter: u32,
    status: SessionStatus,
    todos: Vec<TodoItem>,
    is_compacted: bool,
    model: Option<String>,
    provider: Option<String>,
    model_ratio: Option<JsonNumber>,
    reasoning_effort: Option<ReasoningEffort>,
    temperature: Option<JsonNumber>,
    identity_context: Option<String>,
}

/// What the state of a session holds.
pub struct StateView {
    pub history: history::HistoryView,
    pub conversation: Option<session::SessionView>,
    /// How many turns the session has had.
    pub turn_counter: u32,
    pub status: StatusView,
    pub todos: Seq<TodoView>,
    /// Nothing was said since the last compaction.
    pub is_compacted: bool,
    pub model: Option<Seq<char>>,
    pub provider: Option<Seq<char>>,
    /// The model's characters per token, as they are written.
    pub model_ratio: Option<(Option<u64>, Seq<char>)>,
    pub reasoning_effort: Option<ReasoningEffort>,
    pub temperature: Option<(Option<u64>, Seq<char>)>,
    /// What is known of the user.
    pub identity_context: Option<Seq<char>>,
}

/// What an optional session holds.
pub open spec fn opt_session(o: Option<ConversationSession>) -> Option<session::SessionView> {
    match o {
        Some(s) => Some(s@),
        None => None,
    }
}

impl View for SessionState {
    type V = StateView;

    closed spec fn view(&self) -> StateView {
        StateView {
            history: self.history@,
            conversation: opt_session(self.conversation),
            turn_counter: self.turn_counter,
            status: self.status@,
            todos: todo_views(self.todos@),
            is_compacted: self.is_compacted,
            model: text::opt_text(self.model),
            provider: text::opt_text(self.provider),
            model_ratio: metadata::number_view(self.model_ratio),
            reasoning_effort: self.reasoning_effort,
            temperature: metadata::number_view(self.temperature),
            identity_context: text::opt_text(self.identity_context),
        }
    }
}

/// The first index of a task with the identifier `id`, or the end.
pub open spec fn todo_index(ts: Seq<TodoView>, id: Seq<char>, from: int) -> int
    decreases ts.len() - from,
{
    if 0 <= from < ts.len() && ts[from].id != id {
        todo_index(ts, id, from + 1)
    } else {
        from
    }
}

/// The tasks with `t` in place of the one with its identifier or, where there is
/// none, behind the others.
pub open spec fn upserted(ts: Seq<TodoView>, t: TodoView) -> Seq<TodoView> {
    let i = todo_index(ts, t.id, 0);
    if i < ts.len() {
        ts.update(i, t)
    } else {
        ts.push(t)
    }
}

/// The tasks after the first `n` of `items` were put in.
pub open spec fn absorbed(ts: Seq<TodoView>, items: Seq<TodoView>, n: int) -> Seq<TodoView>
    decreases n,
{
    if n <= 0 {
        ts
    } else {
        upserted(absorbed(ts, items, n - 1), items[n - 1])
    }
}

/// One of the tasks has the identifier `id`.
pub open spec fn names_todo(ts: Seq<TodoView>, id: Seq<char>) -> bool {
    exists|i: int| 0 <= i < ts.len() && (#[trigger] ts[i]).id == id
}

/// The tasks `ts` brought to where `items` are: those that are among them by
/// their identifiers are updated, new ones are added behind them, and the others
/// are removed.
pub open spec fn merged_todos(ts: Seq<TodoView>, items: Seq<TodoView>) -> Seq<TodoView> {
    absorbed(ts, items, items.len() as int).filter(|t: TodoView| names_todo(items, t.id))
}

/// The mark of a task.
pub open spec fn todo_mark(s: TodoStatus) -> Seq<char> {
    match s {
        TodoStatus::Pending => " "@,
        TodoStatus::InProgress => "-"@,
        TodoStatus::Completed => "x"@,
    }
}

/// The line of a task.
pub open spec fn todo_line(t: TodoView) -> Seq<char> {
    "- ["@ + todo_mark(t.status) + "] "@ + t.content + " ("@ + t.id + ")"@
}

/// The lines of tasks.
pub open spec fn todo_lines(ts: Seq<TodoView>) -> Seq<Seq<char>> {
    ts.map_values(|t: TodoView| todo_line(t))
}

fn line_of(t: &TodoItem) -> (r: String)
    ensures
        r@ == todo_line(t@),
{
    let mut r: String = "- [".to_string();
    r.append(
        match t.status {
            TodoStatus::Pending => " ",
            TodoStatus::InProgress => "-",
            TodoStatus::Completed => "x",
        },
    );
    r.append("] ");
    r.append(t.content.as_str());
    r.append(" (");
    r.append(t.id.as_str());
    r.append(")");
    r
}

fn find_todo(ts: &Vec<TodoItem>, id: &str) -> (r: usize)
    ensures
        r == todo_index(todo_views(ts@), id@, 0),
        r <= ts@.len(),
{
    let mut i: usize = 0;
    while i < ts.len() && !text::same_text(ts[i].id.as_str(), id)
        invariant
            i <= ts@.len(),
            todo_index(todo_views(ts@), id@, 0) == todo_index(todo_views(ts@), id@, i as int),
        decreases ts@.len() - i,
    {
        i = i + 1;
    }
    i
}

proof fn lemma_todo_index(ts: Seq<TodoView>, id: Seq<char>, from: int)
    requires
        0 <= from <= ts.len(),
        forall|k: int| 0 <= k < from ==> (#[trigger] ts[k]).id != id,
    ensures
        from <= todo_index(ts, id, from) <= ts.len(),
        (todo_index(ts, id, from) < ts.len()) == names_todo(ts, id),
    decreases ts.len() - from,
{
    if from < ts.len() && ts[from].id != id {
        lemma_todo_index(ts, id, from + 1);
    }
}

proof fn lemma_upserted(ts: Seq<TodoView>, t: TodoView, id: Seq<char>)
    ensures
        names_todo(upserted(ts, t), id) == (names_todo(ts, id) || t.id == id),
{
    lemma_todo_index(ts, t.id, 0);
    lemma_todo_found(ts, t.id, 0);
    let i = todo_index(ts, t.id, 0);
    let u = upserted(ts, t);
    if names_todo(ts, id) {
        let k = choose|k: int| 0 <= k < ts.len() && (#[trigger] ts[k]).id == id;
        assert(u[k].id == id);
    }
    if t.id == id {
        assert(u[i].id == id);
    }
    if names_todo(u, id) {
        let k = choose|k: int| 0 <= k < u.len() && (#[trigger] u[k]).id == id;
        if k != i {
            assert(u[k] == ts[k]);
        }
    }
}

proof fn lemma_todo_found(ts: Seq<TodoView>, id: Seq<char>, from: int)
    requires
        0 <= from <= ts.len(),
    ensures
        from <= todo_index(ts, id, from) <= ts.len(),
        todo_index(ts, id, from) < ts.len() ==> ts[todo_index(ts, id, from)].id == id,
    decreases ts.len() - from,
{
    if from < ts.len() && ts[from].id != id {
        lemma_todo_found(ts, id, from + 1);
    }
}

proof fn lemma_absorbed(ts: Seq<TodoView>, items: Seq<TodoView>, n: int, k: int)
    requires
        0 <= k < n <= items.len(),
    ensures
        names_todo(absorbed(ts, items, n), items[k].id),
    decreases n,
{
    lemma_upserted(absorbed(ts, items, n - 1), items[n - 1], items[k].id);
    if k < n - 1 {
        lemma_absorbed(ts, items, n - 1, k);
    }
}

/// After a list of tasks was brought to where `items` are, it names the tasks that
/// they name, and no others.
pub proof fn merged_todos_name_the_items(ts: Seq<TodoView>, items: Seq<TodoView>, id: Seq<char>)
    ensures
        names_todo(merged_todos(ts, items), id) == names_todo(items, id),
{
    let p = |t: TodoView| names_todo(items, t.id);
    let all = absorbed(ts, items, items.len() as int);
    let kept = all.filter(p);
    list::lemma_filter_members(all, p);
    if names_todo(kept, id) {
        let k = choose|k: int| 0 <= k < kept.len() && (#[trigger] kept[k]).id == id;
        assert(p(kept[k]));
    }
    if names_todo(items, id) {
        let k = choose|k: int| 0 <= k < items.len() && (#[trigger] items[k]).id == id;
        lemma_absorbed(ts, items, items.len() as int, k);
        let x = choose|x: int| 0 <= x < all.len() && (#[trigger] all[x]).id == id;
        assert(p(all[x]));
        assert(kept.contains(all[x]));
        let y = choose|y: int| 0 <= y < kept.len() && kept[y] == all[x];
        assert(kept[y].id == id);
    }
}

/// Puts a task into a list.
fn put_todo(ts: &mut Vec<TodoItem>, t: &TodoItem)
    ensures
        todo_views(final(ts)@) == upserted(todo_views(old(ts)@), t@),
{
    let ghost before: Seq<TodoView> = todo_views(ts@);
    let i: usize = find_todo(&*ts, t.id.as_str());
    if i < ts.len() {
        ts.set(i, t.clone());
    } else {
        ts.push(t.clone());
    }
    proof {
        assert(todo_views(ts@) =~= upserted(before, t@));
    }
}

/// The tasks of `ts` that are named in `items`.
fn keep_named(ts: Vec<TodoItem>, items: &Vec<TodoItem>) -> (r: Vec<TodoItem>)
    ensures
        todo_views(r@) == todo_views(ts@).filter(
            |t: TodoView| names_todo(todo_views(items@), t.id),
        ),
{
    let ghost all: Seq<TodoView> = todo_views(ts@);
    let ghost p: spec_fn(TodoView) -> bool = |t: TodoView| names_todo(todo_views(items@), t.id);
    let mut r: Vec<TodoItem> = Vec::new();
    let mut i: usize = 0;
    proof {
        reveal(Seq::filter);
        assert(todo_views(r@) =~= all.take(0).filter(p));
    }
    while i < ts.len()
        invariant
            i <= ts@.len(),
            all == todo_views(ts@),
            p == (|t: TodoView| names_todo(todo_views(items@), t.id)),
            todo_views(r@) == all.take(i as int).filter(p),
        decreases ts@.len() - i,
    {
        let ghost before: Seq<TodoItem> = r@;
        proof {
            reveal(Seq::filter);
            assert(all.take(i + 1).drop_last() =~= all.take(i as int));
            assert(all.take(i + 1).last() == ts@[i as int]@);
            lemma_todo_index(todo_views(items@), ts@[i as int].id@, 0);
        }
        if find_todo(items, ts[i].id.as_str()) < items.len() {
            r.push(ts[i].clone());
            proof {
                assert(todo_views(r@) =~= todo_views(before).push(ts@[i as int]@));
            }
        }
        i = i + 1;
    }
    proof {
        assert(all.take(i as int) =~= all);
    }
    r
}

impl SessionState {
    /// The state of a new session with the token budget `max_tokens`.
    pub fn new(max_tokens: u64, conversation: Option<ConversationSession>) -> (r: Self)
        ensures
            r@ == (StateView {
                history: history::HistoryView {
                    messages: Seq::empty(),
                    max_tokens,
                    current_tokens: 0,
                    protocol_type: history::ProtocolType::OpenAI,
                    model_name: None,
                },
                conversation: opt_session(conversation),
                turn_counter: 0,
                status: StatusView::Idle,
                todos: Seq::empty(),
                is_compacted: false,
                model: None,
                provider: None,
                model_ratio: None,
                reasoning_effort: None,
                temperature: None,
                identity_context: None,
            }),
    {
        let r: SessionState = SessionState {
            history: HistoryManager::new(max_tokens),
            conversation,
            turn_counter: 0,
            status: SessionStatus::Idle,
            todos: Vec::new(),
            is_compacted: false,
            model: None,
            provider: None,
            model_ratio: None,
            reasoning_effort: None,
            temperature: None,
            identity_context: None,
        };
        proof {
            assert(r@.todos =~= Seq::empty());
        }
        r
    }

    /// The history.
    pub fn history(&self) -> (r: &HistoryManager)
        ensures
            r@ == self@.history,
    {
        &self.history
    }

    /// The history, to be changed.
    pub fn history_mut(&mut self) -> (r: &mut HistoryManager)
        ensures
            r@ == old(self)@.history,
            final(self)@ == (StateView { history: final(r)@, ..old(self)@ }),
    {
        &mut self.history
    }

    /// The session's file, if it has one.
    pub fn conversation(&self) -> (r: Option<&ConversationSession>)
        ensures
            match r {
                Some(c) => self@.conversation == Some(c@),
                None => self@.conversation is None,
            },
    {
        match &self.conversation {
            Some(c) => Some(c),
            None => None,
        }
    }

    /// The session's file, to be changed.
    pub fn conversation_mut(&mut self) -> (r: &mut Option<ConversationSession>)
        ensures
            opt_session(*r) == old(self)@.conversation,
            final(self)@ == (StateView { conversation: opt_session(*final(r)), ..old(self)@ }),
    {
        &mut self.conversation
    }

    /// What the session is doing.
    pub fn status(&self) -> (r: &SessionStatus)
        ensures
            r@ == self@.status,
    {
        &self.status
    }

    /// Sets what the session is doing, and says whether that is something else
    /// than before.
    pub fn set_status(&mut self, new_status: SessionStatus) -> (r: bool)
        ensures
            final(self)@ == (StateView { status: new_status@, ..old(self)@ }),
            r == (old(self)@.status != new_status@),
    {
        if self.status.same(&new_status) {
            return false;
        }
        self.status = new_status;
        true
    }

    /// The tasks.
    pub fn todos(&self) -> (r: &Vec<TodoItem>)
        ensures
            todo_views(r@) == self@.todos,
    {
        &self.todos
    }

    /// Changes the tasks: with `merge` the list is replaced, and otherwise it is
    /// brought to where `items` are by their identifiers.
    pub fn update_todos(&mut self, items: Vec<TodoItem>, merge: bool)
        ensures
            final(self)@ == (StateView {
                todos: if merge {
                    todo_views(items@)
                } else {
                    merged_todos(old(self)@.todos, todo_views(items@))
                },
                ..old(self)@
            }),
    {
        if merge {
            self.todos = items;
            return;
        }
        let ghost start: Seq<TodoView> = todo_views(self.todos@);
        let ghost new: Seq<TodoView> = todo_views(items@);
        let mut ts: Vec<TodoItem> = Vec::new();
        std::mem::swap(&mut ts, &mut self.todos);
        let mut i: usize = 0;
        while i < items.len()
            invariant
                i <= items@.len(),
                new == todo_views(items@),
                todo_views(ts@) == absorbed(start, new, i as int),
            decreases items@.len() - i,
        {
            put_todo(&mut ts, &items[i]);
            i = i + 1;
        }
        self.todos = keep_named(ts, &items);
    }

    /// The tasks as a list in Markdown, if there are any.
    pub fn format_todos(&self) -> (r: Option<String>)
        ensures
            text::opt_text(r) == (if self@.todos.len() == 0 {
                None
            } else {
                Some(text::joined(todo_lines(self@.todos), "\n"@))
            }),
    {
        if self.todos.len() == 0 {
            return None;
        }
        let mut lines: Vec<String> = Vec::new();
        let mut i: usize = 0;
        proof {
            assert(text::texts(lines@) =~= todo_lines(todo_views(self.todos@).take(0)));
        }
        while i < self.todos.len()
            invariant
                i <= self.todos@.len(),
                text::texts(lines@) == todo_lines(todo_views(self.todos@).take(i as int)),
            decreases self.todos@.len() - i,
        {
            let ghost before: Seq<String> = lines@;
            lines.push(line_of(&self.todos[i]));
            proof {
                let ts = todo_views(self.todos@);
                assert(text::texts(lines@) =~= text::texts(before).push(
                    todo_line(self.todos@[i as int]@),
                ));
                assert(todo_lines(ts.take(i + 1)) =~= todo_lines(ts.take(i as int)).push(
                    todo_line(ts[i as int]),
                ));
            }
            i = i + 1;
        }
        proof {
            assert(todo_views(self.todos@).take(i as int) =~= todo_views(self.todos@));
        }
        Some(text::join(&lines, "\n"))
    }

    /// How many turns the session has had.
    pub fn turn_counter(&self) -> (r: u32)
        ensures
            r == self@.turn_counter,
    {
        self.turn_counter
    }

    /// Whether nothing was said since the last compaction.
    pub fn is_compacted(&self) -> (r: bool)
        ensures
            r == self@.is_compacted,
    {
        self.is_compacted
    }

    /// Notes a compaction, or that something was said since.
    pub fn set_compacted(&mut self, is_compacted: bool)
        ensures
            final(self)@ == (StateView { is_compacted, ..old(self)@ }),
    {
        self.is_compacted = is_compacted;
    }

    /// The model, if one was chosen.
    pub fn model(&self) -> (r: Option<&str>)
        ensures
            match r {
                Some(m) => self@.model == Some(m@),
                None => self@.model is None,
            },
    {
        match &self.model {
            Some(m) => Some(m.as_str()),
            None => None,
        }
    }

    /// Sets the model, for which the history counts tokens then.
    pub fn set_model(&mut self, model: String)
        ensures
            final(self)@ == (StateView {
                model: Some(model@),
                history: history::HistoryView { model_name: Some(model@), ..old(self)@.history },
                ..old(self)@
            }),
    {
        self.history.set_model_name(model.clone());
        self.model = Some(model);
    }

    /// The provider, if one was chosen.
    pub fn provider(&self) -> (r: Option<&str>)
        ensures
            match r {
                Some(p) => self@.provider == Some(p@),
                None => self@.provider is None,
            },
    {
        match &self.provider {
            Some(p) => Some(p.as_str()),
            None => None,
        }
    }

    /// Sets the provider.
    pub fn set_provider(&mut self, provider: String)
        ensures
            final(self)@ == (StateView { provider: Some(provider@), ..old(self)@ }),
    {
        self.provider = Some(provider);
    }

    /// The model's characters per token, if they were learnt.
    pub fn model_ratio(&self) -> (r: Option<JsonNumber>)
        ensures
            metadata::number_view(r) == self@.model_ratio,
    {
        clone_number(&self.model_ratio)
    }

    /// Sets the model's characters per token.
    pub fn set_model_ratio(&mut self, ratio: JsonNumber)
        ensures
            final(self)@ == (StateView {
                model_ratio: Some((ratio.unsigned, ratio.literal@)),
                ..old(self)@
            }),
    {
        self.model_ratio = Some(ratio);
    }

    /// The reasoning effort, if one was chosen.
    pub fn reasoning_effort(&self) -> (r: Option<ReasoningEffort>)
        ensures
            r == self@.reasoning_effort,
    {
        self.reasoning_effort
    }

    /// Sets the reasoning effort, or goes back to the model's.
    pub fn set_reasoning_effort(&mut self, effort: Option<ReasoningEffort>)
        ensures
            final(self)@ == (StateView { reasoning_effort: effort, ..old(self)@ }),
    {
        self.reasoning_effort = effort;
    }

    /// The temperature, if one was chosen.
    pub fn temperature(&self) -> (r: Option<JsonNumber>)
        ensures
            metadata::number_view(r) == self@.temperature,
    {
        clone_number(&self.temperature)
    }

    /// Sets the temperature, or goes back to the default.
    pub fn set_temperature(&mut self, temperature: Option<JsonNumber>)
        ensures
            final(self)@ == (StateView {
                temperature: metadata::number_view(temperature),
                ..old(self)@
            }),
    {
        self.temperature = temperature;
    }

    /// The workspace, if the session has a file and one was chosen.
    pub fn workspace_id(&self) -> (r: Option<String>)
        ensures
            text::opt_text(r) == (match self@.conversation {
                Some(c) => c.workspace_id,
                None => None,
            }),
    {
        match &self.conversation {
            Some(c) => c.workspace_id(),
            None => None,
        }
    }

    /// What is known of the user, if anything is.
    pub fn identity_context(&self) -> (r: Option<&str>)
        ensures
            match r {
                Some(c) => self@.identity_context == Some(c@),
                None => self@.identity_context is None,
            },
    {
        match &self.identity_context {
            Some(c) => Some(c.as_str()),
            None => None,
        }
    }

    /// Sets what is known of the user.
    pub fn set_identity_context(&mut self, ctx: Option<String>)
        ensures
            final(self)@ == (StateView { identity_context: text::opt_text(ctx), ..old(self)@ }),
    {
        self.identity_context = ctx;
    }
}

/// The state of a session as others see it.
#[derive(Debug, PartialEq, Eq)]
pub struct SessionStateSnapshot {
    pub session_id: String,
    /// The status as a JSON text.
    pub status_json: String,
    pub model: Option<String>,
    pub provider: Option<String>,
    pub workspace_id: Option<String>,
    pub ratio: Option<JsonNumber>,
    /// The name of the reasoning effort.
    pub reasoning_effort: Option<String>,
    pub temperature: Option<JsonNumber>,
}

} // verus!
