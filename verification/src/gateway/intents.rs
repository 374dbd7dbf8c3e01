//! Where the intents of the gateway lead.

use crate::json::Json;
use crate::json;
use crate::text;
use vstd::prelude::*;

verus! {

/// A request for messages of a session.
#[derive(Debug, PartialEq, Eq)]
pub struct MessagesRequest {
    pub request_id: String,
    pub session_id: String,
    pub cursor: Option<String>,
    pub limit: u32,
    pub direction: String,
    /// The lines that the reader has, where only news are asked for.
    pub line_number: Option<u64>,
    /// The characters of the streamed line that the reader has.
    pub line_char_offset: Option<u64>,
}

/// A message of the user.
#[derive(Debug, PartialEq, Eq)]
pub struct ChatIntent {
    pub session_id: String,
    pub content: String,
    /// The message's identifier, where it has one.
    pub message_id: Option<String>,
    pub documents: Option<Vec<Json>>,
    pub content_parts: Option<Json>,
    pub attached_context: Option<Json>,
}

/// Where an intent leads.
#[derive(Debug, PartialEq, Eq)]
pub enum IntentRoute {
    ListSessions { request_id: String, page: Option<u32>, size: Option<u32> },
    GetMessages(MessagesRequest),
    CreateSession {
        request_id: String,
        workspace_id: Option<String>,
        model: Option<String>,
        provider: Option<String>,
    },
    ActivateSession { request_id: String, session_id: String },
    DeactivateSession { session_id: String },
    CloseSession { request_id: String, session_id: String },
    DeleteSession { request_id: String, session_id: String },
    UpdateTitle { request_id: String, session_id: String, title: String },
    /// The request is answered with an error.
    Refuse { request_id: String, error: String },
    /// The intent is passed over.
    Ignore,
    SwitchModel { session_id: String, model: String, provider: Option<String> },
    SetEffort { session_id: String, effort: String },
    Interrupt { session_id: String, reason: String },
    ContinueExecution { session_id: String, reason: String },
    ApprovalDecision {
        session_id: String,
        request_id: String,
        approved: bool,
        allow_all_session: bool,
        reason: Option<String>,
    },
    QuestionAnswer { session_id: String, request_id: String, answer: String },
    CompactContext { session_id: String },
    /// Any other action carries a message of the user.
    Chat(ChatIntent),
}

/// What a route holds.
pub enum RouteView {
    ListSessions(Seq<char>, Option<u32>, Option<u32>),
    GetMessages(
        Seq<char>,
        Seq<char>,
        Option<Seq<char>>,
        u32,
        Seq<char>,
        Option<u64>,
        Option<u64>,
    ),
    CreateSession(Seq<char>, Option<Seq<char>>, Option<Seq<char>>, Option<Seq<char>>),
    ActivateSession(Seq<char>, Seq<char>),
    DeactivateSession(Seq<char>),
    CloseSession(Seq<char>, Seq<char>),
    DeleteSession(Seq<char>, Seq<char>),
    UpdateTitle(Seq<char>, Seq<char>, Seq<char>),
    Refuse(Seq<char>, Seq<char>),
    Ignore,
    SwitchModel(Seq<char>, Seq<char>, Option<Seq<char>>),
    SetEffort(Seq<char>, Seq<char>),
    Interrupt(Seq<char>, Seq<char>),
    ContinueExecution(Seq<char>, Seq<char>),
    ApprovalDecision(Seq<char>, Seq<char>, bool, bool, Option<Seq<char>>),
    QuestionAnswer(Seq<char>, Seq<char>, Seq<char>),
    CompactContext(Seq<char>),
    Chat(
        Seq<char>,
        Seq<char>,
        Option<Seq<char>>,
        Option<Seq<json::JsonView>>,
        Option<json::JsonView>,
        Option<json::JsonView>,
    ),
}

/// What an optional list holds.
pub open spec fn opt_list(o: Option<Vec<Json>>) -> Option<Seq<json::JsonView>> {
    match o {
        Some(v) => Some(json::views(v@)),
        None => None,
    }
}

impl View for IntentRoute {
    type V = RouteView;

    open spec fn view(&self) -> RouteView {
        match *self {
            IntentRoute::ListSessions { request_id, page, size } => RouteView::ListSessions(
                request_id@,
                page,
                size,
            ),
            IntentRoute::GetMessages(r) => RouteView::GetMessages(
                r.request_id@,
                r.session_id@,
                text::opt_text(r.cursor),
                r.limit,
                r.direction@,
                r.line_number,
                r.line_char_offset,
            ),
            IntentRoute::CreateSession { request_id, workspace_id, model, provider } => {
                RouteView::CreateSession(
                    request_id@,
                    text::opt_text(workspace_id),
                    text::opt_text(model),
                    text::opt_text(provider),
                )
            },
            IntentRoute::ActivateSession { request_id, session_id } => RouteView::ActivateSession(
                request_id@,
                session_id@,
            ),
            IntentRoute::DeactivateSession { session_id } => RouteView::DeactivateSession(
                session_id@,
            ),
            IntentRoute::CloseSession { request_id, session_id } => RouteView::CloseSession(
                request_id@,
                session_id@,
            ),
            IntentRoute::DeleteSession { request_id, session_id } => RouteView::DeleteSession(
                request_id@,
                session_id@,
            ),
            IntentRoute::UpdateTitle { request_id, session_id, title } => RouteView::UpdateTitle(
                request_id@,
                session_id@,
                title@,
            ),
            IntentRoute::Refuse { request_id, error } => RouteView::Refuse(request_id@, error@),
            IntentRoute::Ignore => RouteView::Ignore,
            IntentRoute::SwitchModel { session_id, model, provider } => RouteView::SwitchModel(
                session_id@,
                model@,
                text::opt_text(provider),
            ),
            IntentRoute::SetEffort { session_id, effort } => RouteView::SetEffort(
                session_id@,
                effort@,
            ),
            IntentRoute::Interrupt { session_id, reason } => RouteView::Interrupt(
                session_id@,
                reason@,
            ),
            IntentRoute::ContinueExecution { session_id, reason } => RouteView::ContinueExecution(
                session_id@,
                reason@,
            ),
            IntentRoute::ApprovalDecision {
                session_id,
                request_id,
                approved,
                allow_all_session,
                reason,
            } => RouteView::ApprovalDecision(
                session_id@,
                request_id@,
                approved,
                allow_all_session,
                text::opt_text(reason),
            ),
            IntentRoute::QuestionAnswer { session_id, request_id, answer } => {
                RouteView::QuestionAnswer(session_id@, request_id@, answer@)
            },
            IntentRoute::CompactContext { session_id } => RouteView::CompactContext(session_id@),
            IntentRoute::Chat(c) => RouteView::Chat(
                c.session_id@,
                c.content@,
                text::opt_text(c.message_id),
                opt_list(c.documents),
                json::opt_view(c.content_parts),
                json::opt_view(c.attached_context),
            ),
        }
    }
}

/// The text of a parameter, or `default`.
pub open spec fn param_or(p: json::JsonView, key: Seq<char>, default: Seq<char>) -> Seq<char> {
    match p.str_at(key) {
        Some(s) => s,
        None => default,
    }
}

/// The text of a parameter that has to be there and not empty.
pub open spec fn filled_param(p: json::JsonView, key: Seq<char>) -> Option<Seq<char>> {
    match p.str_at(key) {
        Some(s) => if s.len() == 0 {
            None
        } else {
            Some(s)
        },
        None => None,
    }
}

/// The integer of a parameter, cut to 32 bits.
pub open spec fn short_param(p: json::JsonView, key: Seq<char>) -> Option<u32> {
    match p.u64_at(key) {
        Some(n) => Some(n as u32),
        None => None,
    }
}

/// The flag of a parameter, which is down where it is not there.
pub open spec fn flag_param(p: json::JsonView, key: Seq<char>) -> bool {
    p.bool_at(key) == Some(true)
}

/// What is said of a request without a session.
pub const MISSING_SESSION: &'static str = "Missing or empty session_id parameter";

/// What is said of a request without a title.
pub const MISSING_TITLE: &'static str = "Missing or empty title parameter";

/// How many messages a page has, unless it is said.
pub const DEFAULT_MESSAGE_LIMIT: u32 = 50;

/// Where an intent leads that manages a session: the session it is about has to
/// be named, or the request is refused.
pub open spec fn managed(p: json::JsonView, session_id: Option<Seq<char>>, route: RouteView) -> RouteView {
    match session_id {
        Some(_) => route,
        None => RouteView::Refuse(param_or(p, "request_id"@, Seq::empty()), MISSING_SESSION@),
    }
}

/// Where an intent leads that manages sessions, if it is one.
pub open spec fn management_route(action: Seq<char>, p: json::JsonView) -> Option<RouteView> {
    let request_id = param_or(p, "request_id"@, Seq::empty());
    let session_id = filled_param(p, "session_id"@);
    let sid = match session_id {
        Some(s) => s,
        None => Seq::empty(),
    };
    if action == "list_sessions"@ {
        Some(RouteView::ListSessions(request_id, short_param(p, "page"@), short_param(p, "size"@)))
    } else if action == "get_session_messages"@ {
        Some(
            RouteView::GetMessages(
                request_id,
                param_or(p, "session_id"@, Seq::empty()),
                p.str_at("cursor"@),
                match short_param(p, "limit"@) {
                    Some(n) => n,
                    None => DEFAULT_MESSAGE_LIMIT,
                },
                param_or(p, "direction"@, "backward"@),
                p.u64_at("line_number"@),
                p.u64_at("line_char_offset"@),
            ),
        )
    } else if action == "create_session"@ {
        Some(
            RouteView::CreateSession(
                request_id,
                p.str_at("workspace_id"@),
                p.str_at("model"@),
                p.str_at("provider"@),
            ),
        )
    } else if action == "activate_session"@ {
        Some(managed(p, session_id, RouteView::ActivateSession(request_id, sid)))
    } else if action == "deactivate_session"@ {
        Some(
            if session_id is Some {
                RouteView::DeactivateSession(sid)
            } else {
                RouteView::Ignore
            },
        )
    } else if action == "close_session"@ {
        Some(managed(p, session_id, RouteView::CloseSession(request_id, sid)))
    } else if action == "delete_session"@ {
        Some(managed(p, session_id, RouteView::DeleteSession(request_id, sid)))
    } else if action == "update_session_title"@ {
        let title = text::trimmed(param_or(p, "title"@, Seq::empty()));
        Some(
            if title.len() == 0 {
                RouteView::Refuse(request_id, MISSING_TITLE@)
            } else {
                managed(p, session_id, RouteView::UpdateTitle(request_id, sid, title))
            },
        )
    } else {
        None
    }
}

/// Where an intent for the session `sid` leads.
pub open spec fn session_route(action: Seq<char>, p: json::JsonView, sid: Seq<char>) -> RouteView {
    let request_id = param_or(p, "request_id"@, Seq::empty());
    if action == "model_switch"@ {
        match p.str_at("model"@) {
            Some(m) => RouteView::SwitchModel(sid, m, p.str_at("provider"@)),
            None => RouteView::Ignore,
        }
    } else if action == "reasoning_effort"@ {
        match p.str_at("effort"@) {
            Some(e) => RouteView::SetEffort(sid, e),
            None => RouteView::Ignore,
        }
    } else if action == "interrupt"@ {
        RouteView::Interrupt(sid, param_or(p, "reason"@, "unknown"@))
    } else if action == "continue_execution"@ {
        RouteView::ContinueExecution(sid, param_or(p, "reason"@, "user_requested"@))
    } else if action == "approval_decision"@ {
        RouteView::ApprovalDecision(
            sid,
            request_id,
            flag_param(p, "approved"@),
            flag_param(p, "allow_all_session"@),
            p.str_at("reason"@),
        )
    } else if action == "question_answer"@ {
        RouteView::QuestionAnswer(sid, request_id, param_or(p, "answer"@, Seq::empty()))
    } else if action == "compact_context"@ {
        RouteView::CompactContext(sid)
    } else {
        RouteView::Chat(
            sid,
            param_or(p, "content"@, Seq::empty()),
            p.str_at("message_id"@),
            p.array_at("documents"@),
            p.get("content_parts"@),
            p.get("attached_context"@),
        )
    }
}

/// Where an intent leads. One that manages no sessions has to name the session
/// that it is for, or it is passed over.
pub open spec fn route(action: Seq<char>, p: json::JsonView) -> RouteView {
    match management_route(action, p) {
        Some(r) => r,
        None => match filled_param(p, "session_id"@) {
            Some(sid) => session_route(action, p, sid),
            None => RouteView::Ignore,
        },
    }
}

fn read_param_or(p: &Json, key: &str, default: &str) -> (r: String)
    ensures
        r@ == param_or(p@, key@, default@),
{
    match p.str_at(key) {
        Some(s) => s,
        None => default.to_string(),
    }
}

fn read_param_or_empty(p: &Json, key: &str) -> (r: String)
    ensures
        r@ == param_or(p@, key@, Seq::empty()),
{
    match p.str_at(key) {
        Some(s) => s,
        None => {
            let r: String = String::new();
            proof {
                assert(r@ =~= Seq::empty());
            }
            r
        },
    }
}

fn read_filled(p: &Json, key: &str) -> (r: Option<String>)
    ensures
        text::opt_text(r) == filled_param(p@, key@),
{
    match p.str_at(key) {
        Some(s) => if s.as_str().is_empty() {
            None
        } else {
            Some(s)
        },
        None => None,
    }
}

fn read_short(p: &Json, key: &str) -> (r: Option<u32>)
    ensures
        r == short_param(p@, key@),
{
    match p.u64_at(key) {
        Some(n) => Some(#[verifier::truncate] (n as u32)),
        None => None,
    }
}

fn read_flag(p: &Json, key: &str) -> (r: bool)
    ensures
        r == flag_param(p@, key@),
{
    match p.bool_at(key) {
        Some(b) => b,
        None => false,
    }
}

fn refuse_missing(request_id: String) -> (r: IntentRoute)
    ensures
        r@ == RouteView::Refuse(request_id@, MISSING_SESSION@),
{
    IntentRoute::Refuse { request_id, error: MISSING_SESSION.to_string() }
}

fn clone_list(v: &Vec<Json>) -> (r: Vec<Json>)
    ensures
        json::views(r@) == json::views(v@),
{
    let mut r: Vec<Json> = Vec::new();
    let mut i: usize = 0;
    proof {
        assert(json::views(r@) =~= json::views(v@).take(0));
    }
    while i < v.len()
        invariant
            i <= v@.len(),
            json::views(r@) == json::views(v@).take(i as int),
        decreases v@.len() - i,
    {
        json::add_element(&mut r, v[i].clone());
        proof {
            assert(json::views(v@).take(i + 1) =~= json::views(v@).take(i as int).push(
                v@[i as int]@,
            ));
        }
        i = i + 1;
    }
    proof {
        assert(json::views(v@).take(i as int) =~= json::views(v@));
    }
    r
}

fn read_list(p: &Json, key: &str) -> (r: Option<Vec<Json>>)
    ensures
        opt_list(r) == p@.array_at(key@),
{
    match p.array_at(key) {
        Some(v) => Some(clone_list(v)),
        None => None,
    }
}

fn read_value(p: &Json, key: &str) -> (r: Option<Json>)
    ensures
        json::opt_view(r) == p@.get(key@),
{
    match p.get(key) {
        Some(v) => Some(v.clone()),
        None => None,
    }
}

fn route_management(action: &str, p: &Json) -> (r: Option<IntentRoute>)
    ensures
        match r {
            Some(x) => management_route(action@, p@) == Some(x@),
            None => management_route(action@, p@) is None,
        },
{
    let request_id: String = read_param_or_empty(p, "request_id");
    let session_id: Option<String> = read_filled(p, "session_id");
    if text::same_text(action, "list_sessions") {
        Some(
            IntentRoute::ListSessions {
                request_id,
                page: read_short(p, "page"),
                size: read_short(p, "size"),
            },
        )
    } else if text::same_text(action, "get_session_messages") {
        Some(
            IntentRoute::GetMessages(
                MessagesRequest {
                    request_id,
                    session_id: read_param_or_empty(p, "session_id"),
                    cursor: p.str_at("cursor"),
                    limit: match read_short(p, "limit") {
                        Some(n) => n,
                        None => DEFAULT_MESSAGE_LIMIT,
                    },
                    direction: read_param_or(p, "direction", "backward"),
                    line_number: p.u64_at("line_number"),
                    line_char_offset: p.u64_at("line_char_offset"),
                },
            ),
        )
    } else if text::same_text(action, "create_session") {
        Some(
            IntentRoute::CreateSession {
                request_id,
                workspace_id: p.str_at("workspace_id"),
                model: p.str_at("model"),
                provider: p.str_at("provider"),
            },
        )
    } else if text::same_text(action, "activate_session") {
        Some(
            match session_id {
                Some(s) => IntentRoute::ActivateSession { request_id, session_id: s },
                None => refuse_missing(request_id),
            },
        )
    } else if text::same_text(action, "deactivate_session") {
        Some(
            match session_id {
                Some(s) => IntentRoute::DeactivateSession { session_id: s },
                None => IntentRoute::Ignore,
            },
        )
    } else if text::same_text(action, "close_session") {
        Some(
            match session_id {
                Some(s) => IntentRoute::CloseSession { request_id, session_id: s },
                None => refuse_missing(request_id),
            },
        )
    } else if text::same_text(action, "delete_session") {
        Some(
            match session_id {
                Some(s) => IntentRoute::DeleteSession { request_id, session_id: s },
                None => refuse_missing(request_id),
            },
        )
    } else if text::same_text(action, "update_session_title") {
        let title: String = text::trim(read_param_or_empty(p, "title").as_str());
        if title.as_str().is_empty() {
            return Some(
                IntentRoute::Refuse { request_id, error: MISSING_TITLE.to_string() },
            );
        }
        Some(
            match session_id {
                Some(s) => IntentRoute::UpdateTitle { request_id, session_id: s, title },
                None => refuse_missing(request_id),
            },
        )
    } else {
        None
    }
}

fn route_session(action: &str, p: &Json, session_id: String) -> (r: IntentRoute)
    ensures
        r@ == session_route(action@, p@, session_id@),
{
    if text::same_text(action, "model_switch") {
        match p.str_at("model") {
            Some(model) => IntentRoute::SwitchModel {
                session_id,
                model,
                provider: p.str_at("provider"),
            },
            None => IntentRoute::Ignore,
        }
    } else if text::same_text(action, "reasoning_effort") {
        match p.str_at("effort") {
            Some(effort) => IntentRoute::SetEffort { session_id, effort },
            None => IntentRoute::Ignore,
        }
    } else if text::same_text(action, "interrupt") {
        IntentRoute::Interrupt { session_id, reason: read_param_or(p, "reason", "unknown") }
    } else if text::same_text(action, "continue_execution") {
        IntentRoute::ContinueExecution {
            session_id,
            reason: read_param_or(p, "reason", "user_requested"),
        }
    } else if text::same_text(action, "approval_decision") {
        IntentRoute::ApprovalDecision {
            session_id,
            request_id: read_param_or_empty(p, "request_id"),
            approved: read_flag(p, "approved"),
            allow_all_session: read_flag(p, "allow_all_session"),
            reason: p.str_at("reason"),
        }
    } else if text::same_text(action, "question_answer") {
        IntentRoute::QuestionAnswer {
            session_id,
            request_id: read_param_or_empty(p, "request_id"),
            answer: read_param_or_empty(p, "answer"),
        }
    } else if text::same_text(action, "compact_context") {
        IntentRoute::CompactContext { session_id }
    } else {
        IntentRoute::Chat(
            ChatIntent {
                session_id,
                content: read_param_or_empty(p, "content"),
                message_id: p.str_at("message_id"),
                documents: read_list(p, "documents"),
                content_parts: read_value(p, "content_parts"),
                attached_context: read_value(p, "attached_context"),
            },
        )
    }
}

/// Where an intent leads.
pub fn route_intent(action: &str, params: &Json) -> (r: IntentRoute)
    ensures
        r@ == route(action@, params@),
{
    match route_management(action, params) {
        Some(x) => x,
        None => match read_filled(params, "session_id") {
            Some(s) => route_session(action, params, s),
            None => IntentRoute::Ignore,
        },
    }
}

/// An intent for one session never leads to another: its route names the session
/// that its parameters name.
pub proof fn intents_stay_with_their_session(action: Seq<char>, p: json::JsonView)
    ensures
        match route(action, p) {
            RouteView::ActivateSession(_, sid) => p.str_at("session_id"@) == Some(sid),
            RouteView::DeactivateSession(sid) => p.str_at("session_id"@) == Some(sid),
            RouteView::CloseSession(_, sid) => p.str_at("session_id"@) == Some(sid),
            RouteView::DeleteSession(_, sid) => p.str_at("session_id"@) == Some(sid),
            RouteView::UpdateTitle(_, sid, _) => p.str_at("session_id"@) == Some(sid),
            RouteView::SwitchModel(sid, _, _) => p.str_at("session_id"@) == Some(sid),
            RouteView::SetEffort(sid, _) => p.str_at("session_id"@) == Some(sid),
            RouteView::Interrupt(sid, _) => p.str_at("session_id"@) == Some(sid),
            RouteView::ContinueExecution(sid, _) => p.str_at("session_id"@) == Some(sid),
            RouteView::ApprovalDecision(sid, _, _, _, _) => p.str_at("session_id"@) == Some(sid),
            RouteView::QuestionAnswer(sid, _, _) => p.str_at("session_id"@) == Some(sid),
            RouteView::CompactContext(sid) => p.str_at("session_id"@) == Some(sid),
            RouteView::Chat(sid, _, _, _, _, _) => p.str_at("session_id"@) == Some(sid),
            _ => true,
        },
{
}

} // verus!
