//! What the gateway is answered.

use crate::agent::session::messages::SessionMessage;
use crate::agent::session::attachments::AttachedContextItem;
use crate::agent::session_state::{SessionStateSnapshot, SessionStatus};
use crate::conversation::entry::ConversationEntry;
use crate::conversation::entry;
use crate::conversation::listing::SessionInfo;
use crate::conversation::metadata::{clone_number, SessionMetadata};
use crate::conversation::metadata;
use crate::conversation::pages::PaginatedMessages;
use crate::conversation::since::{ReadMessagesSinceResult, StreamingLineDelta};
use crate::conversation::since;
use crate::gateway::intents::{ChatIntent, MessagesRequest};
use crate::ids::Moment;
use crate::json::{Json, JsonMember, JsonNumber};
use crate::json;
use crate::message::ContentPart;
use crate::text;
use vstd::prelude::*;

verus! {

/// An error as a reply.
pub open spec fn error_json(error: Seq<char>) -> json::JsonView {
    json::JsonView::Object(seq![("error"@, json::JsonView::Text(error))])
}

/// A text, or null.
pub open spec fn text_or_null(o: Option<Seq<char>>) -> json::JsonView {
    match o {
        Some(s) => json::JsonView::Text(s),
        None => json::JsonView::Null,
    }
}

fn opt_text_value(o: &Option<String>) -> (r: Json)
    ensures
        r@ == text_or_null(text::opt_text(*o)),
{
    match o {
        Some(s) => Json::Text(s.clone()),
        None => Json::Null,
    }
}

/// An error as a reply.
pub fn error_reply(error: &str) -> (r: Json)
    ensures
        r@ == error_json(error@),
{
    let mut m: Vec<JsonMember> = json::no_members();
    json::add_member(&mut m, "error", json::text_value(error));
    let r: Json = json::object_value(m);
    proof {
        assert(r@->Object_0 =~= error_json(error@)->Object_0);
    }
    r
}

fn joined_text(a: &str, b: &str) -> (r: String)
    ensures
        r@ == a@ + b@,
{
    let mut r: String = a.to_string();
    r.append(b);
    r
}

/// What is said of a session that there is not.
pub open spec fn not_found(session_id: Seq<char>) -> Seq<char> {
    "Session not found: "@ + session_id
}

/// What is said of a session that there is not.
pub fn session_not_found(session_id: &str) -> (r: String)
    ensures
        r@ == not_found(session_id@),
{
    joined_text("Session not found: ", session_id)
}

/// The reply to a request for a new session: its identifier, or why there is
/// none.
pub fn created_reply(session_id: &str, failure: Option<&str>) -> (r: Json)
    ensures
        match failure {
            Some(e) => r@ == error_json("Failed to create session: "@ + e@),
            None => r@ == json::JsonView::Object(
                seq![("session_id"@, json::JsonView::Text(session_id@))],
            ),
        },
{
    match failure {
        Some(e) => error_reply(joined_text("Failed to create session: ", e).as_str()),
        None => {
            let mut m: Vec<JsonMember> = json::no_members();
            json::add_member(&mut m, "session_id", json::text_value(session_id));
            let r: Json = json::object_value(m);
            proof {
                assert(r@->Object_0 =~= seq![("session_id"@, json::JsonView::Text(session_id@))]);
            }
            r
        },
    }
}

/// What is said of an activated session: what its file says of it, where that
/// could be read.
pub open spec fn activated_json(
    session_id: Seq<char>,
    meta: Option<metadata::MetadataView>,
) -> json::JsonView {
    json::JsonView::Object(
        seq![
            ("session_id"@, json::JsonView::Text(session_id)),
            ("activated"@, json::JsonView::Bool(true)),
            (
                "model"@,
                text_or_null(
                    match meta {
                        Some(m) => m.model,
                        None => None,
                    },
                ),
            ),
            (
                "provider"@,
                text_or_null(
                    match meta {
                        Some(m) => m.provider,
                        None => None,
                    },
                ),
            ),
            (
                "workspace_id"@,
                text_or_null(
                    match meta {
                        Some(m) => m.workspace_id,
                        None => None,
                    },
                ),
            ),
        ],
    )
}

/// The reply to a request to activate a session. `found` says whether there is
/// one.
pub fn activated_reply(session_id: &str, found: bool, meta: &Option<SessionMetadata>) -> (r: Json)
    ensures
        r@ == (if found {
            activated_json(session_id@, metadata::opt_metadata(*meta))
        } else {
            error_json(not_found(session_id@))
        }),
{
    if !found {
        return error_reply(session_not_found(session_id).as_str());
    }
    let mut m: Vec<JsonMember> = json::no_members();
    json::add_member(&mut m, "session_id", json::text_value(session_id));
    json::add_member(&mut m, "activated", Json::Bool(true));
    match meta {
        Some(x) => {
            json::add_member(&mut m, "model", opt_text_value(&x.model));
            json::add_member(&mut m, "provider", opt_text_value(&x.provider));
            json::add_member(&mut m, "workspace_id", opt_text_value(&x.workspace_id));
        },
        None => {
            json::add_member(&mut m, "model", Json::Null);
            json::add_member(&mut m, "provider", Json::Null);
            json::add_member(&mut m, "workspace_id", Json::Null);
        },
    }
    let r: Json = json::object_value(m);
    proof {
        assert(r@->Object_0 =~= activated_json(
            session_id@,
            metadata::opt_metadata(*meta),
        )->Object_0);
    }
    r
}

fn done_reply(key: &str, session_id: &str) -> (r: Json)
    ensures
        r@ == json::JsonView::Object(
            seq![
                (key@, json::JsonView::Bool(true)),
                ("session_id"@, json::JsonView::Text(session_id@)),
            ],
        ),
{
    let mut m: Vec<JsonMember> = json::no_members();
    json::add_member(&mut m, key, Json::Bool(true));
    json::add_member(&mut m, "session_id", json::text_value(session_id));
    let r: Json = json::object_value(m);
    proof {
        assert(r@->Object_0 =~= seq![
            (key@, json::JsonView::Bool(true)),
            ("session_id"@, json::JsonView::Text(session_id@)),
        ]);
    }
    r
}

/// The reply to a request to close a session.
pub fn closed_reply(session_id: &str) -> (r: Json)
    ensures
        r@ == json::JsonView::Object(
            seq![
                ("closed"@, json::JsonView::Bool(true)),
                ("session_id"@, json::JsonView::Text(session_id@)),
            ],
        ),
{
    done_reply("closed", session_id)
}

/// The reply to a request to delete a session.
pub fn deleted_reply(session_id: &str, failure: Option<&str>) -> (r: Json)
    ensures
        match failure {
            Some(e) => r@ == error_json("Failed to delete session: "@ + e@),
            None => r@ == json::JsonView::Object(
                seq![
                    ("deleted"@, json::JsonView::Bool(true)),
                    ("session_id"@, json::JsonView::Text(session_id@)),
                ],
            ),
        },
{
    match failure {
        Some(e) => error_reply(joined_text("Failed to delete session: ", e).as_str()),
        None => done_reply("deleted", session_id),
    }
}

/// The reply to a request to set a session's title. `found` says whether there is
/// such a session.
pub fn title_reply(session_id: &str, title: &str, found: bool) -> (r: Json)
    ensures
        r@ == (if found {
            json::JsonView::Object(
                seq![
                    ("session_id"@, json::JsonView::Text(session_id@)),
                    ("title"@, json::JsonView::Text(title@)),
                    ("updated"@, json::JsonView::Bool(true)),
                ],
            )
        } else {
            error_json(not_found(session_id@))
        }),
{
    if !found {
        return error_reply(session_not_found(session_id).as_str());
    }
    let mut m: Vec<JsonMember> = json::no_members();
    json::add_member(&mut m, "session_id", json::text_value(session_id));
    json::add_member(&mut m, "title", json::text_value(title));
    json::add_member(&mut m, "updated", Json::Bool(true));
    let r: Json = json::object_value(m);
    proof {
        assert(r@->Object_0 =~= seq![
            ("session_id"@, json::JsonView::Text(session_id@)),
            ("title"@, json::JsonView::Text(title@)),
            ("updated"@, json::JsonView::Bool(true)),
        ]);
    }
    r
}

/// The part of the gateway that answers requests.
pub const HTTP_API: &'static str = "http-api";

/// The part of the gateway that shows what goes on in sessions.
pub const HTTP_WS: &'static str = "http-ws";

/// The action of a reply.
pub const SESSION_RESPONSE: &'static str = "session_response";

/// The action that tells the sender of a message why it is not answered.
pub const AGENT_ERROR: &'static str = "agent_error";

/// An intent that the runtime sends to the gateway.
#[derive(Debug, PartialEq, Eq)]
pub struct OutgoingIntent {
    pub target: String,
    pub action: String,
    pub params: Json,
    /// Nobody waits for what becomes of it.
    pub is_async: bool,
}

/// What an intent to the gateway holds.
pub struct OutgoingView {
    pub target: Seq<char>,
    pub action: Seq<char>,
    pub params: json::JsonView,
    pub is_async: bool,
}

impl View for OutgoingIntent {
    type V = OutgoingView;

    open spec fn view(&self) -> OutgoingView {
        OutgoingView {
            target: self.target@,
            action: self.action@,
            params: self.params@,
            is_async: self.is_async,
        }
    }
}

/// A reply with the request that it is for.
pub fn session_response(request_id: &str, data: Json) -> (r: OutgoingIntent)
    ensures
        r@ == (OutgoingView {
            target: HTTP_API@,
            action: SESSION_RESPONSE@,
            params: json::JsonView::Object(
                seq![("request_id"@, json::JsonView::Text(request_id@)), ("data"@, data@)],
            ),
            is_async: true,
        }),
{
    let ghost d: json::JsonView = data@;
    let mut m: Vec<JsonMember> = json::no_members();
    json::add_member(&mut m, "request_id", json::text_value(request_id));
    json::add_member(&mut m, "data", data);
    let params: Json = json::object_value(m);
    proof {
        assert(params@->Object_0 =~= seq![
            ("request_id"@, json::JsonView::Text(request_id@)),
            ("data"@, d),
        ]);
    }
    OutgoingIntent {
        target: HTTP_API.to_string(),
        action: SESSION_RESPONSE.to_string(),
        params,
        is_async: true,
    }
}

/// Tells the sender `from` of a message why it is not answered.
pub fn agent_error(from: &str, params: Json) -> (r: OutgoingIntent)
    ensures
        r@ == (OutgoingView {
            target: from@,
            action: AGENT_ERROR@,
            params: params@,
            is_async: false,
        }),
{
    OutgoingIntent {
        target: from.to_string(),
        action: AGENT_ERROR.to_string(),
        params,
        is_async: false,
    }
}

/// What is said to the sender of a message that is not answered.
pub open spec fn chat_error_json(content: Seq<char>, message_id: Seq<char>) -> json::JsonView {
    json::JsonView::Object(
        seq![
            ("content"@, json::JsonView::Text(content)),
            ("message_id"@, json::JsonView::Text(message_id)),
        ],
    )
}

/// What is said to the sender of a message that is not answered.
pub fn chat_error(content: &str, message_id: &str) -> (r: Json)
    ensures
        r@ == chat_error_json(content@, message_id@),
{
    let mut m: Vec<JsonMember> = json::no_members();
    json::add_member(&mut m, "content", json::text_value(content));
    json::add_member(&mut m, "message_id", json::text_value(message_id));
    let r: Json = json::object_value(m);
    proof {
        assert(r@->Object_0 =~= chat_error_json(content@, message_id@)->Object_0);
    }
    r
}

/// What is said when the budget is used up.
pub const BUDGET_EXHAUSTED: &'static str = "Budget exhausted — cannot process this message";

/// What is said to the sender of a message when the budget is known to be used
/// up; `None` where the message is to be answered.
pub fn budget_refusal(remaining_tokens: Option<u64>, chat: &ChatIntent) -> (r: Option<Json>)
    ensures
        if remaining_tokens == Some(0u64) {
            r matches Some(j) && j@ == chat_error_json(
                BUDGET_EXHAUSTED@,
                match text::opt_text(chat.message_id) {
                    Some(id) => id,
                    None => "unknown"@,
                },
            )
        } else {
            r is None
        },
{
    match remaining_tokens {
        Some(0) => {
            let id: &str = match &chat.message_id {
                Some(id) => id.as_str(),
                None => "unknown",
            };
            Some(chat_error(BUDGET_EXHAUSTED, id))
        },
        _ => None,
    }
}

/// An integer in decimal notation.
pub open spec fn signed_text(n: i64) -> Seq<char> {
    match json::signed_view(n) {
        json::JsonView::Number(_, literal) => literal,
        _ => Seq::empty(),
    }
}

/// The identifier of a message: its own, or one that is made of the time.
pub open spec fn message_id_at(own: Option<Seq<char>>, millis: i64) -> Seq<char> {
    match own {
        Some(id) => id,
        None => "msg-"@ + signed_text(millis),
    }
}

/// The identifier of a message that came in at the time `now`.
pub fn message_id_or(own: &Option<String>, now: &Moment) -> (r: String)
    ensures
        r@ == message_id_at(text::opt_text(*own), now.millis),
{
    match own {
        Some(id) => id.clone(),
        None => match json::signed_value(now.millis) {
            Json::Number(n) => joined_text("msg-", n.literal.as_str()),
            _ => "msg-".to_string(),
        },
    }
}

/// The message to the session that a message of the user becomes.
pub fn chat_to_session(
    chat: ChatIntent,
    now: &Moment,
    skill_instructions: Option<String>,
    content_parts: Option<Vec<ContentPart>>,
    attached_context: Option<Vec<AttachedContextItem>>,
) -> (r: SessionMessage)
    ensures
        r matches SessionMessage::ChatMessage {
            content: c,
            message_id: i,
            skill_instructions: k,
            documents: d,
            content_parts: p,
            attached_context: a,
        } && c@ == chat.content@ && i@ == message_id_at(text::opt_text(chat.message_id), now.millis)
            && k == skill_instructions && d == chat.documents && p == content_parts && a
            == attached_context,
{
    let message_id: String = message_id_or(&chat.message_id, now);
    SessionMessage::ChatMessage {
        content: chat.content,
        message_id,
        skill_instructions,
        documents: chat.documents,
        content_parts,
        attached_context,
    }
}

/// The workspace that stands for the agent's home.
pub const AGENT_HOME: &'static str = "__agent_home__";

/// A session of a listing, with what it is doing, where it is in memory.
#[derive(Debug, PartialEq, Eq)]
pub struct SessionListItem {
    pub session_id: String,
    pub created_at: String,
    pub message_count: u32,
    pub title: Option<String>,
    pub corrupted: bool,
    pub status: Option<SessionStatus>,
    /// None for the agent's home.
    pub workspace_id: Option<String>,
    pub model: Option<String>,
    pub provider: Option<String>,
}

/// A session of a listing. `workspace` is the one that the session works in now.
pub fn list_item(info: SessionInfo, status: Option<SessionStatus>, workspace: String) -> (r:
    SessionListItem)
    ensures
        r == (SessionListItem {
            session_id: info.session_id,
            created_at: info.created_at,
            message_count: info.message_count,
            title: info.title,
            corrupted: info.corrupted,
            status,
            workspace_id: if workspace@ == AGENT_HOME@ {
                None
            } else {
                Some(workspace)
            },
            model: info.model,
            provider: info.provider,
        }),
{
    SessionListItem {
        session_id: info.session_id,
        created_at: info.created_at,
        message_count: info.message_count,
        title: info.title,
        corrupted: info.corrupted,
        status,
        workspace_id: if text::same_text(workspace.as_str(), AGENT_HOME) {
            None
        } else {
            Some(workspace)
        },
        model: info.model,
        provider: info.provider,
    }
}

/// How many pages a listing of `total` files has: as many as are needed, and at
/// least one.
pub fn total_pages(total: usize, size: Option<u32>) -> (r: usize)
    requires
        total > 0 ==> size != Some(0u32),
    ensures
        total == 0 ==> r == 1,
        total > 0 ==> ({
            let per_page: int = match size {
                Some(n) => n as int,
                None => 20,
            };
            (r - 1) * per_page < total && total <= r * per_page
        }),
{
    if total == 0 {
        return 1;
    }
    let per_page: usize = match size {
        Some(n) => n as usize,
        None => 20,
    };
    let whole: usize = total / per_page;
    let rest: usize = total % per_page;
    proof {
        assert(total == whole * per_page + rest && 0 <= rest < per_page) by (nonlinear_arith)
            requires
                whole == total / per_page,
                rest == total % per_page,
                per_page > 0,
        ;
        assert(whole <= total) by (nonlinear_arith)
            requires
                whole == total / per_page,
                per_page > 0,
                total >= 0,
        ;
        assert((whole - 1) * per_page == whole * per_page - per_page) by (nonlinear_arith);
        assert((whole + 1) * per_page == whole * per_page + per_page) by (nonlinear_arith);
    }
    if rest == 0 {
        whole
    } else {
        proof {
            assert(whole < total) by (nonlinear_arith)
                requires
                    total == whole * per_page + rest,
                    per_page >= 1,
                    rest >= 1,
                    whole >= 0,
            ;
        }
        whole + 1
    }
}

/// How a request for messages is answered.
#[derive(Debug, PartialEq, Eq)]
pub enum MessagesPlan {
    /// With an error.
    Refuse(String),
    /// With what is new since the reader last looked.
    Since { line_number: usize, line_char_offset: usize },
    /// With a page.
    Page,
}

/// How a request for messages is answered. `has_file` says whether the session has
/// a file.
pub fn plan_messages(request: &MessagesRequest, has_file: bool) -> (r: MessagesPlan)
    ensures
        if request.session_id@.len() == 0 {
            r matches MessagesPlan::Refuse(e) && e@ == "session_id is required"@
        } else if !has_file {
            r matches MessagesPlan::Refuse(e) && e@ == "Session "@ + request.session_id@
                + " not found"@
        } else {
            match request.line_number {
                Some(n) => r == (MessagesPlan::Since {
                    line_number: n as usize,
                    line_char_offset: match request.line_char_offset {
                        Some(o) => o as usize,
                        None => 0,
                    },
                }),
                None => r is Page,
            }
        },
{
    if request.session_id.as_str().is_empty() {
        return MessagesPlan::Refuse("session_id is required".to_string());
    }
    if !has_file {
        let mut e: String = joined_text("Session ", request.session_id.as_str());
        e.append(" not found");
        return MessagesPlan::Refuse(e);
    }
    match request.line_number {
        Some(n) => MessagesPlan::Since {
            line_number: #[verifier::truncate] (n as usize),
            line_char_offset: match request.line_char_offset {
                Some(o) => #[verifier::truncate] (o as usize),
                None => 0,
            },
        },
        None => MessagesPlan::Page,
    }
}

/// What is said when messages could not be read.
pub fn read_failure(error: &str) -> (r: Json)
    ensures
        r@ == error_json("Failed to read messages: "@ + error@),
{
    error_reply(joined_text("Failed to read messages: ", error).as_str())
}

/// Entries as a JSON array.
pub open spec fn entries_json(es: Seq<entry::EntryView>) -> json::JsonView {
    json::JsonView::Array(es.map_values(|e: entry::EntryView| entry::entry_json(e)))
}

fn entries_value(es: &Vec<ConversationEntry>) -> (r: Json)
    ensures
        r@ == entries_json(entry::entry_views(es@)),
{
    let ghost all: Seq<json::JsonView> = entry::entry_views(es@).map_values(
        |e: entry::EntryView| entry::entry_json(e),
    );
    let mut a: Vec<Json> = Vec::new();
    let mut i: usize = 0;
    proof {
        assert(json::views(a@) =~= all.take(0));
    }
    while i < es.len()
        invariant
            i <= es@.len(),
            all == entry::entry_views(es@).map_values(|e: entry::EntryView| entry::entry_json(e)),
            json::views(a@) == all.take(i as int),
        decreases es@.len() - i,
    {
        json::add_element(&mut a, es[i].to_json());
        proof {
            assert(all.take(i + 1) =~= all.take(i as int).push(
                entry::entry_json(es@[i as int]@),
            ));
        }
        i = i + 1;
    }
    proof {
        assert(all.take(i as int) =~= all);
    }
    json::array_value(a)
}

/// The new part of a streamed line as a JSON object, or null.
pub open spec fn delta_json(o: Option<since::DeltaView>) -> json::JsonView {
    match o {
        Some(d) => json::JsonView::Object(
            seq![
                ("line"@, json::integer_view(d.line as u64)),
                ("role"@, json::JsonView::Text(d.role)),
                ("content"@, json::JsonView::Text(d.content)),
                ("char_offset"@, json::integer_view(d.char_offset as u64)),
            ],
        ),
        None => json::JsonView::Null,
    }
}

/// What the new part of a streamed line holds, if there is one.
pub open spec fn opt_delta(o: Option<StreamingLineDelta>) -> Option<since::DeltaView> {
    match o {
        Some(d) => Some(d@),
        None => None,
    }
}

fn delta_value(o: &Option<StreamingLineDelta>) -> (r: Json)
    ensures
        r@ == delta_json(opt_delta(*o)),
{
    match o {
        Some(d) => {
            let mut m: Vec<JsonMember> = json::no_members();
            json::add_member(&mut m, "line", json::integer_value(d.line as u64));
            json::add_member(&mut m, "role", Json::Text(d.role.clone()));
            json::add_member(&mut m, "content", Json::Text(d.content.clone()));
            json::add_member(&mut m, "char_offset", json::integer_value(d.char_offset as u64));
            let r: Json = json::object_value(m);
            proof {
                assert(r@->Object_0 =~= delta_json(Some(d@))->Object_0);
            }
            r
        },
        None => Json::Null,
    }
}

/// The reply to a request for what is new.
pub fn since_reply(result: &ReadMessagesSinceResult) -> (r: Json)
    ensures
        r@ == json::JsonView::Object(
            seq![
                ("messages"@, entries_json(entry::entry_views(result.messages@))),
                ("streaming"@, delta_json(opt_delta(result.streaming))),
                ("total_lines"@, json::integer_view(result.total_lines as u64)),
            ],
        ),
{
    let mut m: Vec<JsonMember> = json::no_members();
    json::add_member(&mut m, "messages", entries_value(&result.messages));
    json::add_member(&mut m, "streaming", delta_value(&result.streaming));
    json::add_member(&mut m, "total_lines", json::integer_value(result.total_lines as u64));
    let r: Json = json::object_value(m);
    proof {
        assert(r@->Object_0 =~= seq![
            ("messages"@, entries_json(entry::entry_views(result.messages@))),
            ("streaming"@, delta_json(opt_delta(result.streaming))),
            ("total_lines"@, json::integer_view(result.total_lines as u64)),
        ]);
    }
    r
}

/// The reply to a request for a page.
pub fn page_reply(page: &PaginatedMessages, total_lines: usize) -> (r: Json)
    ensures
        r@ == json::JsonView::Object(
            seq![
                ("messages"@, entries_json(page@.messages)),
                ("cursor"@, text_or_null(page@.cursor)),
                ("has_more"@, json::JsonView::Bool(page@.has_more)),
                ("total_lines"@, json::integer_view(total_lines as u64)),
            ],
        ),
{
    let mut m: Vec<JsonMember> = json::no_members();
    json::add_member(&mut m, "messages", entries_value(&page.messages));
    json::add_member(&mut m, "cursor", opt_text_value(&page.cursor));
    json::add_member(&mut m, "has_more", Json::Bool(page.has_more));
    json::add_member(&mut m, "total_lines", json::integer_value(total_lines as u64));
    let r: Json = json::object_value(m);
    proof {
        assert(r@->Object_0 =~= seq![
            ("messages"@, entries_json(page@.messages)),
            ("cursor"@, text_or_null(page@.cursor)),
            ("has_more"@, json::JsonView::Bool(page@.has_more)),
            ("total_lines"@, json::integer_view(total_lines as u64)),
        ]);
    }
    r
}

/// The state of a session as the gateway is told it.
#[derive(Debug, PartialEq, Eq)]
pub struct SessionStateResult {
    pub request_id: String,
    pub found: bool,
    pub session_id: String,
    pub status_json: String,
    pub model: String,
    pub provider: String,
    pub workspace_id: String,
    pub ratio: Option<JsonNumber>,
    pub reasoning_effort: String,
    pub temperature: Option<JsonNumber>,
}

/// `o`, or nothing.
pub open spec fn or_nothing(o: Option<String>) -> Seq<char> {
    match o {
        Some(s) => s@,
        None => Seq::empty(),
    }
}

fn or_empty(o: &Option<String>) -> (r: String)
    ensures
        r@ == or_nothing(*o),
{
    match o {
        Some(s) => s.clone(),
        None => nothing(),
    }
}

fn nothing() -> (r: String)
    ensures
        r@ == Seq::<char>::empty(),
{
    let r: String = String::new();
    proof {
        assert(r@ =~= Seq::empty());
    }
    r
}

/// What the gateway is told of the state of a session, of which there is a
/// snapshot or not.
pub fn state_result(
    request_id: &str,
    session_id: &str,
    snapshot: &Option<SessionStateSnapshot>,
) -> (r: SessionStateResult)
    ensures
        r.request_id@ == request_id@,
        r.found == (snapshot is Some),
        match *snapshot {
            Some(s) => r.session_id@ == s.session_id@ && r.status_json@ == s.status_json@
                && r.model@ == or_nothing(s.model) && r.provider@ == or_nothing(s.provider)
                && r.workspace_id@ == or_nothing(s.workspace_id) && metadata::number_view(r.ratio)
                == metadata::number_view(s.ratio) && r.reasoning_effort@ == or_nothing(
                s.reasoning_effort,
            ) && metadata::number_view(r.temperature) == metadata::number_view(s.temperature),
            None => r.session_id@ == session_id@ && r.status_json@.len() == 0 && r.model@.len()
                == 0 && r.provider@.len() == 0 && r.workspace_id@.len() == 0 && r.ratio is None
                && r.reasoning_effort@.len() == 0 && r.temperature is None,
        },
{
    match snapshot {
        Some(s) => SessionStateResult {
            request_id: request_id.to_string(),
            found: true,
            session_id: s.session_id.clone(),
            status_json: s.status_json.clone(),
            model: or_empty(&s.model),
            provider: or_empty(&s.provider),
            workspace_id: or_empty(&s.workspace_id),
            ratio: clone_number(&s.ratio),
            reasoning_effort: or_empty(&s.reasoning_effort),
            temperature: clone_number(&s.temperature),
        },
        None => SessionStateResult {
            request_id: request_id.to_string(),
            found: false,
            session_id: session_id.to_string(),
            status_json: nothing(),
            model: nothing(),
            provider: nothing(),
            workspace_id: nothing(),
            ratio: None,
            reasoning_effort: nothing(),
            temperature: None,
        },
    }
}

/// Who is told of an event of a session: the window that asks for approval is
/// served by the part of the gateway that answers requests.
pub open spec fn target_of(action: Seq<char>) -> Seq<char> {
    if action == "tool_approval_needed"@ {
        HTTP_API@
    } else {
        HTTP_WS@
    }
}

/// See `target_of`.
pub fn relay_target(action: &str) -> (r: &'static str)
    ensures
        r@ == target_of(action@),
{
    if text::same_text(action, "tool_approval_needed") {
        HTTP_API
    } else {
        HTTP_WS
    }
}

/// The intent that tells of an event of a session.
pub fn relay_intent(action: &str, params: Json) -> (r: OutgoingIntent)
    ensures
        r@ == (OutgoingView {
            target: target_of(action@),
            action: action@,
            params: params@,
            is_async: false,
        }),
{
    OutgoingIntent {
        target: relay_target(action).to_string(),
        action: action.to_string(),
        params,
        is_async: false,
    }
}

} // verus!
