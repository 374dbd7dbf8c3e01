//! Where the gateway's requests lead, and what is done about them.

use crate::agent::session::messages::SessionMessage;
use crate::gateway::intents::IntentRoute;
use crate::gateway::intents;
use crate::gateway::plans::InboundMessage;
use crate::gateway::plans;
use crate::json;
use crate::text;
use vstd::prelude::*;

verus! {

/// The text that a parameter holds.
pub open spec fn given(p: json::JsonView, key: Seq<char>) -> Option<Seq<char>> {
    match p.get(key) {
        Some(json::JsonView::Text(s)) => Some(s),
        _ => None,
    }
}

/// The text that a parameter holds, or another one.
pub open spec fn given_or(p: json::JsonView, key: Seq<char>, other: Seq<char>) -> Seq<char> {
    match given(p, key) {
        Some(s) => s,
        None => other,
    }
}

/// The integer that a parameter holds.
pub open spec fn number(p: json::JsonView, key: Seq<char>) -> Option<u64> {
    match p.get(key) {
        Some(json::JsonView::Number(n, _)) => n,
        _ => None,
    }
}

/// The parameters name a session.
pub open spec fn names_session(p: json::JsonView) -> bool {
    given(p, "session_id"@) is Some && given(p, "session_id"@)->0.len() > 0
}

proof fn lemma_actions()
    ensures
        "list_sessions"@.len() == 13,
        "get_session_messages"@.len() == 20,
        "create_session"@.len() == 14,
        "activate_session"@.len() == 16,
        "deactivate_session"@.len() == 18,
        "close_session"@.len() == 13,
        "delete_session"@.len() == 14,
        "update_session_title"@.len() == 20,
        "model_switch"@.len() == 12,
        "reasoning_effort"@.len() == 16,
        "interrupt"@.len() == 9,
        "continue_execution"@.len() == 18,
        "approval_decision"@.len() == 17,
        "question_answer"@.len() == 15,
        "compact_context"@.len() == 15,
        "list_sessions"@[0] == 'l',
        "close_session"@[0] == 'c',
        "get_session_messages"@[0] == 'g',
        "update_session_title"@[0] == 'u',
        "create_session"@[0] == 'c',
        "delete_session"@[0] == 'd',
        "activate_session"@[0] == 'a',
        "reasoning_effort"@[0] == 'r',
        "deactivate_session"@[0] == 'd',
        "continue_execution"@[0] == 'c',
        "question_answer"@[0] == 'q',
        "compact_context"@[0] == 'c',
{
    reveal_strlit("list_sessions");
    reveal_strlit("get_session_messages");
    reveal_strlit("create_session");
    reveal_strlit("activate_session");
    reveal_strlit("deactivate_session");
    reveal_strlit("close_session");
    reveal_strlit("delete_session");
    reveal_strlit("update_session_title");
    reveal_strlit("model_switch");
    reveal_strlit("reasoning_effort");
    reveal_strlit("interrupt");
    reveal_strlit("continue_execution");
    reveal_strlit("approval_decision");
    reveal_strlit("question_answer");
    reveal_strlit("compact_context");
}

/// The requests that manage sessions lead to what they name, with the parameters that
/// they carry. Those that are about one session are refused where they name none.
pub proof fn management_leads_where_it_says(p: json::JsonView)
    ensures
        ({
            let id = given_or(p, "request_id"@, Seq::empty());
            let sid = given_or(p, "session_id"@, Seq::empty());
            let refused = intents::RouteView::Refuse(id, "Missing or empty session_id parameter"@);
            let title = text::trimmed(given_or(p, "title"@, Seq::empty()));
            &&& intents::route("list_sessions"@, p) == intents::RouteView::ListSessions(
                id,
                match number(p, "page"@) {
                    Some(n) => Some(n as u32),
                    None => None,
                },
                match number(p, "size"@) {
                    Some(n) => Some(n as u32),
                    None => None,
                },
            )
            &&& intents::route("get_session_messages"@, p) == intents::RouteView::GetMessages(
                id,
                sid,
                given(p, "cursor"@),
                match number(p, "limit"@) {
                    Some(n) => n as u32,
                    None => 50,
                },
                given_or(p, "direction"@, "backward"@),
                number(p, "line_number"@),
                number(p, "line_char_offset"@),
            )
            &&& intents::route("create_session"@, p) == intents::RouteView::CreateSession(
                id,
                given(p, "workspace_id"@),
                given(p, "model"@),
                given(p, "provider"@),
            )
            &&& names_session(p) ==> {
                &&& intents::route("activate_session"@, p) == intents::RouteView::ActivateSession(
                    id,
                    sid,
                )
                &&& intents::route("deactivate_session"@, p)
                    == intents::RouteView::DeactivateSession(sid)
                &&& intents::route("close_session"@, p) == intents::RouteView::CloseSession(id, sid)
                &&& intents::route("delete_session"@, p) == intents::RouteView::DeleteSession(
                    id,
                    sid,
                )
                &&& title.len() > 0 ==> intents::route("update_session_title"@, p)
                    == intents::RouteView::UpdateTitle(id, sid, title)
            }
            &&& !names_session(p) ==> {
                &&& intents::route("activate_session"@, p) == refused
                &&& intents::route("deactivate_session"@, p) == intents::RouteView::Ignore
                &&& intents::route("close_session"@, p) == refused
                &&& intents::route("delete_session"@, p) == refused
                &&& title.len() > 0 ==> intents::route("update_session_title"@, p) == refused
            }
            &&& title.len() == 0 ==> intents::route("update_session_title"@, p)
                == intents::RouteView::Refuse(id, "Missing or empty title parameter"@)
        }),
{
    lemma_actions();
}

/// The requests for a session lead to that session with what they carry; those that carry
/// no model or no effort to set, and all that name no session, are passed over.
pub proof fn session_requests_lead_where_they_say(p: json::JsonView)
    ensures
        ({
            let id = given_or(p, "request_id"@, Seq::empty());
            let sid = given_or(p, "session_id"@, Seq::empty());
            &&& names_session(p) ==> {
                &&& intents::route("model_switch"@, p) == (match given(p, "model"@) {
                    Some(m) => intents::RouteView::SwitchModel(sid, m, given(p, "provider"@)),
                    None => intents::RouteView::Ignore,
                })
                &&& intents::route("reasoning_effort"@, p) == (match given(p, "effort"@) {
                    Some(e) => intents::RouteView::SetEffort(sid, e),
                    None => intents::RouteView::Ignore,
                })
                &&& intents::route("interrupt"@, p) == intents::RouteView::Interrupt(
                    sid,
                    given_or(p, "reason"@, "unknown"@),
                )
                &&& intents::route("continue_execution"@, p)
                    == intents::RouteView::ContinueExecution(
                    sid,
                    given_or(p, "reason"@, "user_requested"@),
                )
                &&& intents::route("approval_decision"@, p) == intents::RouteView::ApprovalDecision(
                    sid,
                    id,
                    p.get("approved"@) == Some(json::JsonView::Bool(true)),
                    p.get("allow_all_session"@) == Some(json::JsonView::Bool(true)),
                    given(p, "reason"@),
                )
                &&& intents::route("question_answer"@, p) == intents::RouteView::QuestionAnswer(
                    sid,
                    id,
                    given_or(p, "answer"@, Seq::empty()),
                )
                &&& intents::route("compact_context"@, p) == intents::RouteView::CompactContext(sid)
            }
            &&& !names_session(p) ==> {
                &&& intents::route("model_switch"@, p) == intents::RouteView::Ignore
                &&& intents::route("reasoning_effort"@, p) == intents::RouteView::Ignore
                &&& intents::route("interrupt"@, p) == intents::RouteView::Ignore
                &&& intents::route("continue_execution"@, p) == intents::RouteView::Ignore
                &&& intents::route("approval_decision"@, p) == intents::RouteView::Ignore
                &&& intents::route("question_answer"@, p) == intents::RouteView::Ignore
                &&& intents::route("compact_context"@, p) == intents::RouteView::Ignore
            }
        }),
{
    lemma_actions();
}

/// Every other action carries a message of the user to the session that it names.
pub proof fn other_actions_are_messages(action: Seq<char>, p: json::JsonView)
    requires
        !seq![
            "list_sessions"@,
            "get_session_messages"@,
            "create_session"@,
            "activate_session"@,
            "deactivate_session"@,
            "close_session"@,
            "delete_session"@,
            "update_session_title"@,
            "model_switch"@,
            "reasoning_effort"@,
            "interrupt"@,
            "continue_execution"@,
            "approval_decision"@,
            "question_answer"@,
            "compact_context"@,
        ].contains(action),
    ensures
        intents::route(action, p) == (if names_session(p) {
            intents::RouteView::Chat(
                given(p, "session_id"@)->0,
                given_or(p, "content"@, Seq::empty()),
                given(p, "message_id"@),
                match p.get("documents"@) {
                    Some(json::JsonView::Array(a)) => Some(a),
                    _ => None,
                },
                p.get("content_parts"@),
                p.get("attached_context"@),
            )
        } else {
            intents::RouteView::Ignore
        }),
{
    let all = seq![
        "list_sessions"@,
        "get_session_messages"@,
        "create_session"@,
        "activate_session"@,
        "deactivate_session"@,
        "close_session"@,
        "delete_session"@,
        "update_session_title"@,
        "model_switch"@,
        "reasoning_effort"@,
        "interrupt"@,
        "continue_execution"@,
        "approval_decision"@,
        "question_answer"@,
        "compact_context"@,
    ];
    assert(all[0] != action);
    assert(all[1] != action);
    assert(all[2] != action);
    assert(all[3] != action);
    assert(all[4] != action);
    assert(all[5] != action);
    assert(all[6] != action);
    assert(all[7] != action);
    assert(all[8] != action);
    assert(all[9] != action);
    assert(all[10] != action);
    assert(all[11] != action);
    assert(all[12] != action);
    assert(all[13] != action);
    assert(all[14] != action);
}

/// What the user decides reaches the session as it was decided: an interruption stops the
/// loop at once, and the loop is told what it waits for; models, efforts, titles and
/// the wish to compact are told in turn.
pub proof fn decisions_reach_the_session(route: IntentRoute)
    ensures
        ({
            let p = plans::planned(route);
            &&& p.urgent_stop == (route is Interrupt)
            &&& p.close == (route is CloseSession || route is DeleteSession)
            &&& p.ensure_in_memory == (route is ActivateSession || route is UpdateTitle
                || route is SwitchModel || route is SetEffort || route is QuestionAnswer
                || route is CompactContext || route is Chat)
            &&& p.message == (match route {
                IntentRoute::CreateSession { .. } => Some(SessionMessage::EnablePush),
                IntentRoute::ActivateSession { .. } => Some(SessionMessage::EnablePush),
                IntentRoute::DeactivateSession { .. } => Some(SessionMessage::DisablePush),
                IntentRoute::CloseSession { .. } => Some(SessionMessage::DisablePush),
                IntentRoute::DeleteSession { .. } => Some(SessionMessage::DisablePush),
                IntentRoute::UpdateTitle { title, .. } => Some(
                    SessionMessage::UpdateSessionTitle { title },
                ),
                IntentRoute::SwitchModel { model, provider, .. } => Some(
                    SessionMessage::ModelSwitch { model, provider },
                ),
                IntentRoute::SetEffort { effort, .. } => Some(
                    SessionMessage::ReasoningEffort { effort },
                ),
                IntentRoute::CompactContext { .. } => Some(SessionMessage::CompactContext),
                _ => None,
            })
            &&& p.inbound == (match route {
                IntentRoute::Interrupt { reason, .. } => Some(InboundMessage::Stop { reason }),
                IntentRoute::ContinueExecution { reason, .. } => Some(
                    InboundMessage::ContinueExecution { reason },
                ),
                IntentRoute::ApprovalDecision {
                    request_id,
                    approved,
                    allow_all_session,
                    reason,
                    ..
                } => Some(
                    InboundMessage::ApprovalDecision {
                        request_id,
                        approved,
                        allow_all_session,
                        reason,
                    },
                ),
                IntentRoute::QuestionAnswer { request_id, answer, .. } => Some(
                    InboundMessage::QuestionAnswer { request_id, answer },
                ),
                _ => None,
            })
        }),
{
}

} // verus!
