//! What is done about an intent, and about a new configuration.

use crate::agent::session::messages::SessionMessage;
use crate::conversation::metadata::clone_number;
use crate::conversation::metadata;
use crate::gateway::config::update_picture;
use crate::gateway::config;
use crate::gateway::intents::IntentRoute;
use crate::json::JsonNumber;
use crate::message::clone_opt;
use crate::text;
use vstd::prelude::*;

verus! {

/// What is told to a session whose loop is running, past the messages that wait
/// for it.
#[derive(Debug, PartialEq, Eq)]
pub enum InboundMessage {
    Stop { reason: String },
    ContinueExecution { reason: String },
    ApprovalDecision {
        request_id: String,
        approved: bool,
        allow_all_session: bool,
        reason: Option<String>,
    },
    QuestionAnswer { request_id: String, answer: String },
}

/// What is done about an intent for a session, in this order.
pub struct IntentPlan {
    /// The session is read from its file, if it is not in memory; where there is
    /// none, nothing else is done.
    pub ensure_in_memory: bool,
    /// What the session is doing is cut off at once.
    pub urgent_stop: bool,
    /// What the running loop is told.
    pub inbound: Option<InboundMessage>,
    /// What the session is told.
    pub message: Option<SessionMessage>,
    /// The session is closed.
    pub close: bool,
    /// The session's file is deleted.
    pub delete_file: bool,
}

/// A plan to do nothing.
pub open spec fn nothing() -> IntentPlan {
    IntentPlan {
        ensure_in_memory: false,
        urgent_stop: false,
        inbound: None,
        message: None,
        close: false,
        delete_file: false,
    }
}

/// What is done about an intent. A running loop is told at once what it waits
/// for; other sessions are told in turn. What is told of a message of the user is
/// made when the session is in memory.
pub open spec fn planned(route: IntentRoute) -> IntentPlan {
    match route {
        IntentRoute::CreateSession { .. } => IntentPlan {
            message: Some(SessionMessage::EnablePush),
            ..nothing()
        },
        IntentRoute::ActivateSession { .. } => IntentPlan {
            ensure_in_memory: true,
            message: Some(SessionMessage::EnablePush),
            ..nothing()
        },
        IntentRoute::DeactivateSession { .. } => IntentPlan {
            message: Some(SessionMessage::DisablePush),
            ..nothing()
        },
        IntentRoute::CloseSession { .. } => IntentPlan {
            message: Some(SessionMessage::DisablePush),
            close: true,
            ..nothing()
        },
        IntentRoute::DeleteSession { .. } => IntentPlan {
            message: Some(SessionMessage::DisablePush),
            close: true,
            delete_file: true,
            ..nothing()
        },
        IntentRoute::UpdateTitle { title, .. } => IntentPlan {
            ensure_in_memory: true,
            message: Some(SessionMessage::UpdateSessionTitle { title }),
            ..nothing()
        },
        IntentRoute::SwitchModel { model, provider, .. } => IntentPlan {
            ensure_in_memory: true,
            message: Some(SessionMessage::ModelSwitch { model, provider }),
            ..nothing()
        },
        IntentRoute::SetEffort { effort, .. } => IntentPlan {
            ensure_in_memory: true,
            message: Some(SessionMessage::ReasoningEffort { effort }),
            ..nothing()
        },
        IntentRoute::Interrupt { reason, .. } => IntentPlan {
            urgent_stop: true,
            inbound: Some(InboundMessage::Stop { reason }),
            ..nothing()
        },
        IntentRoute::ContinueExecution { reason, .. } => IntentPlan {
            inbound: Some(InboundMessage::ContinueExecution { reason }),
            ..nothing()
        },
        IntentRoute::ApprovalDecision { request_id, approved, allow_all_session, reason, .. } => {
            IntentPlan {
                inbound: Some(
                    InboundMessage::ApprovalDecision {
                        request_id,
                        approved,
                        allow_all_session,
                        reason,
                    },
                ),
                ..nothing()
            }
        },
        IntentRoute::QuestionAnswer { request_id, answer, .. } => IntentPlan {
            ensure_in_memory: true,
            inbound: Some(InboundMessage::QuestionAnswer { request_id, answer }),
            ..nothing()
        },
        IntentRoute::CompactContext { .. } => IntentPlan {
            ensure_in_memory: true,
            message: Some(SessionMessage::CompactContext),
            ..nothing()
        },
        IntentRoute::Chat(_) => IntentPlan { ensure_in_memory: true, ..nothing() },
        _ => nothing(),
    }
}

fn no_plan() -> (r: IntentPlan)
    ensures
        r == nothing(),
{
    IntentPlan {
        ensure_in_memory: false,
        urgent_stop: false,
        inbound: None,
        message: None,
        close: false,
        delete_file: false,
    }
}

fn tell(ensure_in_memory: bool, message: SessionMessage) -> (r: IntentPlan)
    ensures
        r == (IntentPlan { ensure_in_memory, message: Some(message), ..nothing() }),
{
    let mut r: IntentPlan = no_plan();
    r.ensure_in_memory = ensure_in_memory;
    r.message = Some(message);
    r
}

fn tell_loop(ensure_in_memory: bool, inbound: InboundMessage) -> (r: IntentPlan)
    ensures
        r == (IntentPlan { ensure_in_memory, inbound: Some(inbound), ..nothing() }),
{
    let mut r: IntentPlan = no_plan();
    r.ensure_in_memory = ensure_in_memory;
    r.inbound = Some(inbound);
    r
}

/// What is done about an intent.
pub fn plan_intent(route: IntentRoute) -> (r: IntentPlan)
    ensures
        r == planned(route),
{
    match route {
        IntentRoute::CreateSession { .. } => tell(false, SessionMessage::EnablePush),
        IntentRoute::ActivateSession { .. } => tell(true, SessionMessage::EnablePush),
        IntentRoute::DeactivateSession { .. } => tell(false, SessionMessage::DisablePush),
        IntentRoute::CloseSession { .. } => {
            let mut r: IntentPlan = tell(false, SessionMessage::DisablePush);
            r.close = true;
            r
        },
        IntentRoute::DeleteSession { .. } => {
            let mut r: IntentPlan = tell(false, SessionMessage::DisablePush);
            r.close = true;
            r.delete_file = true;
            r
        },
        IntentRoute::UpdateTitle { request_id: _, session_id: _, title } => tell(
            true,
            SessionMessage::UpdateSessionTitle { title },
        ),
        IntentRoute::SwitchModel { session_id: _, model, provider } => tell(
            true,
            SessionMessage::ModelSwitch { model, provider },
        ),
        IntentRoute::SetEffort { session_id: _, effort } => tell(
            true,
            SessionMessage::ReasoningEffort { effort },
        ),
        IntentRoute::Interrupt { session_id: _, reason } => {
            let mut r: IntentPlan = tell_loop(false, InboundMessage::Stop { reason });
            r.urgent_stop = true;
            r
        },
        IntentRoute::ContinueExecution { session_id: _, reason } => tell_loop(
            false,
            InboundMessage::ContinueExecution { reason },
        ),
        IntentRoute::ApprovalDecision {
            session_id: _,
            request_id,
            approved,
            allow_all_session,
            reason,
        } => tell_loop(
            false,
            InboundMessage::ApprovalDecision { request_id, approved, allow_all_session, reason },
        ),
        IntentRoute::QuestionAnswer { session_id: _, request_id, answer } => tell_loop(
            true,
            InboundMessage::QuestionAnswer { request_id, answer },
        ),
        IntentRoute::CompactContext { .. } => tell(true, SessionMessage::CompactContext),
        IntentRoute::Chat(_) => {
            let mut r: IntentPlan = no_plan();
            r.ensure_in_memory = true;
            r
        },
        _ => no_plan(),
    }
}

/// Only a request to delete a session deletes its file, and only behind closing
/// it.
pub proof fn files_are_deleted_on_demand(route: IntentRoute)
    ensures
        planned(route).delete_file == (route is DeleteSession),
        planned(route).delete_file ==> planned(route).close,
{
}

/// The agent's own configuration, as far as the runtime writes it.
#[derive(Debug, PartialEq, Eq)]
pub struct AgentConfig {
    pub max_output_tokens: Option<u64>,
    pub max_iterations: Option<u32>,
    pub temperature: Option<JsonNumber>,
    pub system_prompt_override: Option<String>,
    pub shell_approval_threshold: Option<String>,
    pub avatar: Option<String>,
    pub builtin_avatar: Option<String>,
}

/// What the gateway has configured so far.
#[derive(Debug, PartialEq, Eq)]
pub struct ConfiguredOverrides {
    pub max_output_tokens: Option<u64>,
    pub max_iterations: Option<u32>,
    pub temperature: Option<JsonNumber>,
    pub system_prompt_override: Option<String>,
    pub shell_approval_threshold: Option<String>,
}

/// The agent's own configuration to write: what the gateway has configured, and
/// the pictures, which an empty name removes and none leaves as they are.
pub fn updated_agent_config(
    current: AgentConfig,
    overrides: &ConfiguredOverrides,
    avatar: &Option<String>,
    builtin_avatar: &Option<String>,
) -> (r: AgentConfig)
    ensures
        r.max_output_tokens == overrides.max_output_tokens,
        r.max_iterations == overrides.max_iterations,
        metadata::number_view(r.temperature) == metadata::number_view(overrides.temperature),
        text::opt_text(r.system_prompt_override) == text::opt_text(
            overrides.system_prompt_override,
        ),
        text::opt_text(r.shell_approval_threshold) == text::opt_text(
            overrides.shell_approval_threshold,
        ),
        text::opt_text(r.avatar) == config::updated_picture(
            text::opt_text(current.avatar),
            text::opt_text(*avatar),
        ),
        text::opt_text(r.builtin_avatar) == config::updated_picture(
            text::opt_text(current.builtin_avatar),
            text::opt_text(*builtin_avatar),
        ),
{
    AgentConfig {
        max_output_tokens: overrides.max_output_tokens,
        max_iterations: overrides.max_iterations,
        temperature: clone_number(&overrides.temperature),
        system_prompt_override: clone_opt(&overrides.system_prompt_override),
        shell_approval_threshold: clone_opt(&overrides.shell_approval_threshold),
        avatar: update_picture(current.avatar, avatar),
        builtin_avatar: update_picture(current.builtin_avatar, builtin_avatar),
    }
}

} // verus!
