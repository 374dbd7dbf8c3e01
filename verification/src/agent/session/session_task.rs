//! One session at work: what each message to it changes, and what is to be done
//! then.

use crate::agent::agent_core::{
    AgentCore, ModelCapabilities, ProviderAccess, SharedProviders, ShellApprovalThreshold,
};
use crate::agent::agent_core;
use crate::agent::history::ProtocolType;
use crate::agent::history;
use crate::agent::session::attachments::{
    build_attached_context_blocks, build_document_blocks, documents_to_extract, enrich_message,
    AttachedContextItem, DocumentRef, Extraction,
};
use crate::agent::session::attachments;
use crate::agent::session::messages::SessionMessage;
use crate::agent::session_core::SessionCore;
use crate::agent::session_core;
use crate::agent::session_state::SessionState;
use crate::agent::session_state;
use crate::conversation::metadata::{clone_number, SessionMetadata};
use crate::conversation::metadata;
use crate::conversation::session;
use crate::json::{Json, JsonNumber};
use crate::json;
use crate::message::{clone_opt, ChatMessage, ContentPart, MessageRole};
use crate::message;
use crate::providers::types::ReasoningEffort;
use crate::providers::types;
use crate::text;
use vstd::prelude::*;

verus! {

/// What the prompts of a session are built from.
#[derive(Debug, PartialEq, Eq)]
pub struct ContextSettings {
    /// The model to ask.
    pub override_model: Option<String>,
    /// What is known of the user.
    pub identity_context: Option<String>,
    /// What is known of the workspace.
    pub workspace_context: Option<String>,
    /// The workspace's own instructions.
    pub workspace_prompt_file: Option<String>,
    /// The instructions of the skill that was chosen for the message.
    pub skill_instructions: Option<String>,
}

/// A message of the user.
#[derive(Debug, PartialEq, Eq)]
pub struct UserTurn {
    pub content: String,
    pub message_id: String,
}

/// What was configured for the sessions that are to come.
#[derive(Debug, PartialEq, Eq)]
pub struct RuntimeConfigOverrides {
    pub max_output_tokens: Option<u64>,
    pub max_iterations: Option<u32>,
    pub temperature: Option<JsonNumber>,
    pub system_prompt_override: Option<String>,
    /// What the configured text is read as. A text that names no threshold is read as
    /// the default one.
    pub shell_approval_threshold: Option<ShellApprovalThreshold>,
}

/// A session at work.
#[derive(Debug, PartialEq, Eq)]
pub struct SessionTask {
    pub core: AgentCore,
    pub session_core: SessionCore,
    pub session: SessionState,
    pub context: ContextSettings,
    /// The last message of the user, to be answered again on demand.
    pub last_user_message: Option<UserTurn>,
}

/// How far the debugger lets a session run.
#[derive(Clone, Copy, Debug, PartialEq, Eq, Structural)]
pub enum DebugState {
    Running,
    Stepping,
    Paused,
    Stopped,
}

/// What is known of a resumed session's use of its model's window.
#[derive(Debug, PartialEq, Eq)]
pub struct ContextUsageSeed {
    pub capabilities: ModelCapabilities,
    pub input_tokens: u64,
    pub output_tokens: u64,
    pub max_output_tokens: u64,
}

/// What is to be done when the model was switched.
#[derive(Debug, PartialEq, Eq)]
pub struct ModelSwitched {
    /// The metadata to write, where the session has a file.
    pub metadata: Option<SessionMetadata>,
    /// The provider to use from now on, where it was switched and is known.
    pub provider: Option<ProviderAccess>,
    /// The reasoning effort from now on.
    pub effort: Option<ReasoningEffort>,
}

/// Where a prompt is built without a model's name.
pub const UNKNOWN_MODEL: &'static str = "unknown";

/// The model for which a history is compacted, unless one was chosen.
pub const DEFAULT_MODEL: &'static str = "default";

/// `o`, or `default`.
pub open spec fn text_or(o: Option<Seq<char>>, default: Seq<char>) -> Seq<char> {
    match o {
        Some(s) => s,
        None => default,
    }
}

/// The reasoning effort of a model that is not told how much to think: what it
/// does by itself, or what it sees fit where it can be told, or none.
pub open spec fn default_effort(o: Option<agent_core::ModelItem>) -> Option<ReasoningEffort> {
    match o {
        Some(m) => if m.capabilities.default_reasoning_effort is Some {
            m.capabilities.default_reasoning_effort
        } else if m.capabilities.supports_reasoning == Some(true) {
            Some(ReasoningEffort::Auto)
        } else {
            None
        },
        None => None,
    }
}

fn effort_of(o: &Option<ModelCapabilities>) -> (r: Option<ReasoningEffort>)
    ensures
        r == (match *o {
            Some(c) => if c.default_reasoning_effort is Some {
                c.default_reasoning_effort
            } else if c.supports_reasoning == Some(true) {
                Some(ReasoningEffort::Auto)
            } else {
                None
            },
            None => None,
        }),
{
    match o {
        Some(c) => if c.default_reasoning_effort.is_some() {
            c.default_reasoning_effort
        } else {
            match c.supports_reasoning {
                Some(true) => Some(ReasoningEffort::Auto),
                _ => None,
            }
        },
        None => None,
    }
}

/// There is nothing in the message.
pub open spec fn says_nothing(
    content: Seq<char>,
    documents: Option<Vec<Json>>,
    parts: Option<Vec<ContentPart>>,
    attached: Option<Vec<AttachedContextItem>>,
) -> bool {
    &&& text::trimmed(content).len() == 0
    &&& documents matches Some(d) ==> d@.len() == 0
    &&& parts matches Some(p) ==> p@.len() == 0
    &&& attached matches Some(a) ==> a@.len() == 0
}

/// The documents of a message.
pub open spec fn uploaded(documents: Option<Vec<Json>>) -> Seq<(Seq<char>, Seq<char>, Seq<char>)> {
    match documents {
        Some(d) => attachments::documents_of(json::views(d@), d@.len() as int),
        None => Seq::empty(),
    }
}

/// What is said of the files of a message.
pub open spec fn attached_hints(attached: Option<Vec<AttachedContextItem>>) -> Seq<Seq<char>> {
    match attached {
        Some(a) => attachments::attachment_hints(a@, a@.len() as int),
        None => Seq::empty(),
    }
}

/// What stands before a notification in the history.
pub const NOTIFICATION_PREFIX: &'static str = "[System Notification] ";

impl SessionTask {
    /// A session at work on a copy of the agent's core, and on the providers that
    /// all sessions share. The provider to use is returned, unless it is the agent's
    /// own.
    pub fn new(
        core: AgentCore,
        shared: &mut SharedProviders,
        session_core: SessionCore,
        session: SessionState,
        mcp_tools: Option<Vec<String>>,
        overrides: RuntimeConfigOverrides,
        initial_work_dir: Option<String>,
    ) -> (r: (Self, Option<ProviderAccess>))
        ensures
            r.0.core.tools == core.tools,
            r.0.core.mcp_tools == mcp_tools,
            r.0.core.all_tools@ == (match mcp_tools {
                Some(t) => core.tools@ + t@,
                None => core.tools@,
            }),
            r.0.core.max_iterations == (match overrides.max_iterations {
                Some(n) => n,
                None => core.max_iterations,
            }),
            match overrides.max_output_tokens {
                Some(limit) => agent_core::all_limited(
                    old(shared).global_provider_list@,
                    final(shared).global_provider_list@,
                    limit,
                ),
                None => *final(shared) == *old(shared),
            },
            final(shared).provider_key_vault == old(shared).provider_key_vault,
            r.0.core.history_max_tokens == core.history_max_tokens,
            r.0.core.temperature_override == (if overrides.temperature is Some {
                overrides.temperature
            } else {
                core.temperature_override
            }),
            r.0.core.system_prompt_override == (if overrides.system_prompt_override is Some {
                overrides.system_prompt_override
            } else {
                core.system_prompt_override
            }),
            r.0.core.shell_approval_threshold == (match overrides.shell_approval_threshold {
                Some(t) => t,
                None => core.shell_approval_threshold,
            }),
            r.0.session@ == (session_state::StateView {
                temperature: match r.0.core.temperature_override {
                    Some(t) => Some((t.unsigned, t.literal@)),
                    None => session@.temperature,
                },
                ..session@
            }),
            r.0.session_core == (if initial_work_dir is Some {
                SessionCore { current_work_dir: initial_work_dir, ..session_core }
            } else {
                session_core
            }),
            r.0.context == no_settings(),
            r.0.last_user_message is None,
            match session@.provider {
                Some(id) => agent_core::is_access(*old(shared), id, r.1),
                None => r.1 is None,
            },
    {
        let mut core: AgentCore = core;
        core.update_mcp_tools(mcp_tools);
        let provider: Option<ProviderAccess> = match session.provider() {
            Some(id) => core.build_provider_for(&*shared, id),
            None => None,
        };
        core.apply_runtime_config(
            shared,
            overrides.max_output_tokens,
            overrides.max_iterations,
            overrides.temperature,
            overrides.system_prompt_override,
            overrides.shell_approval_threshold,
        );
        let mut session: SessionState = session;
        if core.temperature_override.is_some() {
            session.set_temperature(clone_number(&core.temperature_override));
        }
        let mut session_core: SessionCore = session_core;
        if initial_work_dir.is_some() {
            session_core.current_work_dir = initial_work_dir;
        }
        let task: SessionTask = SessionTask {
            core,
            session_core,
            session,
            context: ContextSettings {
                override_model: None,
                identity_context: None,
                workspace_context: None,
                workspace_prompt_file: None,
                skill_instructions: None,
            },
            last_user_message: None,
        };
        (task, provider)
    }

    /// Prepares the session for its first message. What is known of a resumed
    /// session's use of its model's window is returned, where its model is known.
    pub fn start(
        &mut self,
        shared: &SharedProviders,
        identity_context: Option<String>,
        protocol_type: ProtocolType,
    ) -> (r: Option<ContextUsageSeed>)
        ensures
            *final(self) == (SessionTask {
                session: final(self).session,
                context: final(self).context,
                ..*old(self)
            }),
            final(self).session@ == (session_state::StateView {
                identity_context: text::opt_text(identity_context),
                history: history::HistoryView { protocol_type, ..old(self).session@.history },
                ..old(self).session@
            }),
            text::opt_text(final(self).context.identity_context) == text::opt_text(
                identity_context,
            ),
            text::opt_text(final(self).context.override_model) == (match old(self).session@.model {
                Some(m) => Some(m),
                None => text::opt_text(old(self).context.override_model),
            }),
            final(self).context.workspace_context == old(self).context.workspace_context,
            final(self).context.workspace_prompt_file == old(self).context.workspace_prompt_file,
            final(self).context.skill_instructions == old(self).context.skill_instructions,
            ({
                let model = agent_core::model_of(
                    shared.global_provider_list@,
                    text_or(old(self).session@.model, UNKNOWN_MODEL@),
                );
                match (old(self).session@.conversation, model) {
                    (Some(c), Some(m)) => match c.last_tokens {
                        Some(t) => r == Some(
                            ContextUsageSeed {
                                capabilities: m.capabilities,
                                input_tokens: t.0,
                                output_tokens: t.1,
                                max_output_tokens: m.max_output_tokens_limit,
                            },
                        ),
                        None => r is None,
                    },
                    _ => r is None,
                }
            }),
    {
        self.context.identity_context = clone_opt(&identity_context);
        self.session.set_identity_context(identity_context);
        if let Some(m) = self.session.model() {
            self.context.override_model = Some(m.to_string());
        }
        self.session.history_mut().set_protocol_type(protocol_type);
        let tokens: Option<(u64, u64)> = match self.session.conversation() {
            Some(c) => c.last_tokens(),
            None => None,
        };
        let model: &str = match self.session.model() {
            Some(m) => m,
            None => UNKNOWN_MODEL,
        };
        match (tokens, self.core.get_model_capabilities(shared, model)) {
            (Some((input_tokens, output_tokens)), Some(capabilities)) => Some(
                ContextUsageSeed {
                    capabilities,
                    input_tokens,
                    output_tokens,
                    max_output_tokens: self.core.max_output_tokens_limit_for_model(shared, model),
                },
            ),
            _ => None,
        }
    }
}

/// Settings with nothing in them.
pub open spec fn no_settings() -> ContextSettings {
    ContextSettings {
        override_model: None,
        identity_context: None,
        workspace_context: None,
        workspace_prompt_file: None,
        skill_instructions: None,
    }
}

/// `b` is `a` after a message of the user, of which `r` are the documents to
/// extract first. A message with nothing in it is ignored.
pub open spec fn chat_taken(
    a: SessionTask,
    b: SessionTask,
    content: Seq<char>,
    message_id: Seq<char>,
    documents: Option<Vec<Json>>,
    parts: Option<Vec<ContentPart>>,
    attached: Option<Vec<AttachedContextItem>>,
    r: Option<Vec<DocumentRef>>,
) -> bool {
    &&& if says_nothing(content, documents, parts, attached) {
        r is None && b == a
    } else {
        &&& r matches Some(d) && attachments::document_views(d@) == uploaded(documents)
        &&& b == (SessionTask {
            last_user_message: b.last_user_message,
            ..a
        })
        &&& b.last_user_message matches Some(turn) && turn.content@ == content
            && turn.message_id@ == message_id
    }
}

/// The name of a reasoning effort, where there is one.
pub open spec fn effort_name(effort: Option<ReasoningEffort>) -> Option<Seq<char>> {
    match effort {
        Some(e) => Some(types::effort_text(e)),
        None => None,
    }
}

/// `b` is `a` after the model was switched, and `r` what is to be done then. What
/// the user had chosen for the model before is forgotten, in the file too.
pub open spec fn model_switched(
    a: SessionTask,
    b: SessionTask,
    shared: SharedProviders,
    model: Seq<char>,
    provider: Option<Seq<char>>,
    r: ModelSwitched,
) -> bool {
    &&& b == (SessionTask {
        session: b.session,
        context: ContextSettings {
            override_model: b.context.override_model,
            ..a.context
        },
        ..a
    })
    &&& text::opt_text(b.context.override_model) == Some(model)
    &&& r.effort == default_effort(
        agent_core::model_of(shared.global_provider_list@, model),
    )
    &&& match provider {
        Some(id) => agent_core::is_access(shared, id, r.provider),
        None => r.provider is None,
    }
    &&& b.session@ == (session_state::StateView {
        model: Some(model),
        provider: match provider {
            Some(p) => Some(p),
            None => a.session@.provider,
        },
        history: history::HistoryView {
            model_name: Some(model),
            ..a.session@.history
        },
        conversation: match a.session@.conversation {
            Some(c) => Some(
                session::SessionView {
                    model: Some(model),
                    provider,
                    reasoning_effort: effort_name(r.effort),
                    ..c
                },
            ),
            None => None,
        },
        reasoning_effort: r.effort,
        ..a.session@
    })
    &&& match b.session@.conversation {
        Some(c) => r.metadata matches Some(m) && session::is_metadata_of(c, m@),
        None => r.metadata is None,
    }
}

/// `b` is `a` after the reasoning effort was noted in the session's file, and `r`
/// the metadata to write, where there is a file.
pub open spec fn effort_recorded(
    a: SessionTask,
    b: SessionTask,
    effort: Option<Seq<char>>,
    r: Option<SessionMetadata>,
) -> bool {
    &&& b == (SessionTask { session: b.session, ..a })
    &&& b.session@ == (session_state::StateView {
        conversation: match a.session@.conversation {
            Some(c) => Some(
                session::SessionView { reasoning_effort: effort, ..c },
            ),
            None => None,
        },
        ..a.session@
    })
    &&& match b.session@.conversation {
        Some(c) => r matches Some(m) && session::is_metadata_of(c, m@),
        None => r is None,
    }
}

/// `b` is `a` after the user chose a reasoning effort, and `r` the metadata to
/// write, where the session has a file.
pub open spec fn effort_set(
    a: SessionTask,
    b: SessionTask,
    effort: Seq<char>,
    parsed: Option<ReasoningEffort>,
    r: Option<SessionMetadata>,
) -> bool {
    &&& b == (SessionTask { session: b.session, ..a })
    &&& b.session@ == (session_state::StateView {
        reasoning_effort: parsed,
        conversation: match a.session@.conversation {
            Some(c) => Some(
                session::SessionView { reasoning_effort: Some(effort), ..c },
            ),
            None => None,
        },
        ..a.session@
    })
    &&& match b.session@.conversation {
        Some(c) => r matches Some(m) && session::is_metadata_of(c, m@),
        None => r is None,
    }
}

/// `b` is `a` after it was told what is known of the user. An empty text says
/// that nothing is.
pub open spec fn identity_set(
    a: SessionTask,
    b: SessionTask,
    identity_context: Option<Seq<char>>,
) -> bool {
    &&& b == (SessionTask {
        session: b.session,
        context: ContextSettings {
            identity_context: b.context.identity_context,
            ..a.context
        },
        ..a
    })
    &&& ({
        let next = text_or(identity_context, Seq::empty());
        &&& text::opt_text(b.context.identity_context) == Some(next)
        &&& b.session@ == (session_state::StateView {
            identity_context: if next.len() == 0 {
                None
            } else {
                Some(next)
            },
            ..a.session@
        })
    })
}

/// `b` is `a` after the user gave the session a title, and `r` the metadata to
/// write, where the session has a file and that is not its title already.
pub open spec fn title_set(
    a: SessionTask,
    b: SessionTask,
    title: Seq<char>,
    r: Option<SessionMetadata>,
) -> bool {
    &&& b == (SessionTask { session: b.session, ..a })
    &&& match a.session@.conversation {
        Some(c) => if c.title == Some(title) {
            b.session@ == a.session@ && r is None
        } else {
            let d = session::SessionView {
                title_set: true,
                title: Some(session::cut_title(title)),
                ..c
            };
            &&& b.session@ == (session_state::StateView {
                conversation: Some(d),
                ..a.session@
            })
            &&& r matches Some(m) && session::is_metadata_of(d, m@)
        },
        None => b.session@ == a.session@ && r is None,
    }
}

/// `b` is `a` after the workspace was chosen, and `r` the metadata to write,
/// where the session has a file.
pub open spec fn workspace_set(
    a: SessionTask,
    b: SessionTask,
    workspace_id: Seq<char>,
    r: Option<SessionMetadata>,
) -> bool {
    &&& b == (SessionTask { session: b.session, ..a })
    &&& b.session@ == (session_state::StateView {
        conversation: match a.session@.conversation {
            Some(c) => Some(
                session::SessionView { workspace_id: Some(workspace_id), ..c },
            ),
            None => None,
        },
        ..a.session@
    })
    &&& match b.session@.conversation {
        Some(c) => r matches Some(m) && session::is_metadata_of(c, m@),
        None => r is None,
    }
}

/// `b` is `a` after a notification of `tokens` tokens, which is put into a history
/// that is not empty. `r` says whether it was.
pub open spec fn notified(
    a: SessionTask,
    b: SessionTask,
    content: Seq<char>,
    tokens: u64,
    r: bool,
) -> bool {
    &&& b == (SessionTask { session: b.session, ..a })
    &&& r == (a.session@.history.messages.len() > 0)
    &&& b.session@ == (if r {
        session_state::StateView {
            history: history::HistoryView {
                messages: a.session@.history.messages.push(
                    message::plain_message(
                        MessageRole::User,
                        NOTIFICATION_PREFIX@ + content,
                    ),
                ),
                current_tokens: (a.session@.history.current_tokens
                    + tokens) as u64,
                ..a.session@.history
            },
            ..a.session@
        }
    } else {
        a.session@
    })
}

/// What an optional text holds.
pub open spec fn opt_str(o: Option<&str>) -> Option<Seq<char>> {
    match o {
        Some(s) => Some(s@),
        None => None,
    }
}

impl SessionTask {
    /// The message to answer again when the debugger lets an idle session run on.
    pub fn on_debug_resume(&self, state: DebugState) -> (r: Option<&UserTurn>)
        ensures
            match self.last_user_message {
                Some(turn) => if state == DebugState::Running || state == DebugState::Stepping {
                    r == Some(&turn)
                } else {
                    r is None
                },
                None => r is None,
            },
    {
        match state {
            DebugState::Running | DebugState::Stepping => match &self.last_user_message {
                Some(turn) => Some(turn),
                None => None,
            },
            _ => None,
        }
    }

    /// Takes up a message of the user, and gives the documents to extract first.
    /// A message with nothing in it is ignored.
    pub fn on_chat_message(
        &mut self,
        content: &str,
        message_id: &str,
        documents: &Option<Vec<Json>>,
        parts: &Option<Vec<ContentPart>>,
        attached: &Option<Vec<AttachedContextItem>>,
    ) -> (r: Option<Vec<DocumentRef>>)
        ensures
            chat_taken(*old(self), *final(self), content@, message_id@, *documents, *parts, *attached, r),
    {
        let bare: String = text::trim(content);
        let no_documents: bool = match documents {
            Some(d) => d.len() == 0,
            None => true,
        };
        let no_parts: bool = match parts {
            Some(p) => p.len() == 0,
            None => true,
        };
        let none_attached: bool = match attached {
            Some(a) => a.len() == 0,
            None => true,
        };
        if bare.as_str().is_empty() && no_documents && no_parts && none_attached {
            return None;
        }
        self.last_user_message = Some(
            UserTurn { content: content.to_string(), message_id: message_id.to_string() },
        );
        match documents {
            Some(d) => Some(documents_to_extract(d)),
            None => {
                let none: Vec<DocumentRef> = Vec::new();
                proof {
                    assert(attachments::document_views(none@) =~= Seq::empty());
                }
                Some(none)
            },
        }
    }

    /// The message to hand to the model, with what was attached to it. The
    /// instructions of the skill that was chosen for it, if one was, replace those
    /// of the message before.
    pub fn prepare_turn(
        &mut self,
        content: &str,
        documents: &Vec<DocumentRef>,
        extracted: &Vec<Extraction>,
        attached: &Option<Vec<AttachedContextItem>>,
        skill_instructions: Option<String>,
    ) -> (r: String)
        requires
            documents@.len() == extracted@.len(),
        ensures
            r@ == attachments::enriched(
                content@,
                attachments::document_blocks(documents@, extracted@),
                attached_hints(*attached),
            ),
            *final(self) == (SessionTask {
                context: ContextSettings { skill_instructions, ..old(self).context },
                ..*old(self)
            }),
    {
        self.context.skill_instructions = skill_instructions;
        let blocks: Vec<String> = build_document_blocks(documents, extracted);
        let hints: Vec<String> = match attached {
            Some(a) => build_attached_context_blocks(a),
            None => {
                let none: Vec<String> = Vec::new();
                proof {
                    assert(text::texts(none@) =~= Seq::empty());
                }
                none
            },
        };
        enrich_message(content, &blocks, &hints)
    }

    /// The state of the debugger after a message of the user: a pause ends, a step
    /// stays a step.
    pub fn auto_resumed(state: DebugState) -> (r: Option<DebugState>)
        ensures
            r == (if state == DebugState::Paused || state == DebugState::Stopped {
                Some(DebugState::Running)
            } else {
                None
            }),
    {
        match state {
            DebugState::Paused | DebugState::Stopped => Some(DebugState::Running),
            _ => None,
        }
    }

    /// Switches the model, and the provider where one is named. The reasoning
    /// effort goes back to that of the new model, in the session's file too.
    pub fn on_model_switch(
        &mut self,
        shared: &SharedProviders,
        model: &str,
        provider: Option<&str>,
    ) -> (r: ModelSwitched)
        ensures
            model_switched(*old(self), *final(self), *shared, model@, opt_str(provider), r),
    {
        self.session.set_model(model.to_string());
        if let Some(p) = provider {
            self.session.set_provider(p.to_string());
        }
        let access: Option<ProviderAccess> = match provider {
            Some(id) => self.core.build_provider_for(shared, id),
            None => None,
        };
        self.context.override_model = Some(model.to_string());
        let effort: Option<ReasoningEffort> = effort_of(
            &self.core.get_model_capabilities(shared, model),
        );
        self.session.set_reasoning_effort(effort);
        let name: Option<String> = match effort {
            Some(e) => Some(e.name().to_string()),
            None => None,
        };
        let metadata: Option<SessionMetadata> = match self.session.conversation_mut() {
            Some(c) => {
                c.update_model_provider(model, provider);
                Some(c.update_reasoning_effort(name))
            },
            None => None,
        };
        ModelSwitched { metadata, provider: access, effort }
    }

    /// Notes the reasoning effort in the session's file, and gives the metadata
    /// to write, where the session has a file.
    pub fn record_reasoning_effort(&mut self, effort: Option<String>) -> (r: Option<
        SessionMetadata,
    >)
        ensures
            effort_recorded(*old(self), *final(self), text::opt_text(effort), r),
    {
        match self.session.conversation_mut() {
            Some(c) => Some(c.update_reasoning_effort(effort)),
            None => None,
        }
    }

    /// Sets the reasoning effort that the user chose. `parsed` is what `effort`
    /// means, if it means anything.
    pub fn on_reasoning_effort(
        &mut self,
        effort: String,
        parsed: Option<ReasoningEffort>,
    ) -> (r: Option<SessionMetadata>)
        ensures
            effort_set(*old(self), *final(self), effort@, parsed, r),
    {
        self.session.set_reasoning_effort(parsed);
        self.record_reasoning_effort(Some(effort))
    }

    /// Sets what is known of the workspace.
    pub fn on_update_workspace_context(&mut self, context_text: String)
        ensures
            *final(self) == (SessionTask {
                context: ContextSettings {
                    workspace_context: Some(context_text),
                    ..old(self).context
                },
                ..*old(self)
            }),
    {
        self.context.workspace_context = Some(context_text);
    }

    /// Sets the workspace's own instructions.
    pub fn on_set_workspace_prompt_file(&mut self, content: Option<String>)
        ensures
            *final(self) == (SessionTask {
                context: ContextSettings { workspace_prompt_file: content, ..old(self).context },
                ..*old(self)
            }),
    {
        self.context.workspace_prompt_file = content;
    }

    /// Sets what is known of the user. An empty text says that nothing is.
    pub fn on_update_identity_context(&mut self, identity_context: Option<String>)
        ensures
            identity_set(*old(self), *final(self), text::opt_text(identity_context)),
    {
        let next: String = match identity_context {
            Some(s) => s,
            None => {
                let none: String = String::new();
                proof {
                    assert(none@ =~= Seq::empty());
                }
                none
            },
        };
        self.context.identity_context = Some(next.clone());
        self.session.set_identity_context(
            if next.as_str().is_empty() {
                None
            } else {
                Some(next)
            },
        );
    }

    /// Sets the title that the user gave, and gives the metadata to write, where
    /// the session has a file and that is not its title already.
    pub fn on_update_session_title(&mut self, title: &str) -> (r: Option<SessionMetadata>)
        ensures
            title_set(*old(self), *final(self), title@, r),
    {
        match self.session.conversation_mut() {
            Some(c) => c.update_title_force(title),
            None => None,
        }
    }

    /// Sets the workspace, and gives the metadata to write, where the session has
    /// a file.
    pub fn on_set_workspace_id(&mut self, workspace_id: &str) -> (r: Option<SessionMetadata>)
        ensures
            workspace_set(*old(self), *final(self), workspace_id@, r),
    {
        match self.session.conversation_mut() {
            Some(c) => Some(c.update_workspace_id(workspace_id)),
            None => None,
        }
    }

    /// Sets where tools work.
    pub fn on_set_work_dir(&mut self, path: String)
        ensures
            *final(self) == (SessionTask {
                session_core: SessionCore {
                    current_work_dir: Some(path),
                    ..old(self).session_core
                },
                ..*old(self)
            }),
    {
        self.session_core.current_work_dir = Some(path);
    }

    /// The model for which the history is compacted when the user asks for it.
    pub fn compaction_model(&self) -> (r: String)
        ensures
            r@ == text_or(self.session@.model, DEFAULT_MODEL@),
    {
        match self.session.model() {
            Some(m) => m.to_string(),
            None => DEFAULT_MODEL.to_string(),
        }
    }

    /// Puts a notification into the history, where that is not empty. The message
    /// counts for `tokens` tokens. Whether it was put in is returned.
    pub fn on_system_notification(&mut self, content: &str, tokens: u64) -> (r: bool)
        requires
            old(self).session@.history.current_tokens + tokens <= u64::MAX,
        ensures
            notified(*old(self), *final(self), content@, tokens, r),
    {
        if self.session.history().is_empty() {
            return false;
        }
        let mut said: String = NOTIFICATION_PREFIX.to_string();
        said.append(content);
        self.session.history_mut().append(ChatMessage::user(said), tokens);
        true
    }

    /// Lets the session tell of new data, or not.
    pub fn on_push(&mut self, enabled: bool)
        ensures
            *final(self) == (SessionTask {
                session_core: SessionCore { notify_enabled: enabled, ..old(self).session_core },
                ..*old(self)
            }),
    {
        self.session_core.notify_enabled = enabled;
    }

    /// Whether the memory has to be embedded anew: it has another dimension.
    pub fn needs_migration(store_dimension: Option<usize>, new_dimension: usize) -> (r: bool)
        ensures
            r == (store_dimension matches Some(d) && d != new_dimension),
    {
        match store_dimension {
            Some(d) => d != new_dimension,
            None => false,
        }
    }
}

/// What is found out outside before a message is handled.
#[derive(Debug, PartialEq, Eq)]
pub struct Readings {
    /// The reasoning effort that the message names, if it names one.
    pub effort: Option<ReasoningEffort>,
    /// The threshold that the message's text is read as, where it has one. A text that
    /// names none is read as the default threshold.
    pub threshold: ShellApprovalThreshold,
    /// The dimension of the memory's embeddings, if there is a memory.
    pub store_dimension: Option<usize>,
    /// How many tokens a notification takes.
    pub notification_tokens: u64,
}

/// What is to be done about a message.
pub enum TaskStep {
    /// Nothing.
    Rest,
    /// Extract the documents, and answer the message.
    Answer {
        content: String,
        message_id: String,
        skill_instructions: Option<String>,
        documents: Vec<DocumentRef>,
        content_parts: Option<Vec<ContentPart>>,
        attached_context: Option<Vec<AttachedContextItem>>,
    },
    /// End a wait before a request is made again, and let the loop go on.
    GoOn { reason: String },
    /// Use another model.
    UseModel(ModelSwitched),
    /// Write the metadata.
    Write(SessionMetadata),
    /// Tell of the session's state.
    EmitState,
    /// Stop the loop.
    StopLoop { reason: String },
    /// Run under the debugger.
    EnableDebug,
    /// Compact the history for the model.
    Compact { model: String },
    /// Use other embeddings, and embed the memory anew where that is needed.
    Embed { endpoint: String, model_id: String, dimension: usize, migrate: bool },
    /// End the session.
    Close,
}

/// `s` says to write `o`, or nothing where there is none.
pub open spec fn writes(s: TaskStep, o: Option<SessionMetadata>) -> bool {
    match o {
        Some(m) => s == TaskStep::Write(m),
        None => s is Rest,
    }
}

/// Why a session goes on when the user says so.
pub const USER_REQUESTED: &'static str = "user_requested";

/// `b` is `a`, and `q` the providers `p`, after what was configured was applied. How
/// many tokens a model may write is set for all sessions.
pub open spec fn configured(
    a: SessionTask,
    b: SessionTask,
    p: SharedProviders,
    q: SharedProviders,
    max_output_tokens: Option<u64>,
    max_iterations: Option<u32>,
    temperature: Option<JsonNumber>,
    system_prompt_override: Option<String>,
    threshold: Option<ShellApprovalThreshold>,
) -> bool {
    &&& b == (SessionTask { core: b.core, ..a })
    &&& b.core == (AgentCore {
        max_iterations: match max_iterations {
            Some(n) => n,
            None => a.core.max_iterations,
        },
        temperature_override: if temperature is Some {
            temperature
        } else {
            a.core.temperature_override
        },
        system_prompt_override: if system_prompt_override is Some {
            system_prompt_override
        } else {
            a.core.system_prompt_override
        },
        shell_approval_threshold: match threshold {
            Some(t) => t,
            None => a.core.shell_approval_threshold,
        },
        ..a.core
    })
    &&& match max_output_tokens {
        Some(limit) => agent_core::all_limited(
            p.global_provider_list@,
            q.global_provider_list@,
            limit,
        ),
        None => q == p,
    }
    &&& q.provider_key_vault == p.provider_key_vault
}

/// `b` is `a`, and `q` the providers `p`, after the message `m`, or after the last one
/// where that is `None`, and `s` is what is to be done then. What the message finds
/// of the providers is what all sessions find at that time.
pub open spec fn handled(
    a: SessionTask,
    p: SharedProviders,
    m: Option<SessionMessage>,
    x: Readings,
    b: SessionTask,
    q: SharedProviders,
    s: TaskStep,
) -> bool {
    &&& !(m matches Some(SessionMessage::UpdateRuntimeConfig { .. })) ==> q == p
    &&& match m {
        None => b == a && s is Close,
        Some(SessionMessage::Close) => b == a && s is Close,
        Some(
            SessionMessage::ChatMessage {
                content,
                message_id,
                skill_instructions,
                documents,
                content_parts,
                attached_context,
            },
        ) => match s {
            TaskStep::Answer {
                content: c,
                message_id: i,
                skill_instructions: k,
                documents: d,
                content_parts: v,
                attached_context: t,
            } => c == content && i == message_id && k == skill_instructions && v == content_parts
                && t == attached_context && chat_taken(
                a,
                b,
                content@,
                message_id@,
                documents,
                content_parts,
                attached_context,
                Some(d),
            ),
            _ => s is Rest && chat_taken(
                a,
                b,
                content@,
                message_id@,
                documents,
                content_parts,
                attached_context,
                None,
            ),
        },
        Some(SessionMessage::ContinueExecution) => b == a && (s matches TaskStep::GoOn { reason }
            && reason@ == USER_REQUESTED@),
        Some(SessionMessage::ModelSwitch { model, provider }) => s matches TaskStep::UseModel(r)
            && model_switched(a, b, p, model@, text::opt_text(provider), r),
        Some(SessionMessage::ReasoningEffort { effort }) => match s {
            TaskStep::Write(w) => effort_set(a, b, effort@, x.effort, Some(w)),
            _ => s is Rest && effort_set(a, b, effort@, x.effort, None),
        },
        Some(
            SessionMessage::UpdateRuntimeConfig {
                max_output_tokens,
                max_iterations,
                temperature,
                system_prompt_override,
                shell_approval_threshold,
            },
        ) => s is Rest && configured(
            a,
            b,
            p,
            q,
            max_output_tokens,
            max_iterations,
            temperature,
            system_prompt_override,
            if shell_approval_threshold is Some {
                Some(x.threshold)
            } else {
                None
            },
        ),
        Some(SessionMessage::UpdateWorkspaceContext { context_text }) => s is Rest && b == (
        SessionTask {
            context: ContextSettings { workspace_context: Some(context_text), ..a.context },
            ..a
        }),
        Some(SessionMessage::UpdateMcpTools { mcp_tools }) => s is Rest && b == (SessionTask {
            core: AgentCore { mcp_tools, all_tools: b.core.all_tools, ..a.core },
            ..a
        }) && b.core.all_tools@ == (match mcp_tools {
            Some(t) => a.core.tools@ + t@,
            None => a.core.tools@,
        }),
        Some(SessionMessage::UpdateSessionTitle { title }) => match s {
            TaskStep::Write(w) => title_set(a, b, title@, Some(w)),
            _ => s is Rest && title_set(a, b, title@, None),
        },
        Some(SessionMessage::SetWorkspaceId { workspace_id }) => match s {
            TaskStep::Write(w) => workspace_set(a, b, workspace_id@, Some(w)),
            _ => s is Rest && workspace_set(a, b, workspace_id@, None),
        },
        Some(SessionMessage::SetWorkDir { path }) => s is Rest && b == (SessionTask {
            session_core: SessionCore { current_work_dir: Some(path), ..a.session_core },
            ..a
        }),
        Some(SessionMessage::SetWorkspacePromptFile { content }) => s is Rest && b == (
        SessionTask {
            context: ContextSettings { workspace_prompt_file: content, ..a.context },
            ..a
        }),
        Some(SessionMessage::UpdateIdentityContext { identity_context }) => s is Rest
            && identity_set(a, b, text::opt_text(identity_context)),
        Some(SessionMessage::ProviderListUpdated) => b == a && s is EmitState,
        Some(SessionMessage::Stop { reason }) => b == a && s == (TaskStep::StopLoop { reason }),
        Some(SessionMessage::EnableDebugMode) => b == a && s is EnableDebug,
        Some(SessionMessage::CompactContext) => b == a && (s matches TaskStep::Compact { model }
            && model@ == text_or(a.session@.model, DEFAULT_MODEL@)),
        Some(
            SessionMessage::UpdateEmbedConfig { embed_endpoint, embed_model_id, embed_dimension },
        ) => b == a && s == (TaskStep::Embed {
            endpoint: embed_endpoint,
            model_id: embed_model_id,
            dimension: embed_dimension,
            migrate: x.store_dimension matches Some(d) && d != embed_dimension,
        }),
        Some(SessionMessage::SystemNotification { content }) => s is Rest && notified(
            a,
            b,
            content@,
            x.notification_tokens,
            a.session@.history.messages.len() > 0,
        ),
        Some(SessionMessage::EnablePush) => s is EmitState && b == (SessionTask {
            session_core: SessionCore { notify_enabled: true, ..a.session_core },
            ..a
        }),
        Some(SessionMessage::DisablePush) => s is Rest && b == (SessionTask {
            session_core: SessionCore { notify_enabled: false, ..a.session_core },
            ..a
        }),
    }
}

fn write_or_rest(o: Option<SessionMetadata>) -> (r: TaskStep)
    ensures
        writes(r, o),
{
    match o {
        Some(m) => TaskStep::Write(m),
        None => TaskStep::Rest,
    }
}

impl SessionTask {
    /// Handles a message to the session; `None` says that there will be no more.
    pub fn on_message(
        &mut self,
        shared: &mut SharedProviders,
        message: Option<SessionMessage>,
        readings: &Readings,
    ) -> (r: TaskStep)
        requires
            message matches Some(SessionMessage::SystemNotification { .. }) ==>
                old(self).session@.history.current_tokens + readings.notification_tokens <= u64::MAX,
        ensures
            handled(
                *old(self),
                *old(shared),
                message,
                *readings,
                *final(self),
                *final(shared),
                r,
            ),
    {
        match message {
            None => TaskStep::Close,
            Some(SessionMessage::Close) => TaskStep::Close,
            Some(
                SessionMessage::ChatMessage {
                    content,
                    message_id,
                    skill_instructions,
                    documents,
                    content_parts,
                    attached_context,
                },
            ) => {
                match self.on_chat_message(
                    content.as_str(),
                    message_id.as_str(),
                    &documents,
                    &content_parts,
                    &attached_context,
                ) {
                    Some(d) => TaskStep::Answer {
                        content,
                        message_id,
                        skill_instructions,
                        documents: d,
                        content_parts,
                        attached_context,
                    },
                    None => TaskStep::Rest,
                }
            },
            Some(SessionMessage::ContinueExecution) => TaskStep::GoOn {
                reason: USER_REQUESTED.to_string(),
            },
            Some(SessionMessage::ModelSwitch { model, provider }) => {
                let named: Option<&str> = match &provider {
                    Some(p) => Some(p.as_str()),
                    None => None,
                };
                TaskStep::UseModel(self.on_model_switch(&*shared, model.as_str(), named))
            },
            Some(SessionMessage::ReasoningEffort { effort }) => write_or_rest(
                self.on_reasoning_effort(effort, readings.effort),
            ),
            Some(
                SessionMessage::UpdateRuntimeConfig {
                    max_output_tokens,
                    max_iterations,
                    temperature,
                    system_prompt_override,
                    shell_approval_threshold,
                },
            ) => {
                let threshold: Option<ShellApprovalThreshold> = match shell_approval_threshold {
                    Some(_) => Some(readings.threshold),
                    None => None,
                };
                self.core.apply_runtime_config(
                    shared,
                    max_output_tokens,
                    max_iterations,
                    temperature,
                    system_prompt_override,
                    threshold,
                );
                TaskStep::Rest
            },
            Some(SessionMessage::UpdateWorkspaceContext { context_text }) => {
                self.on_update_workspace_context(context_text);
                TaskStep::Rest
            },
            Some(SessionMessage::UpdateMcpTools { mcp_tools }) => {
                self.core.update_mcp_tools(mcp_tools);
                TaskStep::Rest
            },
            Some(SessionMessage::UpdateSessionTitle { title }) => write_or_rest(
                self.on_update_session_title(title.as_str()),
            ),
            Some(SessionMessage::SetWorkspaceId { workspace_id }) => write_or_rest(
                self.on_set_workspace_id(workspace_id.as_str()),
            ),
            Some(SessionMessage::SetWorkDir { path }) => {
                self.on_set_work_dir(path);
                TaskStep::Rest
            },
            Some(SessionMessage::SetWorkspacePromptFile { content }) => {
                self.on_set_workspace_prompt_file(content);
                TaskStep::Rest
            },
            Some(SessionMessage::UpdateIdentityContext { identity_context }) => {
                self.on_update_identity_context(identity_context);
                TaskStep::Rest
            },
            Some(SessionMessage::ProviderListUpdated) => TaskStep::EmitState,
            Some(SessionMessage::Stop { reason }) => TaskStep::StopLoop { reason },
            Some(SessionMessage::EnableDebugMode) => TaskStep::EnableDebug,
            Some(SessionMessage::CompactContext) => TaskStep::Compact {
                model: self.compaction_model(),
            },
            Some(
                SessionMessage::UpdateEmbedConfig {
                    embed_endpoint,
                    embed_model_id,
                    embed_dimension,
                },
            ) => TaskStep::Embed {
                endpoint: embed_endpoint,
                model_id: embed_model_id,
                dimension: embed_dimension,
                migrate: SessionTask::needs_migration(readings.store_dimension, embed_dimension),
            },
            Some(SessionMessage::SystemNotification { content }) => {
                self.on_system_notification(content.as_str(), readings.notification_tokens);
                TaskStep::Rest
            },
            Some(SessionMessage::EnablePush) => {
                self.on_push(true);
                TaskStep::EmitState
            },
            Some(SessionMessage::DisablePush) => {
                self.on_push(false);
                TaskStep::Rest
            },
        }
    }
}

} // verus!
