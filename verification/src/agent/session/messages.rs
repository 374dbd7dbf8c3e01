//! The messages to a session.

use crate::agent::session::attachments::AttachedContextItem;
use crate::conversation::metadata;
use crate::json::{Json, JsonNumber};
use crate::message::{clone_opt, ContentPart};
use crate::text;
use vstd::prelude::*;
use vstd::string::*;
use vstd::utf8::*;

verus! {

/// A message to a session.
pub enum SessionMessage {
    /// A message of the user.
    ChatMessage {
        content: String,
        message_id: String,
        skill_instructions: Option<String>,
        documents: Option<Vec<Json>>,
        content_parts: Option<Vec<ContentPart>>,
        attached_context: Option<Vec<AttachedContextItem>>,
    },
    /// Go on after a pause.
    ContinueExecution,
    /// Switch the model, and the provider where one is named.
    ModelSwitch {
        model: String,
        provider: Option<String>,
    },
    /// Set how much the model is to think.
    ReasoningEffort {
        effort: String,
    },
    /// Apply what was configured.
    UpdateRuntimeConfig {
        max_output_tokens: Option<u64>,
        max_iterations: Option<u32>,
        temperature: Option<JsonNumber>,
        system_prompt_override: Option<String>,
        shell_approval_threshold: Option<String>,
    },
    /// Set what is known of the workspace.
    UpdateWorkspaceContext {
        context_text: String,
    },
    /// Set the tools of connected servers, by their names.
    UpdateMcpTools {
        mcp_tools: Option<Vec<String>>,
    },
    /// Set the title.
    UpdateSessionTitle {
        title: String,
    },
    /// Set the workspace.
    SetWorkspaceId {
        workspace_id: String,
    },
    /// Set where tools work.
    SetWorkDir {
        path: String,
    },
    /// Set the workspace's own instructions.
    SetWorkspacePromptFile {
        content: Option<String>,
    },
    /// Set what is known of the user.
    UpdateIdentityContext {
        identity_context: Option<String>,
    },
    /// The providers have changed.
    ProviderListUpdated,
    /// Stop what the session is doing.
    Stop {
        reason: String,
    },
    /// Run under the debugger.
    EnableDebugMode,
    /// Close the session.
    Close,
    /// Compact the history.
    CompactContext,
    /// Set how memories are embedded.
    UpdateEmbedConfig {
        embed_endpoint: String,
        embed_model_id: String,
        embed_dimension: usize,
    },
    /// Tell the model of something.
    SystemNotification {
        content: String,
    },
    /// Tell of new data from now on.
    EnablePush,
    /// Tell of new data no longer.
    DisablePush,
}

/// A field of a message's summary.
#[derive(Debug, PartialEq, Eq)]
pub struct SummaryField {
    pub name: String,
    pub value: SummaryValue,
}

/// The value of a field of a message's summary.
#[derive(Debug, PartialEq, Eq)]
pub enum SummaryValue {
    Text(String),
    Flag(bool),
    Count(u64),
    OptText(Option<String>),
    OptCount(Option<u64>),
}

/// What a field of a message's summary holds.
pub enum SummaryView {
    Text(Seq<char>),
    Flag(bool),
    Count(u64),
    OptText(Option<Seq<char>>),
    OptCount(Option<u64>),
}

impl View for SummaryValue {
    type V = SummaryView;

    open spec fn view(&self) -> SummaryView {
        match *self {
            SummaryValue::Text(s) => SummaryView::Text(s@),
            SummaryValue::Flag(b) => SummaryView::Flag(b),
            SummaryValue::Count(n) => SummaryView::Count(n),
            SummaryValue::OptText(o) => SummaryView::OptText(text::opt_text(o)),
            SummaryValue::OptCount(o) => SummaryView::OptCount(o),
        }
    }
}

/// What each field of a summary holds.
pub open spec fn field_views(fs: Seq<SummaryField>) -> Seq<(Seq<char>, SummaryView)> {
    fs.map_values(|f: SummaryField| (f.name@, f.value@))
}

/// The first `n` characters of `s`.
pub open spec fn head(s: Seq<char>, n: int) -> Seq<char> {
    if s.len() <= n {
        s
    } else {
        s.take(n)
    }
}

/// How many elements there are, or 0 where there is no list.
pub open spec fn opt_len<T>(o: Option<Vec<T>>) -> u64 {
    match o {
        Some(v) => v@.len() as u64,
        None => 0,
    }
}

/// How many bytes a text has, where there is one.
pub open spec fn opt_bytes(o: Option<String>) -> Option<u64> {
    match o {
        Some(s) => Some(text::byte_len(s@) as u64),
        None => None,
    }
}

/// A number as it is written, where there is one.
pub open spec fn number_text(o: Option<JsonNumber>) -> Option<Seq<char>> {
    match o {
        Some(n) => Some(n.literal@),
        None => None,
    }
}

fn first_chars(s: &str, n: usize) -> (r: String)
    ensures
        r@ == head(s@, n as int),
{
    let cs: Vec<char> = text::chars_of(s);
    if cs.len() <= n {
        return s.to_string();
    }
    let r: String = text::string_of(&cs, 0, n);
    proof {
        assert(r@ =~= s@.take(n as int));
    }
    r
}

fn count_of<T>(o: &Option<Vec<T>>) -> (r: u64)
    ensures
        r == opt_len(*o),
{
    match o {
        Some(v) => v.len() as u64,
        None => 0,
    }
}

fn bytes_of(o: &Option<String>) -> (r: Option<u64>)
    ensures
        r == opt_bytes(*o),
{
    match o {
        Some(s) => Some(s.as_str().as_bytes().len() as u64),
        None => None,
    }
}

fn literal_of(o: &Option<JsonNumber>) -> (r: Option<String>)
    ensures
        text::opt_text(r) == number_text(*o),
{
    match o {
        Some(n) => Some(n.literal.clone()),
        None => None,
    }
}

fn widen(o: Option<u32>) -> (r: Option<u64>)
    ensures
        r == metadata::widened(o),
{
    match o {
        Some(n) => Some(n as u64),
        None => None,
    }
}

fn add_field(fs: &mut Vec<SummaryField>, name: &str, value: SummaryValue)
    ensures
        field_views(final(fs)@) == field_views(old(fs)@).push((name@, value@)),
{
    let ghost before: Seq<SummaryField> = fs@;
    fs.push(SummaryField { name: name.to_string(), value });
    proof {
        assert(field_views(fs@) =~= field_views(before).push((name@, value@)));
    }
}

impl SessionMessage {
    /// The name of the kind of message.
    pub open spec fn kind_name(self) -> Seq<char> {
        match self {
            SessionMessage::ChatMessage { .. } => "ChatMessage"@,
            SessionMessage::ContinueExecution => "ContinueExecution"@,
            SessionMessage::ModelSwitch { .. } => "ModelSwitch"@,
            SessionMessage::ReasoningEffort { .. } => "ReasoningEffort"@,
            SessionMessage::UpdateRuntimeConfig { .. } => "UpdateRuntimeConfig"@,
            SessionMessage::UpdateWorkspaceContext { .. } => "UpdateWorkspaceContext"@,
            SessionMessage::UpdateMcpTools { .. } => "UpdateMcpTools"@,
            SessionMessage::UpdateSessionTitle { .. } => "UpdateSessionTitle"@,
            SessionMessage::SetWorkspaceId { .. } => "SetWorkspaceId"@,
            SessionMessage::SetWorkDir { .. } => "SetWorkDir"@,
            SessionMessage::SetWorkspacePromptFile { .. } => "SetWorkspacePromptFile"@,
            SessionMessage::UpdateIdentityContext { .. } => "UpdateIdentityContext"@,
            SessionMessage::ProviderListUpdated => "ProviderListUpdated"@,
            SessionMessage::Stop { .. } => "Stop"@,
            SessionMessage::EnableDebugMode => "EnableDebugMode"@,
            SessionMessage::Close => "Close"@,
            SessionMessage::CompactContext => "CompactContext"@,
            SessionMessage::UpdateEmbedConfig { .. } => "UpdateEmbedConfig"@,
            SessionMessage::SystemNotification { .. } => "SystemNotification"@,
            SessionMessage::EnablePush => "EnablePush"@,
            SessionMessage::DisablePush => "DisablePush"@,
        }
    }

    /// What the log may say of a message: no more than the start of what the user
    /// wrote, and of other long texts only their length.
    pub open spec fn summary(self) -> Seq<(Seq<char>, SummaryView)> {
        match self {
            SessionMessage::ChatMessage { content, message_id, skill_instructions, documents, content_parts, attached_context } => seq![
                ("content"@, SummaryView::Text(head(content@, 64))),
                ("message_id"@, SummaryView::Text(message_id@)),
                ("has_skill"@, SummaryView::Flag(skill_instructions is Some)),
                ("has_docs"@, SummaryView::Flag(documents is Some)),
                ("has_content_parts"@, SummaryView::Flag(content_parts is Some)),
                ("attached_count"@, SummaryView::Count(opt_len(attached_context))),
            ],
            SessionMessage::ContinueExecution => Seq::empty(),
            SessionMessage::ModelSwitch { model, provider } => seq![
                ("model"@, SummaryView::Text(model@)),
                ("provider"@, SummaryView::OptText(text::opt_text(provider))),
            ],
            SessionMessage::ReasoningEffort { effort } => seq![
                ("effort"@, SummaryView::Text(effort@)),
            ],
            SessionMessage::UpdateRuntimeConfig { max_output_tokens, max_iterations, temperature, system_prompt_override, shell_approval_threshold } => seq![
                ("max_output_tokens"@, SummaryView::OptCount(max_output_tokens)),
                ("max_iterations"@, SummaryView::OptCount(metadata::widened(max_iterations))),
                ("temperature"@, SummaryView::OptText(number_text(temperature))),
                ("has_system_prompt"@, SummaryView::Flag(system_prompt_override is Some)),
                ("shell_approval_threshold"@, SummaryView::OptText(text::opt_text(shell_approval_threshold))),
            ],
            SessionMessage::UpdateWorkspaceContext { context_text } => seq![
                ("len"@, SummaryView::Count(text::byte_len(context_text@) as u64)),
            ],
            SessionMessage::UpdateMcpTools { mcp_tools } => seq![
                ("mcp_tool_count"@, SummaryView::Count(opt_len(mcp_tools))),
            ],
            SessionMessage::UpdateSessionTitle { title } => seq![
                ("title"@, SummaryView::Text(title@)),
            ],
            SessionMessage::SetWorkspaceId { workspace_id } => seq![
                ("workspace_id"@, SummaryView::Text(workspace_id@)),
            ],
            SessionMessage::SetWorkDir { path } => seq![
                ("path"@, SummaryView::Text(path@)),
            ],
            SessionMessage::SetWorkspacePromptFile { content } => seq![
                ("has_content"@, SummaryView::Flag(content is Some)),
                ("content_len"@, SummaryView::OptCount(opt_bytes(content))),
            ],
            SessionMessage::UpdateIdentityContext { identity_context } => seq![
                ("has_identity"@, SummaryView::Flag(identity_context is Some)),
            ],
            SessionMessage::ProviderListUpdated => Seq::empty(),
            SessionMessage::Stop { reason } => seq![
                ("reason"@, SummaryView::Text(reason@)),
            ],
            SessionMessage::EnableDebugMode => Seq::empty(),
            SessionMessage::Close => Seq::empty(),
            SessionMessage::CompactContext => Seq::empty(),
            SessionMessage::UpdateEmbedConfig { embed_endpoint, embed_model_id, embed_dimension } => seq![
                ("embed_endpoint"@, SummaryView::Text(embed_endpoint@)),
                ("embed_model_id"@, SummaryView::Text(embed_model_id@)),
                ("embed_dimension"@, SummaryView::Count(embed_dimension as u64)),
            ],
            SessionMessage::SystemNotification { content } => seq![
                ("len"@, SummaryView::Count(text::byte_len(content@) as u64)),
            ],
            SessionMessage::EnablePush => Seq::empty(),
            SessionMessage::DisablePush => Seq::empty(),
        }
    }

    /// The name of the kind of message.
    pub fn name(&self) -> (r: &'static str)
        ensures
            r@ == self.kind_name(),
    {
        match self {
            SessionMessage::ChatMessage { .. } => "ChatMessage",
            SessionMessage::ContinueExecution => "ContinueExecution",
            SessionMessage::ModelSwitch { .. } => "ModelSwitch",
            SessionMessage::ReasoningEffort { .. } => "ReasoningEffort",
            SessionMessage::UpdateRuntimeConfig { .. } => "UpdateRuntimeConfig",
            SessionMessage::UpdateWorkspaceContext { .. } => "UpdateWorkspaceContext",
            SessionMessage::UpdateMcpTools { .. } => "UpdateMcpTools",
            SessionMessage::UpdateSessionTitle { .. } => "UpdateSessionTitle",
            SessionMessage::SetWorkspaceId { .. } => "SetWorkspaceId",
            SessionMessage::SetWorkDir { .. } => "SetWorkDir",
            SessionMessage::SetWorkspacePromptFile { .. } => "SetWorkspacePromptFile",
            SessionMessage::UpdateIdentityContext { .. } => "UpdateIdentityContext",
            SessionMessage::ProviderListUpdated => "ProviderListUpdated",
            SessionMessage::Stop { .. } => "Stop",
            SessionMessage::EnableDebugMode => "EnableDebugMode",
            SessionMessage::Close => "Close",
            SessionMessage::CompactContext => "CompactContext",
            SessionMessage::UpdateEmbedConfig { .. } => "UpdateEmbedConfig",
            SessionMessage::SystemNotification { .. } => "SystemNotification",
            SessionMessage::EnablePush => "EnablePush",
            SessionMessage::DisablePush => "DisablePush",
        }
    }

    /// What the log may say of the message.
    pub fn describe(&self) -> (r: Vec<SummaryField>)
        ensures
            field_views(r@) == self.summary(),
    {
        let mut r: Vec<SummaryField> = Vec::new();
        proof {
            assert(field_views(r@) =~= Seq::empty());
        }
        match self {
            SessionMessage::ChatMessage { content, message_id, skill_instructions, documents, content_parts, attached_context } => {
                add_field(&mut r, "content", SummaryValue::Text(first_chars(content.as_str(), 64)));
                add_field(&mut r, "message_id", SummaryValue::Text(message_id.clone()));
                add_field(&mut r, "has_skill", SummaryValue::Flag(skill_instructions.is_some()));
                add_field(&mut r, "has_docs", SummaryValue::Flag(documents.is_some()));
                add_field(&mut r, "has_content_parts", SummaryValue::Flag(content_parts.is_some()));
                add_field(&mut r, "attached_count", SummaryValue::Count(count_of(attached_context)));
            },
            SessionMessage::ContinueExecution => {},
            SessionMessage::ModelSwitch { model, provider } => {
                add_field(&mut r, "model", SummaryValue::Text(model.clone()));
                add_field(&mut r, "provider", SummaryValue::OptText(clone_opt(provider)));
            },
            SessionMessage::ReasoningEffort { effort } => {
                add_field(&mut r, "effort", SummaryValue::Text(effort.clone()));
            },
            SessionMessage::UpdateRuntimeConfig { max_output_tokens, max_iterations, temperature, system_prompt_override, shell_approval_threshold } => {
                add_field(&mut r, "max_output_tokens", SummaryValue::OptCount(*max_output_tokens));
                add_field(&mut r, "max_iterations", SummaryValue::OptCount(widen(*max_iterations)));
                add_field(&mut r, "temperature", SummaryValue::OptText(literal_of(temperature)));
                add_field(&mut r, "has_system_prompt", SummaryValue::Flag(system_prompt_override.is_some()));
                add_field(&mut r, "shell_approval_threshold", SummaryValue::OptText(clone_opt(shell_approval_threshold)));
            },
            SessionMessage::UpdateWorkspaceContext { context_text } => {
                add_field(&mut r, "len", SummaryValue::Count(context_text.as_str().as_bytes().len() as u64));
            },
            SessionMessage::UpdateMcpTools { mcp_tools } => {
                add_field(&mut r, "mcp_tool_count", SummaryValue::Count(count_of(mcp_tools)));
            },
            SessionMessage::UpdateSessionTitle { title } => {
                add_field(&mut r, "title", SummaryValue::Text(title.clone()));
            },
            SessionMessage::SetWorkspaceId { workspace_id } => {
                add_field(&mut r, "workspace_id", SummaryValue::Text(workspace_id.clone()));
            },
            SessionMessage::SetWorkDir { path } => {
                add_field(&mut r, "path", SummaryValue::Text(path.clone()));
            },
            SessionMessage::SetWorkspacePromptFile { content } => {
                add_field(&mut r, "has_content", SummaryValue::Flag(content.is_some()));
                add_field(&mut r, "content_len", SummaryValue::OptCount(bytes_of(content)));
            },
            SessionMessage::UpdateIdentityContext { identity_context } => {
                add_field(&mut r, "has_identity", SummaryValue::Flag(identity_context.is_some()));
            },
            SessionMessage::ProviderListUpdated => {},
            SessionMessage::Stop { reason } => {
                add_field(&mut r, "reason", SummaryValue::Text(reason.clone()));
            },
            SessionMessage::EnableDebugMode => {},
            SessionMessage::Close => {},
            SessionMessage::CompactContext => {},
            SessionMessage::UpdateEmbedConfig { embed_endpoint, embed_model_id, embed_dimension } => {
                add_field(&mut r, "embed_endpoint", SummaryValue::Text(embed_endpoint.clone()));
                add_field(&mut r, "embed_model_id", SummaryValue::Text(embed_model_id.clone()));
                add_field(&mut r, "embed_dimension", SummaryValue::Count(*embed_dimension as u64));
            },
            SessionMessage::SystemNotification { content } => {
                add_field(&mut r, "len", SummaryValue::Count(content.as_str().as_bytes().len() as u64));
            },
            SessionMessage::EnablePush => {},
            SessionMessage::DisablePush => {},
        }
        proof {
            assert(field_views(r@) =~= self.summary());
        }
        r
    }
}

} // verus!
