//! What each message changes of a session, and what it leaves as it is.

use crate::agent::agent_core::{ModelItem, SharedProviders};
use crate::agent::agent_core;
use crate::agent::session::attachments::{AttachedContextItem, DocumentRef, Extraction};
use crate::agent::session::attachments;
use crate::agent::session::messages::{SessionMessage, SummaryView};
use crate::agent::session::messages;
use crate::agent::session::session_task::{Readings, SessionTask, TaskStep};
use crate::agent::session::session_task;
use crate::conversation::metadata::SessionMetadata;
use crate::json;
use crate::message::MessageRole;
use crate::paths;
use crate::providers::types::ReasoningEffort;
use crate::text;
use vstd::prelude::*;

verus! {

/// A message to a session changes what it names: the model, the effort, the title and the
/// workspace that are chosen are those of the session afterwards, and of its file.
pub proof fn choices_are_taken(
    a: SessionTask,
    p: SharedProviders,
    m: SessionMessage,
    x: Readings,
    b: SessionTask,
    q: SharedProviders,
    s: TaskStep,
)
    requires
        session_task::handled(a, p, Some(m), x, b, q, s),
    ensures
        m matches SessionMessage::ModelSwitch { model, provider } ==> {
            &&& b.session@.model == Some(model@)
            &&& b.session@.history.model_name == Some(model@)
            &&& b.context.override_model matches Some(o) && o@ == model@
            &&& provider matches Some(id) ==> b.session@.provider == Some(id@)
            &&& provider is None ==> b.session@.provider == a.session@.provider
            &&& b.session@.conversation matches Some(c) ==> c.model == Some(model@) && c.provider
                == (match provider {
                Some(id) => Some(id@),
                None => None,
            })
            &&& b.session@.reasoning_effort == session_task::default_effort(
                agent_core::model_of(p.global_provider_list@, model@),
            )
            &&& s matches TaskStep::UseModel(r) && r.effort == b.session@.reasoning_effort && (
            provider matches Some(id) ==> agent_core::is_access(p, id@, r.provider)) && (
            provider is None ==> r.provider is None) && (b.session@.conversation is Some ==> (
            r.metadata matches Some(w) && w@.model == Some(model@)))
        },
        m matches SessionMessage::ReasoningEffort { effort } ==> {
            &&& b.session@.reasoning_effort == x.effort
            &&& b.session@.conversation matches Some(c) ==> c.reasoning_effort == Some(effort@)
                && (s matches TaskStep::Write(w) && w@.reasoning_effort == Some(effort@))
        },
        m matches SessionMessage::UpdateSessionTitle { title } ==> (
        b.session@.conversation matches Some(c) ==> c.title == Some(
            if title@.len() <= 30 || a.session@.conversation->0.title == Some(title@) {
                title@
            } else {
                title@.take(30) + "..."@
            },
        )),
        m matches SessionMessage::SetWorkspaceId { workspace_id } ==> (
        b.session@.conversation matches Some(c) ==> c.workspace_id == Some(workspace_id@) && (
        s matches TaskStep::Write(w) && w@.workspace_id == Some(workspace_id@))),
        m matches SessionMessage::SetWorkDir { path } ==> b.session_core.current_work_dir == Some(
            path,
        ),
        m matches SessionMessage::UpdateWorkspaceContext { context_text }
            ==> b.context.workspace_context == Some(context_text),
        m matches SessionMessage::SetWorkspacePromptFile { content }
            ==> b.context.workspace_prompt_file == content,
        m matches SessionMessage::UpdateIdentityContext { identity_context } ==> (
        match identity_context {
            Some(c) => if c@.len() > 0 {
                b.session@.identity_context == Some(c@)
            } else {
                b.session@.identity_context is None
            },
            None => b.session@.identity_context is None,
        }),
        m is EnablePush ==> b.session_core.notify_enabled,
        m is DisablePush ==> !b.session_core.notify_enabled,
        a.session@.conversation is None <==> b.session@.conversation is None,
{
}

/// What was configured is applied, and what was not, stays: the limit on what a model may
/// write for all models that are known, the others for the session.
pub proof fn configuration_is_applied(
    a: SessionTask,
    p: SharedProviders,
    m: SessionMessage,
    x: Readings,
    b: SessionTask,
    q: SharedProviders,
    s: TaskStep,
    i: int,
    j: int,
)
    requires
        session_task::handled(a, p, Some(m), x, b, q, s),
        m is UpdateRuntimeConfig,
        0 <= i < p.global_provider_list@.len(),
        0 <= j < p.global_provider_list@[i].models@.len(),
    ensures
        m matches SessionMessage::UpdateRuntimeConfig {
            max_output_tokens,
            max_iterations,
            temperature,
            system_prompt_override,
            shell_approval_threshold,
        } ==> {
            &&& max_iterations matches Some(n) ==> b.core.max_iterations == n
            &&& max_iterations is None ==> b.core.max_iterations == a.core.max_iterations
            &&& temperature is Some ==> b.core.temperature_override == temperature
            &&& temperature is None ==> b.core.temperature_override == a.core.temperature_override
            &&& system_prompt_override is Some ==> b.core.system_prompt_override
                == system_prompt_override
            &&& system_prompt_override is None ==> b.core.system_prompt_override
                == a.core.system_prompt_override
            &&& shell_approval_threshold is Some ==> b.core.shell_approval_threshold == x.threshold
            &&& shell_approval_threshold is None ==> b.core.shell_approval_threshold
                == a.core.shell_approval_threshold
            &&& q.global_provider_list@.len() == p.global_provider_list@.len()
            &&& q.global_provider_list@[i].id == p.global_provider_list@[i].id
            &&& q.global_provider_list@[i].base_url == p.global_provider_list@[i].base_url
            &&& q.global_provider_list@[i].protocol_type == p.global_provider_list@[i].protocol_type
            &&& q.global_provider_list@[i].compact_model == p.global_provider_list@[i].compact_model
            &&& q.global_provider_list@[i].models@.len() == p.global_provider_list@[i].models@.len()
            &&& q.global_provider_list@[i].models@[j].id == p.global_provider_list@[i].models@[j].id
            &&& q.global_provider_list@[i].models@[j].capabilities
                == p.global_provider_list@[i].models@[j].capabilities
            &&& match max_output_tokens {
                Some(limit) => q.global_provider_list@[i].models@[j].max_output_tokens_limit
                    == limit,
                None => q.global_provider_list@[i].models@[j].max_output_tokens_limit
                    == p.global_provider_list@[i].models@[j].max_output_tokens_limit,
            }
            &&& q.provider_key_vault == p.provider_key_vault
        },
        b.session@ == a.session@,
        b.context == a.context,
{
    let f = q.global_provider_list@[i];
    let g = f.models@[j];
}

/// What no message names stays as it is: only a notification adds to the history, only a
/// switch changes the model, only what is configured changes the agent's limits and the
/// shared providers, and only the tools of servers change the tools.
pub proof fn all_else_stays(
    a: SessionTask,
    p: SharedProviders,
    m: SessionMessage,
    x: Readings,
    b: SessionTask,
    q: SharedProviders,
    s: TaskStep,
)
    requires
        session_task::handled(a, p, Some(m), x, b, q, s),
    ensures
        !(m is SystemNotification) ==> b.session@.history.messages == a.session@.history.messages
            && b.session@.history.current_tokens == a.session@.history.current_tokens,
        b.session@.history.max_tokens == a.session@.history.max_tokens,
        !(m is ModelSwitch) ==> b.session@.model == a.session@.model && b.session@.provider
            == a.session@.provider,
        !(m is ModelSwitch || m is ReasoningEffort) ==> b.session@.reasoning_effort
            == a.session@.reasoning_effort,
        !(m is UpdateRuntimeConfig) ==> q == p && b.core.max_iterations == a.core.max_iterations
            && b.core.shell_approval_threshold == a.core.shell_approval_threshold
            && b.core.temperature_override == a.core.temperature_override,
        !(m is UpdateMcpTools) ==> b.core.all_tools == a.core.all_tools && b.core.mcp_tools
            == a.core.mcp_tools,
        b.core.tools == a.core.tools,
        !(m is ChatMessage) ==> b.last_user_message == a.last_user_message,
        !(m is SetWorkDir) ==> b.session_core.current_work_dir == a.session_core.current_work_dir,
        !(m is EnablePush || m is DisablePush) ==> b.session_core.notify_enabled
            == a.session_core.notify_enabled,
        !(m is UpdateIdentityContext) ==> b.session@.identity_context
            == a.session@.identity_context,
        b.session@.todos == a.session@.todos,
        b.session@.turn_counter == a.session@.turn_counter,
        b.session@.status == a.session@.status,
{
}

/// A message of the user is answered, unless there is nothing in it, and is the one that
/// may be answered again.
pub proof fn user_messages_are_answered(
    a: SessionTask,
    p: SharedProviders,
    m: SessionMessage,
    x: Readings,
    b: SessionTask,
    q: SharedProviders,
    s: TaskStep,
)
    requires
        session_task::handled(a, p, Some(m), x, b, q, s),
    ensures
        m matches SessionMessage::ChatMessage {
            content,
            message_id,
            skill_instructions,
            documents,
            content_parts,
            attached_context,
        } ==> {
            let empty = text::trimmed(content@).len() == 0 && (documents is None
                || documents->0@.len() == 0) && (content_parts is None || content_parts->0@.len()
                == 0) && (attached_context is None || attached_context->0@.len() == 0);
            &&& empty ==> s is Rest && b == a
            &&& !empty ==> s is Answer && s->Answer_content == content && s->Answer_message_id
                == message_id && s->Answer_skill_instructions == skill_instructions
                && s->Answer_content_parts == content_parts && s->Answer_attached_context
                == attached_context && attachments::document_views(s->Answer_documents@) == (
            match documents {
                Some(d) => attachments::documents_of(json::views(d@), d@.len() as int),
                None => Seq::empty(),
            }) && (b.last_user_message matches Some(t) && t.content@
                == content@ && t.message_id@ == message_id@)
        },
        m is ContinueExecution ==> (s matches TaskStep::GoOn { reason } && reason@
            == "user_requested"@) && b == a,
        m is Close || m is Stop || m is CompactContext || m is ProviderListUpdated
            || m is EnableDebugMode || m is UpdateEmbedConfig ==> b == a,
        m matches SessionMessage::Stop { reason } ==> s == (TaskStep::StopLoop { reason }),
        m is Close ==> s is Close,
        m is CompactContext ==> (s matches TaskStep::Compact { model } && (
        a.session@.model matches Some(chosen) ==> model@ == chosen)),
        m is ProviderListUpdated ==> s is EmitState,
        m is EnableDebugMode ==> s is EnableDebug,
        m matches SessionMessage::UpdateEmbedConfig {
            embed_endpoint,
            embed_model_id,
            embed_dimension,
        } ==> (s matches TaskStep::Embed { endpoint, model_id, dimension, migrate } && endpoint
            == embed_endpoint && model_id == embed_model_id && dimension == embed_dimension
            && migrate == (x.store_dimension is Some && x.store_dimension->0 != embed_dimension)),
        m matches SessionMessage::UpdateMcpTools { mcp_tools } ==> b.core.mcp_tools == mcp_tools
            && b.core.all_tools@ == (match mcp_tools {
            Some(t) => a.core.tools@ + t@,
            None => a.core.tools@,
        }),
{
}

/// A notification comes last in a history that has begun, said by the user and marked as
/// the system's, and counts for its tokens.
pub proof fn notifications_join_the_history(
    a: SessionTask,
    p: SharedProviders,
    m: SessionMessage,
    x: Readings,
    b: SessionTask,
    q: SharedProviders,
    s: TaskStep,
)
    requires
        session_task::handled(a, p, Some(m), x, b, q, s),
        a.session@.history.current_tokens + x.notification_tokens <= u64::MAX,
    ensures
        m matches SessionMessage::SystemNotification { content } ==> {
            let before = a.session@.history;
            let after = b.session@.history;
            &&& before.messages.len() == 0 ==> after == before
            &&& before.messages.len() > 0 ==> {
                &&& after.messages.len() == before.messages.len() + 1
                &&& after.messages.drop_last() == before.messages
                &&& after.messages.last().role == MessageRole::User
                &&& after.messages.last().content == "[System Notification] "@ + content@
                &&& after.messages.last().tool_calls is None
                &&& after.current_tokens == before.current_tokens + x.notification_tokens
            }
        },
{
    if m is SystemNotification && a.session@.history.messages.len() > 0 {
        assert(b.session@.history.messages.drop_last() =~= a.session@.history.messages);
    }
}

/// A model that is not told how much to think does as it does by itself; where that is not
/// known, it sees fit if it can be told at all.
pub proof fn efforts_go_back_to_the_model(m: ModelItem)
    ensures
        session_task::default_effort(None) is None,
        m.capabilities.default_reasoning_effort is Some ==> session_task::default_effort(Some(m))
            == m.capabilities.default_reasoning_effort,
        m.capabilities.default_reasoning_effort is None ==> session_task::default_effort(Some(m))
            == (match m.capabilities.supports_reasoning {
            Some(true) => Some(ReasoningEffort::Auto),
            _ => None,
        }),
{
}

/// `part` stands somewhere in `s`.
pub open spec fn holds(s: Seq<char>, part: Seq<char>) -> bool {
    exists|k: int|
        0 <= k && k + part.len() <= s.len() && #[trigger] s.subrange(k, k + part.len()) == part
}

proof fn lemma_stands(s: Seq<char>, k: int, part: Seq<char>)
    requires
        0 <= k,
        k + part.len() <= s.len(),
        s.subrange(k, k + part.len()) == part,
    ensures
        holds(s, part),
{
}

proof fn lemma_holds(a: Seq<char>, part: Seq<char>, b: Seq<char>)
    ensures
        holds(a + part + b, part),
{
    let k = a.len() as int;
    assert((a + part + b).subrange(k, k + part.len()) =~= part);
}

proof fn lemma_holds_more(a: Seq<char>, s: Seq<char>, b: Seq<char>, part: Seq<char>)
    requires
        holds(s, part),
    ensures
        holds(a + s + b, part),
{
    let k = choose|k: int|
        0 <= k && k + part.len() <= s.len() && #[trigger] s.subrange(k, k + part.len()) == part;
    let n = a.len() + k;
    assert((a + s + b).subrange(n, n + part.len()) =~= part);
}

proof fn lemma_joined(parts: Seq<Seq<char>>, sep: Seq<char>, i: int)
    requires
        0 <= i < parts.len(),
    ensures
        holds(text::joined(parts, sep), parts[i]),
    decreases parts.len(),
{
    let all = text::joined(parts, sep);
    let none = Seq::<char>::empty();
    if parts.len() == 1 {
        lemma_holds(none, parts[i], none);
        assert(none + parts[i] + none =~= all);
    } else if i == parts.len() - 1 {
        lemma_holds(text::joined(parts.drop_last(), sep) + sep, parts[i], none);
        assert(text::joined(parts.drop_last(), sep) + sep + parts[i] + none =~= all);
    } else {
        let rest = parts.drop_last();
        lemma_joined(rest, sep, i);
        lemma_holds_more(none, text::joined(rest, sep), sep + parts.last(), parts[i]);
        assert(none + text::joined(rest, sep) + (sep + parts.last()) =~= all);
    }
}

proof fn lemma_trimmed(s: Seq<char>, k: int)
    requires
        0 <= k < s.len(),
        !text::white_space(s[k]),
    ensures
        text::trimmed(s).len() > 0,
{
    lemma_front(s, k);
    let t = text::trim_front(s);
    let j = choose|j: int| 0 <= j < t.len() && !text::white_space(#[trigger] t[j]);
    lemma_back(t, j);
}

proof fn lemma_front(s: Seq<char>, k: int)
    requires
        0 <= k < s.len(),
        !text::white_space(s[k]),
    ensures
        exists|j: int|
            0 <= j < text::trim_front(s).len() && !text::white_space(
                #[trigger] text::trim_front(s)[j],
            ),
    decreases s.len(),
{
    if text::white_space(s[0]) {
        assert(s.drop_first()[k - 1] == s[k]);
        lemma_front(s.drop_first(), k - 1);
        let t = text::trim_front(s);
        assert(t == text::trim_front(s.drop_first()));
        let j = choose|j: int| 0 <= j < t.len() && !text::white_space(#[trigger] t[j]);
        assert(!text::white_space(t[j]));
    } else {
        assert(text::trim_front(s) == s);
        assert(!text::white_space(text::trim_front(s)[0]));
    }
}

proof fn lemma_back(s: Seq<char>, k: int)
    requires
        0 <= k < s.len(),
        !text::white_space(s[k]),
    ensures
        text::trim_back(s).len() > 0,
    decreases s.len(),
{
    if text::white_space(s.last()) {
        assert(s.drop_last()[k] == s[k]);
        lemma_back(s.drop_last(), k);
    }
}

/// A message to the model holds what the user wrote, at its head, and every document and
/// every hint that was attached; one with nothing attached is what the user wrote.
pub proof fn messages_hold_what_was_attached(
    content: Seq<char>,
    documents: Seq<Seq<char>>,
    hints: Seq<Seq<char>>,
)
    ensures
        ({
            let r = attachments::enriched(content, documents, hints);
            &&& documents.len() == 0 && hints.len() == 0 ==> r == content
            &&& text::trimmed(content).len() > 0 ==> content.is_prefix_of(r)
            &&& forall|i: int| 0 <= i < documents.len() ==> holds(r, #[trigger] documents[i])
            &&& forall|i: int| 0 <= i < hints.len() ==> holds(r, #[trigger] hints[i])
        }),
{
    let inner = attachments::with_blocks(
        content,
        attachments::DOCUMENTS_NOTE@,
        documents,
        "\n\n"@,
    );
    let r = attachments::enriched(content, documents, hints);
    let none = Seq::<char>::empty();
    assert forall|i: int| 0 <= i < hints.len() implies holds(r, #[trigger] hints[i]) by {
        lemma_joined(hints, "\n"@, i);
        let a = attachments::lead(inner) + attachments::FILES_NOTE@;
        lemma_holds_more(a, text::joined(hints, "\n"@), none, hints[i]);
        assert(a + text::joined(hints, "\n"@) + none =~= r);
    }
    if documents.len() > 0 {
        lemma_note(inner, content, documents);
    }
    assert forall|i: int| 0 <= i < documents.len() implies holds(r, #[trigger] documents[i]) by {
        lemma_joined(documents, "\n\n"@, i);
        let a = attachments::lead(content) + attachments::DOCUMENTS_NOTE@;
        let b = if hints.len() == 0 {
            none
        } else {
            "\n\n"@ + attachments::FILES_NOTE@ + text::joined(hints, "\n"@)
        };
        lemma_holds_more(a, text::joined(documents, "\n\n"@), b, documents[i]);
        assert(a + text::joined(documents, "\n\n"@) + b =~= r);
    }
    if text::trimmed(content).len() > 0 {
        let lead = content + "\n\n"@;
        assert(documents.len() > 0 ==> inner.take(content.len() as int) =~= content);
        assert(r.take(content.len() as int) =~= content);
    }
}

proof fn lemma_note(inner: Seq<char>, content: Seq<char>, documents: Seq<Seq<char>>)
    requires
        documents.len() > 0,
        inner == attachments::with_blocks(
            content,
            attachments::DOCUMENTS_NOTE@,
            documents,
            "\n\n"@,
        ),
    ensures
        text::trimmed(inner).len() > 0,
        text::trimmed(content).len() > 0 ==> text::trimmed(inner).len() > 0,
{
    reveal_strlit(
        "The following documents were uploaded by the user. Their contents have been pre-extracted and included below. You do NOT need to use the `doc_reader` tool for these files.\n\n",
    );
    let note = attachments::DOCUMENTS_NOTE@;
    assert(note[0] == 'T');
    let k = attachments::lead(content).len() as int;
    assert(inner[k] == note[0]);
    lemma_trimmed(inner, k);
}

/// What is said of an attached file names its place, and which tool reads it: documents are
/// extracted, other files are read.
pub proof fn hints_name_the_file(item: AttachedContextItem)
    ensures
        ({
            let h = attachments::attachment_hint(item);
            let ext = paths::extension_of(item.abs_path@);
            let document = ext == Some("pdf"@) || ext == Some("docx"@) || ext == Some("pptx"@)
                || ext == Some("xlsx"@);
            &&& ("- `"@ + item.abs_path@ + "`"@).is_prefix_of(h)
            &&& document ==> holds(h, "Use `doc_reader`"@)
            &&& !document ==> holds(h, "Use `read_file`"@)
            &&& !document && item.context_type@ == "selection"@ ==> {
                &&& item.start_line matches Some(s) ==> holds(h, text::decimal(s as nat))
                &&& item.start_line is Some && item.end_line is Some ==> holds(
                    h,
                    text::decimal(item.end_line->0 as nat),
                )
            }
        }),
{
    reveal_strlit("- `");
    reveal_strlit("`");
    reveal_strlit("` — Use `doc_reader` to extract text from this document.");
    reveal_strlit(" — Use `read_file` to read the specified lines.");
    reveal_strlit("` — Use `read_file` to read this file when needed.");
    reveal_strlit("Use `doc_reader`");
    reveal_strlit("Use `read_file`");
    let h = attachments::attachment_hint(item);
    let start = "- `"@ + item.abs_path@ + "`"@;
    let a = "- `"@ + item.abs_path@;
    let none = Seq::<char>::empty();
    assert(start =~= h.take(start.len() as int));
    if attachments::is_document(item.abs_path@) {
        let t = "` — Use `doc_reader` to extract text from this document."@;
        assert(t.subrange(4, 20) =~= "Use `doc_reader`"@);
        lemma_stands(t, 4, "Use `doc_reader`"@);
        lemma_holds_more(a, t, none, "Use `doc_reader`"@);
        assert(a + t + none =~= h);
    } else if item.context_type@ == "selection"@ && (item.start_line is Some
        || item.end_line is Some) {
        let t = " — Use `read_file` to read the specified lines."@;
        let l = attachments::line_hint(item.start_line, item.end_line);
        assert(t.subrange(3, 18) =~= "Use `read_file`"@);
        lemma_stands(t, 3, "Use `read_file`"@);
        lemma_holds_more(start + l, t, none, "Use `read_file`"@);
        assert(start + l + t + none =~= h);
        if let Some(s) = item.start_line {
            let d = text::decimal(s as nat);
            lemma_line(item.start_line, item.end_line);
            lemma_holds_more(start, l, t, d);
            assert(start + l + t =~= h);
            if let Some(e) = item.end_line {
                lemma_holds_more(start, l, t, text::decimal(e as nat));
            }
        }
    } else {
        let t = "` — Use `read_file` to read this file when needed."@;
        assert(t.subrange(4, 19) =~= "Use `read_file`"@);
        lemma_stands(t, 4, "Use `read_file`"@);
        lemma_holds_more(a, t, none, "Use `read_file`"@);
        assert(a + t + none =~= h);
    }
}

proof fn lemma_line(start: Option<u32>, end: Option<u32>)
    requires
        start is Some,
    ensures
        holds(attachments::line_hint(start, end), text::decimal(start->0 as nat)),
        end is Some ==> holds(attachments::line_hint(start, end), text::decimal(end->0 as nat)),
{
    let l = attachments::line_hint(start, end);
    let d = text::decimal(start->0 as nat);
    if end is Some && end != start {
        let e = text::decimal(end->0 as nat);
        lemma_holds(" (lines "@, d, "–"@ + e + ")"@);
        assert(" (lines "@ + d + ("–"@ + e + ")"@) =~= l);
        lemma_holds(" (lines "@ + d + "–"@, e, ")"@);
        assert(" (lines "@ + d + "–"@ + e + ")"@ =~= l);
    } else {
        lemma_holds(" (line "@, d, ")"@);
        assert(" (line "@ + d + ")"@ =~= l);
    }
}

/// Every attached file is spoken of, in their order, but for directories.
pub proof fn files_are_spoken_of(items: Seq<AttachedContextItem>, n: int)
    requires
        0 <= n <= items.len(),
    ensures
        attachments::attachment_hints(items, n) == items.take(n).filter(
            |i: AttachedContextItem| i.context_type@ != "directory"@,
        ).map_values(|i: AttachedContextItem| attachments::attachment_hint(i)),
    decreases n,
{
    reveal(Seq::filter);
    let p = |i: AttachedContextItem| i.context_type@ != "directory"@;
    let f = |i: AttachedContextItem| attachments::attachment_hint(i);
    let part = items.take(n);
    if n > 0 {
        files_are_spoken_of(items, n - 1);
        assert(part.drop_last() =~= items.take(n - 1));
        assert(part.last() == items[n - 1]);
        let before = part.drop_last().filter(p);
        assert(before.push(part.last()).map_values(f) =~= before.map_values(f).push(f(part.last())));
    } else {
        assert(attachments::attachment_hints(items, n) =~= part.filter(p).map_values(f));
    }
}

/// A document stands in the message with its name, its format and what was extracted of it,
/// or why nothing was.
pub proof fn documents_are_quoted(d: (Seq<char>, Seq<char>, Seq<char>), e: Extraction)
    ensures
        ({
            let b = attachments::document_block(d, e);
            &&& holds(b, d.1)
            &&& holds(b, d.2)
            &&& match e {
                Extraction::Text(t) => text::trimmed(t@).len() > 0 ==> holds(b, t@),
                Extraction::Failed(m) => holds(b, m@),
            }
        }),
{
    let b = attachments::document_block(d, e);
    let x = "<attached_document filename=\""@;
    let y = "\" format=\""@;
    let z = "\">\n"@;
    let t = attachments::extraction_text(e);
    let w = "\n</attached_document>"@;
    lemma_holds(x, d.1, y + d.2 + z + t + w);
    assert(x + d.1 + (y + d.2 + z + t + w) =~= b);
    lemma_holds(x + d.1 + y, d.2, z + t + w);
    assert(x + d.1 + y + d.2 + (z + t + w) =~= b);
    lemma_holds(x + d.1 + y + d.2 + z, t, w);
    if let Extraction::Failed(m) = e {
        lemma_holds("[Document extraction failed: "@, m@, "]"@);
        lemma_holds_more(x + d.1 + y + d.2 + z, t, w, m@);
    }
}

/// The documents to extract are those with a path, by their names and formats.
pub proof fn documents_are_listed(js: Seq<json::JsonView>, j: json::JsonView)
    ensures
        ({
            let n = js.len() as int;
            let path = match j.get("abs_path"@) {
                Some(json::JsonView::Text(s)) => s,
                _ => Seq::empty(),
            };
            let name = match j.get("filename"@) {
                Some(json::JsonView::Text(s)) => s,
                _ => "document"@,
            };
            let format = match j.get("format"@) {
                Some(json::JsonView::Text(s)) => s,
                _ => "unknown"@,
            };
            attachments::documents_of(js.push(j), n + 1) == (if path.len() == 0 {
                attachments::documents_of(js, n)
            } else {
                attachments::documents_of(js, n).push((path, name, format))
            })
        }),
        attachments::documents_of(js, 0).len() == 0,
{
    lemma_same_documents(js, js.push(j), js.len() as int);
    assert(js.push(j)[js.len() as int] == j);
}

proof fn lemma_same_documents(a: Seq<json::JsonView>, b: Seq<json::JsonView>, n: int)
    requires
        0 <= n <= a.len(),
        n <= b.len(),
        forall|k: int| 0 <= k < n ==> a[k] == b[k],
    ensures
        attachments::documents_of(a, n) == attachments::documents_of(b, n),
    decreases n,
{
    if n > 0 {
        lemma_same_documents(a, b, n - 1);
    }
}

/// The log says no more of what a user writes than how it begins.
pub proof fn log_says_how_messages_begin(m: SessionMessage)
    ensures
        m matches SessionMessage::ChatMessage { content, message_id, .. } ==> {
            let fs = m.summary();
            &&& fs.len() > 1
            &&& fs[0].0 == "content"@
            &&& fs[0].1 matches SummaryView::Text(s) && s.len() <= 64 && s == content@.take(
                s.len() as int,
            ) && (content@.len() <= 64 ==> s == content@)
            &&& fs[1].0 == "message_id"@
            &&& fs[1].1 == SummaryView::Text(message_id@)
        },
{
    if let SessionMessage::ChatMessage { content, message_id, .. } = m {
        let s = messages::head(content@, 64);
        if content@.len() <= 64 {
            assert(content@.take(s.len() as int) =~= content@);
        }
    }
}

/// Documents stand in the message in their order, each behind an empty line, and what is
/// said of files comes behind them.
pub proof fn attachments_keep_their_order(
    content: Seq<char>,
    documents: Seq<Seq<char>>,
    document: Seq<char>,
    hints: Seq<Seq<char>>,
)
    ensures
        documents.len() > 0 ==> attachments::enriched(
            content,
            documents.push(document),
            Seq::empty(),
        ) == attachments::enriched(content, documents, Seq::empty()) + "\n\n"@ + document,
        documents.len() > 0 ==> attachments::enriched(
            content,
            documents,
            Seq::empty(),
        ).is_prefix_of(attachments::enriched(content, documents, hints)),
{
    let inner = attachments::with_blocks(
        content,
        attachments::DOCUMENTS_NOTE@,
        documents,
        "\n\n"@,
    );
    if documents.len() > 0 {
        lemma_note(inner, content, documents);
        assert(documents.push(document).drop_last() =~= documents);
        assert(attachments::enriched(content, documents.push(document), Seq::empty())
            =~= attachments::enriched(content, documents, Seq::empty()) + "\n\n"@ + document);
        let r = attachments::enriched(content, documents, hints);
        assert(r.take(inner.len() as int) =~= inner);
    }
}

/// The documents of a message are quoted in their order, each with what was extracted of it.
pub proof fn each_document_is_quoted(ds: Seq<DocumentRef>, es: Seq<Extraction>, i: int)
    requires
        0 <= i < ds.len(),
        ds.len() == es.len(),
    ensures
        attachments::document_blocks(ds, es).len() == ds.len(),
        attachments::document_blocks(ds, es)[i] == attachments::document_block(
            (ds[i].abs_path@, ds[i].filename@, ds[i].format@),
            es[i],
        ),
{
}

/// An effort that is noted is that of the session's file, and nothing else of the session
/// changes.
pub proof fn noted_efforts_are_in_the_file(
    a: SessionTask,
    b: SessionTask,
    effort: Option<Seq<char>>,
    r: Option<SessionMetadata>,
)
    requires
        session_task::effort_recorded(a, b, effort, r),
    ensures
        b.session@.conversation matches Some(c) ==> c.reasoning_effort == effort && (
        r matches Some(m) && m@.reasoning_effort == effort),
        b.session@.conversation is None <==> a.session@.conversation is None,
        b.session@.history == a.session@.history,
        b.session@.model == a.session@.model,
        b.session@.reasoning_effort == a.session@.reasoning_effort,
        b.core == a.core,
        b.context == a.context,
{
}

/// A new session is told nothing of models, users, workspaces or skills.
pub proof fn new_sessions_know_nothing()
    ensures
        ({
            let s = session_task::no_settings();
            s.override_model is None && s.identity_context is None && s.workspace_context is None
                && s.workspace_prompt_file is None && s.skill_instructions is None
        }),
{
}

/// A message without words begins with what was attached.
pub proof fn blank_messages_begin_with_attachments(
    content: Seq<char>,
    documents: Seq<Seq<char>>,
    hints: Seq<Seq<char>>,
)
    requires
        text::trimmed(content).len() == 0,
    ensures
        documents.len() > 0 ==> attachments::DOCUMENTS_NOTE@.is_prefix_of(
            attachments::enriched(content, documents, hints),
        ),
        documents.len() == 0 && hints.len() > 0 ==> attachments::FILES_NOTE@.is_prefix_of(
            attachments::enriched(content, documents, hints),
        ),
{
    let inner = attachments::with_blocks(
        content,
        attachments::DOCUMENTS_NOTE@,
        documents,
        "\n\n"@,
    );
    let r = attachments::enriched(content, documents, hints);
    if documents.len() > 0 {
        lemma_note(inner, content, documents);
        let note = attachments::DOCUMENTS_NOTE@;
        assert(r.take(note.len() as int) =~= note);
    } else if hints.len() > 0 {
        let note = attachments::FILES_NOTE@;
        assert(r.take(note.len() as int) =~= note);
    }
}

/// A session to which no more messages come is closed as it is.
pub proof fn sessions_close_without_messages(
    a: SessionTask,
    p: SharedProviders,
    x: Readings,
    b: SessionTask,
    q: SharedProviders,
    s: TaskStep,
)
    requires
        session_task::handled(a, p, None, x, b, q, s),
    ensures
        b == a,
        q == p,
        s is Close,
{
}

} // verus!
