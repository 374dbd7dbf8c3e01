//! The state of a session, and the metadata that it writes.

use crate::conversation::entry::{CompactionEventMeta, ConversationEntry, ENTRY_KIND_COMPACTION};
use crate::conversation::entry;
use crate::conversation::metadata::{
    clone_number, SessionMetadata, CONVERSATION_FORMAT_VERSION,
};
use crate::conversation::metadata;
use crate::ids;
use crate::json::{Json, JsonNumber};
use crate::json;
use crate::message::clone_opt;
use crate::text;
use vstd::prelude::*;

verus! {

/// What a new session starts with.
#[derive(Debug, PartialEq, Eq)]
pub struct SessionConfig {
    pub agent_id: String,
    pub workspace_id: Option<String>,
    pub model: Option<String>,
    pub provider: Option<String>,
}

/// A session, and what is known of it beside its entries.
#[derive(Debug, PartialEq, Eq)]
pub struct ConversationSession {
    session_id: String,
    agent_id: String,
    created_at: String,
    title_set: bool,
    current_title: Option<String>,
    workspace_id: Option<String>,
    model: Option<String>,
    provider: Option<String>,
    reasoning_effort: Option<String>,
    temperature: Option<JsonNumber>,
    last_tokens: Option<(u64, u64)>,
}

/// What a session holds.
pub struct SessionView {
    pub session_id: Seq<char>,
    pub agent_id: Seq<char>,
    pub created_at: Seq<char>,
    /// A title was set.
    pub title_set: bool,
    pub title: Option<Seq<char>>,
    pub workspace_id: Option<Seq<char>>,
    pub model: Option<Seq<char>>,
    pub provider: Option<Seq<char>>,
    pub reasoning_effort: Option<Seq<char>>,
    pub temperature: Option<(Option<u64>, Seq<char>)>,
    /// The prompt and completion tokens of the last reply.
    pub last_tokens: Option<(u64, u64)>,
}

impl View for ConversationSession {
    type V = SessionView;

    closed spec fn view(&self) -> SessionView {
        SessionView {
            session_id: self.session_id@,
            agent_id: self.agent_id@,
            created_at: self.created_at@,
            title_set: self.title_set,
            title: text::opt_text(self.current_title),
            workspace_id: text::opt_text(self.workspace_id),
            model: text::opt_text(self.model),
            provider: text::opt_text(self.provider),
            reasoning_effort: text::opt_text(self.reasoning_effort),
            temperature: metadata::number_view(self.temperature),
            last_tokens: self.last_tokens,
        }
    }
}

/// The metadata of a session at the time `now`.
pub open spec fn session_metadata(s: SessionView, now: Seq<char>) -> metadata::MetadataView {
    metadata::MetadataView {
        version: CONVERSATION_FORMAT_VERSION,
        session_id: s.session_id,
        created_at: s.created_at,
        agent_id: s.agent_id,
        title: s.title,
        updated_at: Some(now),
        message_count: None,
        corrupted: false,
        workspace_id: s.workspace_id,
        model: s.model,
        provider: s.provider,
        reasoning_effort: s.reasoning_effort,
        temperature: s.temperature,
        last_input_tokens: match s.last_tokens {
            Some(t) => Some(t.0),
            None => None,
        },
        last_output_tokens: match s.last_tokens {
            Some(t) => Some(t.1),
            None => None,
        },
        last_compaction_offset: None,
    }
}

/// `m` are the metadata of the session at the time that they give.
pub open spec fn is_metadata_of(s: SessionView, m: metadata::MetadataView) -> bool {
    m.updated_at matches Some(now) && ids::utc_stamp(now) && m == session_metadata(s, now)
}

/// The tokens that a file gives: a count that is missing beside another is 0.
pub open spec fn restored_tokens(m: metadata::MetadataView) -> Option<(u64, u64)> {
    match (m.last_input_tokens, m.last_output_tokens) {
        (Some(i), Some(o)) => Some((i, o)),
        (Some(i), None) => Some((i, 0)),
        (None, Some(o)) => Some((0, o)),
        (None, None) => None,
    }
}

/// The session `id` as its file describes it.
pub open spec fn resumed(id: Seq<char>, m: metadata::MetadataView) -> SessionView {
    SessionView {
        session_id: id,
        agent_id: m.agent_id,
        created_at: m.created_at,
        title_set: m.title is Some,
        title: m.title,
        workspace_id: m.workspace_id,
        model: m.model,
        provider: m.provider,
        reasoning_effort: m.reasoning_effort,
        temperature: m.temperature,
        last_tokens: restored_tokens(m),
    }
}

/// How long a title may be before it is cut.
pub const MAX_TITLE: usize = 30;

/// A character at which a title may be cut.
pub open spec fn is_break(c: char) -> bool {
    c == ',' || c == '，' || c == '.' || c == '。' || c == '!' || c == '！' || c == '?' || c == '？'
        || c == ';' || c == '；' || c == '\n'
}

/// The last index before `end` of a character at which a title may be cut.
pub open spec fn last_break(s: Seq<char>, end: int) -> Option<int>
    decreases end,
{
    if end <= 0 {
        None
    } else if is_break(s[end - 1]) {
        Some(end - 1)
    } else {
        last_break(s, end - 1)
    }
}

/// `s`, cut behind its first characters, where it is too long.
pub open spec fn cut_title(s: Seq<char>) -> Seq<char> {
    if s.len() <= MAX_TITLE {
        s
    } else {
        s.take(MAX_TITLE as int) + "..."@
    }
}

/// The title of a session whose first message is `s`: as much as fits up to the
/// last break, or its first characters.
pub open spec fn title_of(s: Seq<char>) -> Seq<char> {
    if s.len() <= MAX_TITLE {
        s
    } else {
        match last_break(s, MAX_TITLE as int) {
            Some(p) => if p < MAX_TITLE - 1 {
                s.take(p + 1)
            } else {
                cut_title(s)
            },
            None => cut_title(s),
        }
    }
}

fn breaks(c: char) -> (r: bool)
    ensures
        r == is_break(c),
{
    c == ',' || c == '，' || c == '.' || c == '。' || c == '!' || c == '！' || c == '?' || c == '？'
        || c == ';' || c == '；' || c == '\n'
}

fn shortened_title(cs: &Vec<char>) -> (r: String)
    requires
        cs@.len() > MAX_TITLE,
    ensures
        r@ == cut_title(cs@),
{
    let mut r: String = text::string_of(cs, 0, MAX_TITLE);
    r.append("...");
    proof {
        assert(r@ =~= cut_title(cs@));
    }
    r
}

/// The title that a user gives, cut where it is too long.
pub fn cut_title_text(title: &str) -> (r: String)
    ensures
        r@ == cut_title(title@),
{
    let cs: Vec<char> = text::chars_of(title);
    if cs.len() <= MAX_TITLE {
        title.to_string()
    } else {
        shortened_title(&cs)
    }
}

/// The title of a session whose first message is `content`.
pub fn title_text(content: &str) -> (r: String)
    ensures
        r@ == title_of(content@),
{
    let cs: Vec<char> = text::chars_of(content);
    if cs.len() <= MAX_TITLE {
        return content.to_string();
    }
    let mut end: usize = MAX_TITLE;
    while end > 0 && !breaks(cs[end - 1])
        invariant
            end <= MAX_TITLE < cs@.len(),
            last_break(cs@, MAX_TITLE as int) == last_break(cs@, end as int),
        decreases end,
    {
        end = end - 1;
    }
    if end > 0 && end < MAX_TITLE {
        let r: String = text::string_of(&cs, 0, end);
        proof {
            assert(r@ =~= cs@.take(end as int));
        }
        r
    } else {
        shortened_title(&cs)
    }
}

/// The entry of a message.
pub fn message_entry(
    id: String,
    ts: String,
    role: &str,
    content: &str,
    metadata: Option<Json>,
) -> (r: ConversationEntry)
    ensures
        r@ == (entry::EntryView {
            id: id@,
            ts: ts@,
            role: role@,
            content: content@,
            metadata: json::opt_view(metadata),
            kind: None,
        }),
{
    ConversationEntry {
        id,
        ts,
        role: role.to_string(),
        content: content.to_string(),
        metadata,
        kind: None,
    }
}

/// The entry that marks a compaction.
pub fn compaction_entry(
    id: String,
    ts: String,
    summary: &str,
    meta: &CompactionEventMeta,
) -> (r: ConversationEntry)
    ensures
        r@ == (entry::EntryView {
            id: id@,
            ts: ts@,
            role: "system"@,
            content: summary@,
            metadata: Some(entry::compaction_json(*meta)),
            kind: Some(ENTRY_KIND_COMPACTION@),
        }),
        r@.is_compaction(),
{
    ConversationEntry {
        id,
        ts,
        role: "system".to_string(),
        content: summary.to_string(),
        metadata: Some(meta.to_json()),
        kind: Some(ENTRY_KIND_COMPACTION.to_string()),
    }
}

impl ConversationSession {
    /// A new session, created at the time `now`, and the metadata to write.
    pub fn new_at(session_id: &str, config: SessionConfig, now: String) -> (r: (
        Self,
        SessionMetadata,
    ))
        ensures
            r.0@ == (SessionView {
                session_id: session_id@,
                agent_id: config.agent_id@,
                created_at: now@,
                title_set: false,
                title: None,
                workspace_id: text::opt_text(config.workspace_id),
                model: text::opt_text(config.model),
                provider: text::opt_text(config.provider),
                reasoning_effort: None,
                temperature: None,
                last_tokens: None,
            }),
            r.1@ == (metadata::MetadataView {
                message_count: Some(0),
                ..session_metadata(r.0@, now@)
            }),
    {
        let s: ConversationSession = ConversationSession {
            session_id: session_id.to_string(),
            agent_id: config.agent_id,
            created_at: now.clone(),
            title_set: false,
            current_title: None,
            workspace_id: config.workspace_id,
            model: config.model,
            provider: config.provider,
            reasoning_effort: None,
            temperature: None,
            last_tokens: None,
        };
        let mut m: SessionMetadata = s.metadata_at(now);
        m.message_count = Some(0);
        (s, m)
    }

    /// A new session, created now, and the metadata to write.
    pub fn new(session_id: &str, config: SessionConfig) -> (r: (Self, SessionMetadata))
        ensures
            ids::utc_stamp(r.0@.created_at),
            r.0@.session_id == session_id@,
            r.0@.agent_id == config.agent_id@,
            !r.0@.title_set,
            r.0@.title is None,
            r.0@.workspace_id == text::opt_text(config.workspace_id),
            r.0@.model == text::opt_text(config.model),
            r.0@.provider == text::opt_text(config.provider),
            r.0@.reasoning_effort is None,
            r.0@.temperature is None,
            r.0@.last_tokens is None,
            r.1@ == (metadata::MetadataView {
                message_count: Some(0),
                ..session_metadata(r.0@, r.0@.created_at)
            }),
    {
        ConversationSession::new_at(session_id, config, ids::utc_now())
    }

    /// The session `session_id` as its file describes it.
    pub fn resume(session_id: &str, meta: &SessionMetadata) -> (r: Self)
        ensures
            r@ == resumed(session_id@, meta@),
    {
        ConversationSession {
            session_id: session_id.to_string(),
            agent_id: meta.agent_id.clone(),
            created_at: meta.created_at.clone(),
            title_set: meta.title.is_some(),
            current_title: clone_opt(&meta.title),
            workspace_id: clone_opt(&meta.workspace_id),
            model: clone_opt(&meta.model),
            provider: clone_opt(&meta.provider),
            reasoning_effort: clone_opt(&meta.reasoning_effort),
            temperature: clone_number(&meta.temperature),
            last_tokens: match (meta.last_input_tokens, meta.last_output_tokens) {
                (Some(i), Some(o)) => Some((i, o)),
                (Some(i), None) => Some((i, 0)),
                (None, Some(o)) => Some((0, o)),
                (None, None) => None,
            },
        }
    }

    /// The metadata of the session at the time `now`.
    pub fn metadata_at(&self, now: String) -> (r: SessionMetadata)
        ensures
            r@ == session_metadata(self@, now@),
    {
        SessionMetadata {
            version: CONVERSATION_FORMAT_VERSION,
            session_id: self.session_id.clone(),
            created_at: self.created_at.clone(),
            agent_id: self.agent_id.clone(),
            title: clone_opt(&self.current_title),
            updated_at: Some(now),
            message_count: None,
            corrupted: false,
            workspace_id: clone_opt(&self.workspace_id),
            model: clone_opt(&self.model),
            provider: clone_opt(&self.provider),
            reasoning_effort: clone_opt(&self.reasoning_effort),
            temperature: clone_number(&self.temperature),
            last_input_tokens: match self.last_tokens {
                Some((i, _)) => Some(i),
                None => None,
            },
            last_output_tokens: match self.last_tokens {
                Some((_, o)) => Some(o),
                None => None,
            },
            last_compaction_offset: None,
        }
    }

    /// The metadata of the session now.
    fn metadata_now(&self) -> (r: SessionMetadata)
        ensures
            is_metadata_of(self@, r@),
    {
        self.metadata_at(ids::utc_now())
    }

    /// The entry to append for a message.
    pub fn append_message(
        &self,
        role: &str,
        content: &str,
        metadata: Option<Json>,
    ) -> (r: ConversationEntry)
        ensures
            ids::uuid_text(r@.id),
            ids::utc_stamp(r@.ts),
            r@ == (entry::EntryView {
                id: r@.id,
                ts: r@.ts,
                role: role@,
                content: content@,
                metadata: json::opt_view(metadata),
                kind: None,
            }),
    {
        message_entry(ids::new_uuid(), ids::utc_now(), role, content, metadata)
    }

    /// The entry to append for a compaction.
    pub fn append_compaction_event(
        &self,
        summary: &str,
        meta: &CompactionEventMeta,
    ) -> (r: ConversationEntry)
        ensures
            ids::uuid_text(r@.id),
            ids::utc_stamp(r@.ts),
            r@ == (entry::EntryView {
                id: r@.id,
                ts: r@.ts,
                role: "system"@,
                content: summary@,
                metadata: Some(entry::compaction_json(*meta)),
                kind: Some(ENTRY_KIND_COMPACTION@),
            }),
    {
        compaction_entry(ids::new_uuid(), ids::utc_now(), summary, meta)
    }

    /// The session's identifier.
    pub fn session_id(&self) -> (r: &str)
        ensures
            r@ == self@.session_id,
    {
        self.session_id.as_str()
    }

    /// The agent's identifier.
    pub fn agent_id(&self) -> (r: &str)
        ensures
            r@ == self@.agent_id,
    {
        self.agent_id.as_str()
    }

    /// Sets the title from the first message of the user, and gives the metadata
    /// to write. Once a title was set, nothing changes.
    pub fn set_title(&mut self, content: &str) -> (r: Option<SessionMetadata>)
        ensures
            if old(self)@.title_set {
                final(self)@ == old(self)@ && r is None
            } else {
                &&& final(self)@ == (SessionView {
                    title_set: true,
                    title: Some(title_of(content@)),
                    ..old(self)@
                })
                &&& r matches Some(m) && is_metadata_of(final(self)@, m@)
            },
    {
        if self.title_set {
            return None;
        }
        self.title_set = true;
        self.current_title = Some(title_text(content));
        Some(self.metadata_now())
    }

    /// Sets the title that the user gives, and gives the metadata to write,
    /// unless it is the title already.
    pub fn update_title_force(&mut self, title: &str) -> (r: Option<SessionMetadata>)
        ensures
            if old(self)@.title == Some(title@) {
                final(self)@ == old(self)@ && r is None
            } else {
                &&& final(self)@ == (SessionView {
                    title_set: true,
                    title: Some(cut_title(title@)),
                    ..old(self)@
                })
                &&& r matches Some(m) && is_metadata_of(final(self)@, m@)
            },
    {
        if let Some(current) = &self.current_title {
            if text::same_text(current.as_str(), title) {
                return None;
            }
        }
        self.title_set = true;
        self.current_title = Some(cut_title_text(title));
        Some(self.metadata_now())
    }

    /// Sets the workspace, and gives the metadata to write.
    pub fn update_workspace_id(&mut self, workspace_id: &str) -> (r: SessionMetadata)
        ensures
            final(self)@ == (SessionView { workspace_id: Some(workspace_id@), ..old(self)@ }),
            is_metadata_of(final(self)@, r@),
    {
        self.workspace_id = Some(workspace_id.to_string());
        self.metadata_now()
    }

    /// Sets the model and the provider, and gives the metadata to write.
    pub fn update_model_provider(
        &mut self,
        model: &str,
        provider: Option<&str>,
    ) -> (r: SessionMetadata)
        ensures
            final(self)@ == (SessionView {
                model: Some(model@),
                provider: match provider {
                    Some(p) => Some(p@),
                    None => None,
                },
                ..old(self)@
            }),
            is_metadata_of(final(self)@, r@),
    {
        self.model = Some(model.to_string());
        self.provider = match provider {
            Some(p) => Some(p.to_string()),
            None => None,
        };
        self.metadata_now()
    }

    /// Sets the reasoning effort, and gives the metadata to write.
    pub fn update_reasoning_effort(&mut self, effort: Option<String>) -> (r: SessionMetadata)
        ensures
            final(self)@ == (SessionView {
                reasoning_effort: text::opt_text(effort),
                ..old(self)@
            }),
            is_metadata_of(final(self)@, r@),
    {
        self.reasoning_effort = effort;
        self.metadata_now()
    }

    /// Sets the temperature, and gives the metadata to write.
    pub fn update_temperature(&mut self, temperature: Option<JsonNumber>) -> (r: SessionMetadata)
        ensures
            final(self)@ == (SessionView {
                temperature: metadata::number_view(temperature),
                ..old(self)@
            }),
            is_metadata_of(final(self)@, r@),
    {
        self.temperature = temperature;
        self.metadata_now()
    }

    /// Sets the tokens of the last reply, and gives the metadata to write.
    pub fn update_last_tokens(
        &mut self,
        input_tokens: u64,
        output_tokens: u64,
    ) -> (r: SessionMetadata)
        ensures
            final(self)@ == (SessionView {
                last_tokens: Some((input_tokens, output_tokens)),
                ..old(self)@
            }),
            is_metadata_of(final(self)@, r@),
    {
        self.last_tokens = Some((input_tokens, output_tokens));
        self.metadata_now()
    }

    /// The workspace, if one was chosen.
    pub fn workspace_id(&self) -> (r: Option<String>)
        ensures
            text::opt_text(r) == self@.workspace_id,
    {
        clone_opt(&self.workspace_id)
    }

    /// The model, if one was chosen.
    pub fn model(&self) -> (r: Option<String>)
        ensures
            text::opt_text(r) == self@.model,
    {
        clone_opt(&self.model)
    }

    /// The provider, if one was chosen.
    pub fn provider(&self) -> (r: Option<String>)
        ensures
            text::opt_text(r) == self@.provider,
    {
        clone_opt(&self.provider)
    }

    /// The reasoning effort, if one was chosen.
    pub fn reasoning_effort(&self) -> (r: Option<String>)
        ensures
            text::opt_text(r) == self@.reasoning_effort,
    {
        clone_opt(&self.reasoning_effort)
    }

    /// The temperature, if one was chosen.
    pub fn temperature(&self) -> (r: Option<JsonNumber>)
        ensures
            metadata::number_view(r) == self@.temperature,
    {
        clone_number(&self.temperature)
    }

    /// The prompt and completion tokens of the last reply.
    pub fn last_tokens(&self) -> (r: Option<(u64, u64)>)
        ensures
            r == self@.last_tokens,
    {
        self.last_tokens
    }
}

/// A session that is resumed from the metadata it has written is the session.
pub proof fn session_is_resumed(s: SessionView, now: Seq<char>)
    requires
        s.title_set == (s.title is Some),
    ensures
        resumed(s.session_id, session_metadata(s, now)) == s,
{
}

/// The identifier of a session: a local time, and the first digits of a UUID.
pub open spec fn session_id_of(stamp: Seq<char>, uuid: Seq<char>) -> Seq<char> {
    stamp.push('_') + uuid.take(6)
}

/// The identifier that a local time and a UUID make.
pub fn session_id_from(stamp: &str, uuid: &str) -> (r: String)
    requires
        uuid@.len() >= 6,
    ensures
        r@ == session_id_of(stamp@, uuid@),
{
    let mut r: String = stamp.to_string();
    r.push('_');
    let cs: Vec<char> = text::chars_of(uuid);
    let head: String = text::string_of(&cs, 0, 6);
    proof {
        assert(head@ =~= uuid@.take(6));
    }
    r.append(head.as_str());
    r
}

/// `s` is a local time to the second, an underscore, and six hexadecimal digits.
pub open spec fn is_session_id(s: Seq<char>) -> bool {
    &&& s.len() >= 22
    &&& ids::stamp_text(s.take(s.len() - 7))
    &&& s[s.len() - 7] == '_'
    &&& forall|i: int| s.len() - 6 <= i < s.len() ==> ids::hex_digit(#[trigger] s[i])
}

/// A new identifier for a session.
pub fn generate_session_id() -> (r: String)
    ensures
        is_session_id(r@),
{
    let stamp: String = ids::local_stamp();
    let uuid: String = ids::new_uuid();
    let r: String = session_id_from(stamp.as_str(), uuid.as_str());
    proof {
        let n = r@.len() as int;
        assert(r@.take(n - 7) =~= stamp@);
        assert forall|i: int| n - 6 <= i < n implies ids::hex_digit(#[trigger] r@[i]) by {
            assert(r@[i] == uuid@[i - (n - 6)]);
        }
    }
    r
}

} // verus!
