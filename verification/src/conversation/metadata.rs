//! The first line of a conversation file.

use crate::conversation::entry;
use crate::json::{Json, JsonMember, JsonNumber};
use crate::json;
use crate::message::clone_opt;
use crate::text;
use vstd::prelude::*;

verus! {

/// The format version of the conversation files.
pub const CONVERSATION_FORMAT_VERSION: u32 = 2;

/// What the first line of a conversation file says of the session.
#[derive(Debug, PartialEq, Eq)]
pub struct SessionMetadata {
    /// Format version.
    pub version: u32,
    /// The session's identifier.
    pub session_id: String,
    /// When the session was created, in ISO 8601.
    pub created_at: String,
    /// The agent's identifier.
    pub agent_id: String,
    /// The session's title.
    pub title: Option<String>,
    /// When the session last changed.
    pub updated_at: Option<String>,
    /// How many messages the session holds.
    pub message_count: Option<u32>,
    /// The first line was damaged, and the other fields hold defaults.
    pub corrupted: bool,
    /// The session's workspace; none, or `__agent_home__`, for the agent's home.
    pub workspace_id: Option<String>,
    /// The session's model.
    pub model: Option<String>,
    /// The session's provider.
    pub provider: Option<String>,
    /// The session's reasoning effort.
    pub reasoning_effort: Option<String>,
    /// The session's temperature, as it is written.
    pub temperature: Option<JsonNumber>,
    /// The prompt tokens of the last reply.
    pub last_input_tokens: Option<u64>,
    /// The completion tokens of the last reply.
    pub last_output_tokens: Option<u64>,
    /// Where the last mark of a compaction begins, counted in bytes from the start
    /// of the data section.
    pub last_compaction_offset: Option<u64>,
}

/// What a session's metadata hold.
pub struct MetadataView {
    pub version: u32,
    pub session_id: Seq<char>,
    pub created_at: Seq<char>,
    pub agent_id: Seq<char>,
    pub title: Option<Seq<char>>,
    pub updated_at: Option<Seq<char>>,
    pub message_count: Option<u32>,
    pub corrupted: bool,
    pub workspace_id: Option<Seq<char>>,
    pub model: Option<Seq<char>>,
    pub provider: Option<Seq<char>>,
    pub reasoning_effort: Option<Seq<char>>,
    pub temperature: Option<(Option<u64>, Seq<char>)>,
    pub last_input_tokens: Option<u64>,
    pub last_output_tokens: Option<u64>,
    pub last_compaction_offset: Option<u64>,
}

/// What an optional number holds.
pub open spec fn number_view(o: Option<JsonNumber>) -> Option<(Option<u64>, Seq<char>)> {
    match o {
        Some(n) => Some((n.unsigned, n.literal@)),
        None => None,
    }
}


/// A copy of an optional number.
pub fn clone_number(o: &Option<JsonNumber>) -> (r: Option<JsonNumber>)
    ensures
        number_view(r) == number_view(*o),
{
    match o {
        Some(n) => Some(n.clone()),
        None => None,
    }
}

impl View for SessionMetadata {
    type V = MetadataView;

    open spec fn view(&self) -> MetadataView {
        MetadataView {
            version: self.version,
            session_id: self.session_id@,
            created_at: self.created_at@,
            agent_id: self.agent_id@,
            title: text::opt_text(self.title),
            updated_at: text::opt_text(self.updated_at),
            message_count: self.message_count,
            corrupted: self.corrupted,
            workspace_id: text::opt_text(self.workspace_id),
            model: text::opt_text(self.model),
            provider: text::opt_text(self.provider),
            reasoning_effort: text::opt_text(self.reasoning_effort),
            temperature: number_view(self.temperature),
            last_input_tokens: self.last_input_tokens,
            last_output_tokens: self.last_output_tokens,
            last_compaction_offset: self.last_compaction_offset,
        }
    }
}

impl Clone for SessionMetadata {
    fn clone(&self) -> (r: Self)
        ensures
            r@ == self@,
    {
        SessionMetadata {
            version: self.version,
            session_id: self.session_id.clone(),
            created_at: self.created_at.clone(),
            agent_id: self.agent_id.clone(),
            title: clone_opt(&self.title),
            updated_at: clone_opt(&self.updated_at),
            message_count: self.message_count,
            corrupted: self.corrupted,
            workspace_id: clone_opt(&self.workspace_id),
            model: clone_opt(&self.model),
            provider: clone_opt(&self.provider),
            reasoning_effort: clone_opt(&self.reasoning_effort),
            temperature: clone_number(&self.temperature),
            last_input_tokens: self.last_input_tokens,
            last_output_tokens: self.last_output_tokens,
            last_compaction_offset: self.last_compaction_offset,
        }
    }
}

/// What optional metadata hold.
pub open spec fn opt_metadata(o: Option<SessionMetadata>) -> Option<MetadataView> {
    match o {
        Some(m) => Some(m@),
        None => None,
    }
}

/// An optional member that has to be an unsigned integer of at most `max`, where
/// it is present.
pub open spec fn integer_if_present(j: json::JsonView, key: Seq<char>, max: u64) -> bool {
    entry::present(j, key) matches Some(v) ==> (v.as_u64() matches Some(n) && n <= max)
}

/// The value of an optional integer member.
pub open spec fn integer_at(j: json::JsonView, key: Seq<char>) -> Option<u64> {
    match entry::present(j, key) {
        Some(v) => v.as_u64(),
        None => None,
    }
}

/// The value of an optional integer member of 32 bits.
pub open spec fn short_at(j: json::JsonView, key: Seq<char>) -> Option<u32> {
    match integer_at(j, key) {
        Some(n) => Some(n as u32),
        None => None,
    }
}

/// The number of an optional member.
pub open spec fn number_at(j: json::JsonView, key: Seq<char>) -> Option<(Option<u64>, Seq<char>)> {
    match entry::present(j, key) {
        Some(json::JsonView::Number(n, literal)) => Some((n, literal)),
        _ => None,
    }
}

/// The members that have to be there are, and each member has the type that it
/// has to have.
pub open spec fn is_metadata(j: json::JsonView) -> bool {
    &&& j.u64_at("version"@) matches Some(n) && n <= u32::MAX
    &&& j.str_at("session_id"@) is Some
    &&& j.str_at("created_at"@) is Some
    &&& j.str_at("agent_id"@) is Some
    &&& entry::text_if_present(j, "title"@)
    &&& entry::text_if_present(j, "updated_at"@)
    &&& integer_if_present(j, "message_count"@, u32::MAX as u64)
    &&& j.get("corrupted"@) matches Some(v) ==> v is Bool
    &&& entry::text_if_present(j, "workspace_id"@)
    &&& entry::text_if_present(j, "model"@)
    &&& entry::text_if_present(j, "provider"@)
    &&& entry::text_if_present(j, "reasoning_effort"@)
    &&& entry::present(j, "temperature"@) matches Some(v) ==> v is Number
    &&& integer_if_present(j, "last_input_tokens"@, u64::MAX)
    &&& integer_if_present(j, "last_output_tokens"@, u64::MAX)
    &&& integer_if_present(j, "last_compaction_offset"@, u64::MAX)
}

/// The members of a session's metadata, in their order.
pub open spec fn metadata_names() -> Seq<Seq<char>> {
    seq![
        "version"@,
        "session_id"@,
        "created_at"@,
        "agent_id"@,
        "title"@,
        "updated_at"@,
        "message_count"@,
        "corrupted"@,
        "workspace_id"@,
        "model"@,
        "provider"@,
        "reasoning_effort"@,
        "temperature"@,
        "last_input_tokens"@,
        "last_output_tokens"@,
        "last_compaction_offset"@,
    ]
}

/// The metadata that a JSON value stands for, if it stands for some. Other
/// members are ignored. The members may be written as an array, of which those from
/// `reasoning_effort` on may be left out.
pub open spec fn decoded_metadata(j: json::JsonView) -> Option<MetadataView> {
    let j = json::named(j, metadata_names(), 11);
    if is_metadata(j) {
        Some(
            MetadataView {
                version: j.u64_at("version"@).unwrap() as u32,
                session_id: j.str_at("session_id"@).unwrap(),
                created_at: j.str_at("created_at"@).unwrap(),
                agent_id: j.str_at("agent_id"@).unwrap(),
                title: j.str_at("title"@),
                updated_at: j.str_at("updated_at"@),
                message_count: short_at(j, "message_count"@),
                corrupted: j.bool_at("corrupted"@) == Some(true),
                workspace_id: j.str_at("workspace_id"@),
                model: j.str_at("model"@),
                provider: j.str_at("provider"@),
                reasoning_effort: j.str_at("reasoning_effort"@),
                temperature: number_at(j, "temperature"@),
                last_input_tokens: integer_at(j, "last_input_tokens"@),
                last_output_tokens: integer_at(j, "last_output_tokens"@),
                last_compaction_offset: integer_at(j, "last_compaction_offset"@),
            },
        )
    } else {
        None
    }
}

/// `m` with the integer member `key`, if there is one.
pub open spec fn with_opt_integer(
    m: Seq<(Seq<char>, json::JsonView)>,
    key: Seq<char>,
    o: Option<u64>,
) -> Seq<(Seq<char>, json::JsonView)> {
    match o {
        Some(n) => m.push((key, json::integer_view(n))),
        None => m,
    }
}

/// `m` with the number member `key`, if there is one.
pub open spec fn with_opt_number(
    m: Seq<(Seq<char>, json::JsonView)>,
    key: Seq<char>,
    o: Option<(Option<u64>, Seq<char>)>,
) -> Seq<(Seq<char>, json::JsonView)> {
    match o {
        Some(n) => m.push((key, json::JsonView::Number(n.0, n.1))),
        None => m,
    }
}

/// A 32-bit integer as one of 64 bits.
pub open spec fn widened(o: Option<u32>) -> Option<u64> {
    match o {
        Some(n) => Some(n as u64),
        None => None,
    }
}

/// The members of a session's metadata up to `corrupted`.
pub open spec fn leading_members(m: MetadataView) -> Seq<(Seq<char>, json::JsonView)> {
    let a = seq![
        ("version"@, json::integer_view(m.version as u64)),
        ("session_id"@, json::JsonView::Text(m.session_id)),
        ("created_at"@, json::JsonView::Text(m.created_at)),
        ("agent_id"@, json::JsonView::Text(m.agent_id)),
    ];
    let b = json::with_opt_text(a, "title"@, m.title);
    let c = json::with_opt_text(b, "updated_at"@, m.updated_at);
    let d = with_opt_integer(c, "message_count"@, widened(m.message_count));
    d.push(("corrupted"@, json::JsonView::Bool(m.corrupted)))
}

/// The members of a session's metadata.
pub open spec fn metadata_members(m: MetadataView) -> Seq<(Seq<char>, json::JsonView)> {
    let a = json::with_opt_text(leading_members(m), "workspace_id"@, m.workspace_id);
    let b = json::with_opt_text(a, "model"@, m.model);
    let c = json::with_opt_text(b, "provider"@, m.provider);
    let d = json::with_opt_text(c, "reasoning_effort"@, m.reasoning_effort);
    let e = with_opt_number(d, "temperature"@, m.temperature);
    let f = with_opt_integer(e, "last_input_tokens"@, m.last_input_tokens);
    let g = with_opt_integer(f, "last_output_tokens"@, m.last_output_tokens);
    with_opt_integer(g, "last_compaction_offset"@, m.last_compaction_offset)
}

/// A session's metadata as a JSON object.
pub open spec fn metadata_json(m: MetadataView) -> json::JsonView {
    json::JsonView::Object(metadata_members(m))
}

/// The metadata that the first line of a file stands for.
pub open spec fn metadata_of_text(s: Seq<char>) -> Option<MetadataView> {
    match json::json_of_text(s) {
        Some(j) => decoded_metadata(j),
        None => None,
    }
}

/// The first line of a file, without its newline.
pub open spec fn metadata_text(m: MetadataView) -> Seq<char> {
    json::written(json::stored(metadata_json(m)))
}

/// The metadata are read back as they are written: their temperature is a number
/// that can be written.
pub open spec fn is_kept(m: MetadataView) -> bool {
    m.temperature matches Some(n) ==> json::is_number(n.0, n.1)
}

/// The two are the same, but for a temperature that is not an integer, whose last
/// digits may differ.
pub open spec fn same_metadata(a: MetadataView, b: MetadataView) -> bool {
    &&& b == (MetadataView { temperature: b.temperature, ..a })
    &&& match a.temperature {
        Some(n) => b.temperature matches Some(k) && json::same_number(n, k),
        None => b.temperature is None,
    }
}

/// The title of a session whose first line is damaged.
pub const CORRUPTED_TITLE: &'static str = "(corrupted session)";

/// What is known of a session whose first line is damaged: its identifier, which
/// is the file's name.
pub open spec fn recovered(stem: Seq<char>) -> MetadataView {
    MetadataView {
        version: CONVERSATION_FORMAT_VERSION,
        session_id: stem,
        created_at: Seq::empty(),
        agent_id: Seq::empty(),
        title: Some(CORRUPTED_TITLE@),
        corrupted: true,
        updated_at: None,
        message_count: None,
        workspace_id: None,
        model: None,
        provider: None,
        reasoning_effort: None,
        temperature: None,
        last_input_tokens: None,
        last_output_tokens: None,
        last_compaction_offset: None,
    }
}

fn read_integer(j: &Json, key: &str) -> (r: Option<u64>)
    ensures
        r == integer_at(j@, key@),
{
    match entry::get_present(j, key) {
        Some(v) => v.as_u64(),
        None => None,
    }
}

fn read_short(j: &Json, key: &str) -> (r: Option<u32>)
    ensures
        r == short_at(j@, key@),
{
    match read_integer(j, key) {
        Some(n) => Some(#[verifier::truncate] (n as u32)),
        None => None,
    }
}

fn is_integer_if_present(j: &Json, key: &str, max: u64) -> (r: bool)
    ensures
        r == integer_if_present(j@, key@, max),
{
    match entry::get_present(j, key) {
        Some(v) => match v.as_u64() {
            Some(n) => n <= max,
            None => false,
        },
        None => true,
    }
}

fn is_number_if_present(j: &Json, key: &str) -> (r: bool)
    ensures
        r == (entry::present(j@, key@) matches Some(v) ==> v is Number),
{
    match entry::get_present(j, key) {
        Some(Json::Number(_)) => true,
        Some(_) => false,
        None => true,
    }
}

fn read_number(j: &Json, key: &str) -> (r: Option<JsonNumber>)
    ensures
        number_view(r) == number_at(j@, key@),
{
    match entry::get_present(j, key) {
        Some(Json::Number(n)) => Some(n),
        _ => None,
    }
}

fn is_bool_if_given(j: &Json, key: &str) -> (r: bool)
    ensures
        r == (j@.get(key@) matches Some(v) ==> v is Bool),
{
    match j.get(key) {
        Some(Json::Bool(_)) => true,
        Some(_) => false,
        None => true,
    }
}

fn optional_members_fit(j: &Json) -> (r: bool)
    ensures
        r == ({
            &&& entry::text_if_present(j@, "title"@)
            &&& entry::text_if_present(j@, "updated_at"@)
            &&& integer_if_present(j@, "message_count"@, u32::MAX as u64)
            &&& j@.get("corrupted"@) matches Some(v) ==> v is Bool
            &&& entry::text_if_present(j@, "workspace_id"@)
            &&& entry::text_if_present(j@, "model"@)
            &&& entry::text_if_present(j@, "provider"@)
            &&& entry::text_if_present(j@, "reasoning_effort"@)
            &&& entry::present(j@, "temperature"@) matches Some(v) ==> v is Number
            &&& integer_if_present(j@, "last_input_tokens"@, u64::MAX)
            &&& integer_if_present(j@, "last_output_tokens"@, u64::MAX)
            &&& integer_if_present(j@, "last_compaction_offset"@, u64::MAX)
        }),
{
    entry::is_text_if_present(j, "title") && entry::is_text_if_present(j, "updated_at")
        && is_integer_if_present(j, "message_count", u32::MAX as u64) && is_bool_if_given(
        j,
        "corrupted",
    ) && entry::is_text_if_present(j, "workspace_id") && entry::is_text_if_present(j, "model")
        && entry::is_text_if_present(j, "provider") && entry::is_text_if_present(
        j,
        "reasoning_effort",
    ) && is_number_if_present(j, "temperature") && is_integer_if_present(
        j,
        "last_input_tokens",
        u64::MAX,
    ) && is_integer_if_present(j, "last_output_tokens", u64::MAX) && is_integer_if_present(
        j,
        "last_compaction_offset",
        u64::MAX,
    )
}

fn add_opt_integer(m: &mut Vec<JsonMember>, key: &str, o: Option<u64>)
    ensures
        json::member_views(final(m)@) == with_opt_integer(json::member_views(old(m)@), key@, o),
{
    if let Some(n) = o {
        json::add_member(m, key, json::integer_value(n));
    }
}

fn add_opt_number(m: &mut Vec<JsonMember>, key: &str, o: &Option<JsonNumber>)
    ensures
        json::member_views(final(m)@) == with_opt_number(
            json::member_views(old(m)@),
            key@,
            number_view(*o),
        ),
{
    if let Some(n) = o {
        json::add_member(m, key, Json::Number(n.clone()));
    }
}

impl SessionMetadata {
    /// The metadata that a JSON value stands for.
    pub fn from_json(j: &Json) -> (r: Option<Self>)
        ensures
            opt_metadata(r) == decoded_metadata(j@),
    {
        let names: Vec<&'static str> = vec![
            "version",
            "session_id",
            "created_at",
            "agent_id",
            "title",
            "updated_at",
            "message_count",
            "corrupted",
            "workspace_id",
            "model",
            "provider",
            "reasoning_effort",
            "temperature",
            "last_input_tokens",
            "last_output_tokens",
            "last_compaction_offset",
        ];
        proof {
            assert(json::name_texts(names@) =~= metadata_names());
        }
        let object: Option<Json> = json::name_elements(j, &names, 11);
        let j: &Json = match &object {
            Some(o) => o,
            None => j,
        };
        let version: u64 = match j.u64_at("version") {
            Some(n) => n,
            None => {
                return None;
            },
        };
        if version > u32::MAX as u64 {
            return None;
        }
        let session_id: String = match j.str_at("session_id") {
            Some(s) => s,
            None => {
                return None;
            },
        };
        let created_at: String = match j.str_at("created_at") {
            Some(s) => s,
            None => {
                return None;
            },
        };
        let agent_id: String = match j.str_at("agent_id") {
            Some(s) => s,
            None => {
                return None;
            },
        };
        if !optional_members_fit(j) {
            return None;
        }
        Some(
            SessionMetadata {
                version: version as u32,
                session_id,
                created_at,
                agent_id,
                title: j.str_at("title"),
                updated_at: j.str_at("updated_at"),
                message_count: read_short(j, "message_count"),
                corrupted: match j.bool_at("corrupted") {
                    Some(b) => b,
                    None => false,
                },
                workspace_id: j.str_at("workspace_id"),
                model: j.str_at("model"),
                provider: j.str_at("provider"),
                reasoning_effort: j.str_at("reasoning_effort"),
                temperature: read_number(j, "temperature"),
                last_input_tokens: read_integer(j, "last_input_tokens"),
                last_output_tokens: read_integer(j, "last_output_tokens"),
                last_compaction_offset: read_integer(j, "last_compaction_offset"),
            },
        )
    }

    /// The metadata as a JSON object.
    pub fn to_json(&self) -> (r: Json)
        ensures
            r@ == metadata_json(self@),
    {
        let mut m: Vec<JsonMember> = json::no_members();
        json::add_member(&mut m, "version", json::integer_value(self.version as u64));
        json::add_member(&mut m, "session_id", Json::Text(self.session_id.clone()));
        json::add_member(&mut m, "created_at", Json::Text(self.created_at.clone()));
        json::add_member(&mut m, "agent_id", Json::Text(self.agent_id.clone()));
        proof {
            assert(json::member_views(m@) =~= seq![
                ("version"@, json::integer_view(self@.version as u64)),
                ("session_id"@, json::JsonView::Text(self@.session_id)),
                ("created_at"@, json::JsonView::Text(self@.created_at)),
                ("agent_id"@, json::JsonView::Text(self@.agent_id)),
            ]);
        }
        json::add_opt_text(&mut m, "title", &self.title);
        json::add_opt_text(&mut m, "updated_at", &self.updated_at);
        add_opt_integer(
            &mut m,
            "message_count",
            match self.message_count {
                Some(n) => Some(n as u64),
                None => None,
            },
        );
        json::add_member(&mut m, "corrupted", Json::Bool(self.corrupted));
        proof {
            assert(json::member_views(m@) == leading_members(self@));
        }
        json::add_opt_text(&mut m, "workspace_id", &self.workspace_id);
        json::add_opt_text(&mut m, "model", &self.model);
        json::add_opt_text(&mut m, "provider", &self.provider);
        json::add_opt_text(&mut m, "reasoning_effort", &self.reasoning_effort);
        add_opt_number(&mut m, "temperature", &self.temperature);
        add_opt_integer(&mut m, "last_input_tokens", self.last_input_tokens);
        add_opt_integer(&mut m, "last_output_tokens", self.last_output_tokens);
        add_opt_integer(&mut m, "last_compaction_offset", self.last_compaction_offset);
        json::object_value(m)
    }

    /// The first line of a file, without its newline.
    pub fn to_text(&self) -> (r: String)
        ensures
            r@ == metadata_text(self@),
            json::is_line(r@),
            is_kept(self@) ==> (metadata_of_text(r@) matches Some(k) && same_metadata(self@, k)),
    {
        let j: Json = self.to_json();
        let r: String = json::json_text(&j);
        proof {
            if is_kept(self@) {
                lemma_metadata_are_writable(self@);
                metadata_json_is_decoded(self@, json::json_of_text(r@)->0);
            }
        }
        r
    }

    /// What is known of a session whose first line is damaged.
    pub fn recovered(stem: &str) -> (r: Self)
        ensures
            r@ == recovered(stem@),
    {
        proof {
            reveal_strlit("");
        }
        let r: SessionMetadata = SessionMetadata {
            version: CONVERSATION_FORMAT_VERSION,
            session_id: stem.to_string(),
            created_at: "".to_string(),
            agent_id: "".to_string(),
            title: Some(CORRUPTED_TITLE.to_string()),
            updated_at: None,
            message_count: None,
            corrupted: true,
            workspace_id: None,
            model: None,
            provider: None,
            reasoning_effort: None,
            temperature: None,
            last_input_tokens: None,
            last_output_tokens: None,
            last_compaction_offset: None,
        };
        proof {
            assert(r@.created_at =~= Seq::empty());
            assert(r@.agent_id =~= Seq::empty());
        }
        r
    }
}

/// The metadata of the session whose file has the name `stem` and the first line
/// `line`: what the line says, or where it is damaged, what the name says.
pub fn metadata_of_line(line: &str, stem: &str) -> (r: SessionMetadata)
    ensures
        r@ == (match metadata_of_text(text::trimmed(line@)) {
            Some(m) => m,
            None => recovered(stem@),
        }),
{
    let trimmed: String = text::trim(line);
    match json::parse_json(trimmed.as_str()) {
        Some(j) => match SessionMetadata::from_json(&j) {
            Some(m) => m,
            None => SessionMetadata::recovered(stem),
        },
        None => SessionMetadata::recovered(stem),
    }
}

/// A member that is added at the end is found under its key, unless there was
/// one before, and nothing else changes.
pub proof fn lemma_lookup_push(
    m: Seq<(Seq<char>, json::JsonView)>,
    k: Seq<char>,
    v: json::JsonView,
    key: Seq<char>,
)
    ensures
        json::lookup(m.push((k, v)), key) == (match json::lookup(m, key) {
            Some(x) => Some(x),
            None => if k == key {
                Some(v)
            } else {
                None
            },
        }),
    decreases m.len(),
{
    if m.len() == 0 {
        assert(m.push((k, v)).drop_first() =~= m);
    } else {
        assert(m.push((k, v)).drop_first() =~= m.drop_first().push((k, v)));
        lemma_lookup_push(m.drop_first(), k, v, key);
    }
}

/// The members of an object that is built from optional ones.
spec fn built(
    slots: Seq<(Seq<char>, Option<json::JsonView>)>,
) -> Seq<(Seq<char>, json::JsonView)>
    decreases slots.len(),
{
    if slots.len() == 0 {
        Seq::empty()
    } else {
        json::with_opt(built(slots.drop_last()), slots.last().0, slots.last().1)
    }
}

proof fn lemma_built_step(slots: Seq<(Seq<char>, Option<json::JsonView>)>, i: int)
    requires
        0 <= i < slots.len(),
    ensures
        built(slots.take(i + 1)) == json::with_opt(
            built(slots.take(i)),
            slots[i].0,
            slots[i].1,
        ),
{
    assert(slots.take(i + 1).drop_last() =~= slots.take(i));
}

proof fn lemma_built_absent(slots: Seq<(Seq<char>, Option<json::JsonView>)>, key: Seq<char>)
    requires
        forall|i: int| 0 <= i < slots.len() ==> (#[trigger] slots[i]).0 != key,
    ensures
        json::lookup(built(slots), key) is None,
    decreases slots.len(),
{
    if slots.len() > 0 {
        lemma_built_absent(slots.drop_last(), key);
        if let Some(v) = slots.last().1 {
            lemma_lookup_push(built(slots.drop_last()), slots.last().0, v, key);
        }
    }
}

proof fn lemma_built(slots: Seq<(Seq<char>, Option<json::JsonView>)>, i: int)
    requires
        0 <= i < slots.len(),
        forall|a: int, b: int|
            0 <= a < b < slots.len() ==> (#[trigger] slots[a]).0 != (#[trigger] slots[b]).0,
    ensures
        json::lookup(built(slots), slots[i].0) == slots[i].1,
    decreases slots.len(),
{
    let key = slots[i].0;
    let rest = slots.drop_last();
    if i == slots.len() - 1 {
        lemma_built_absent(rest, key);
    } else {
        assert(rest[i] == slots[i]);
        lemma_built(rest, i);
    }
    if let Some(v) = slots.last().1 {
        lemma_lookup_push(built(rest), slots.last().0, v, key);
    }
}

/// The members of a session's metadata, with those that are absent.
spec fn slots_of(m: MetadataView) -> Seq<(Seq<char>, Option<json::JsonView>)> {
    seq![
        ("version"@, Some(json::integer_view(m.version as u64))),
        ("session_id"@, Some(json::JsonView::Text(m.session_id))),
        ("created_at"@, Some(json::JsonView::Text(m.created_at))),
        ("agent_id"@, Some(json::JsonView::Text(m.agent_id))),
        ("title"@, as_text(m.title)),
        ("updated_at"@, as_text(m.updated_at)),
        ("message_count"@, as_integer(widened(m.message_count))),
        ("corrupted"@, Some(json::JsonView::Bool(m.corrupted))),
        ("workspace_id"@, as_text(m.workspace_id)),
        ("model"@, as_text(m.model)),
        ("provider"@, as_text(m.provider)),
        ("reasoning_effort"@, as_text(m.reasoning_effort)),
        ("temperature"@, as_number(m.temperature)),
        ("last_input_tokens"@, as_integer(m.last_input_tokens)),
        ("last_output_tokens"@, as_integer(m.last_output_tokens)),
        ("last_compaction_offset"@, as_integer(m.last_compaction_offset)),
    ]
}

proof fn lemma_slots_differ(m: MetadataView)
    ensures
        forall|a: int, b: int|
            0 <= a < b < slots_of(m).len() ==> (#[trigger] slots_of(m)[a]).0 != (
            #[trigger] slots_of(m)[b]).0,
{
    reveal_strlit("version");
    reveal_strlit("session_id");
    reveal_strlit("created_at");
    reveal_strlit("agent_id");
    reveal_strlit("title");
    reveal_strlit("updated_at");
    reveal_strlit("message_count");
    reveal_strlit("corrupted");
    reveal_strlit("workspace_id");
    reveal_strlit("model");
    reveal_strlit("provider");
    reveal_strlit("reasoning_effort");
    reveal_strlit("temperature");
    reveal_strlit("last_input_tokens");
    reveal_strlit("last_output_tokens");
    reveal_strlit("last_compaction_offset");
    let slots = slots_of(m);
    assert(slots[0].0.len() == 7);
    assert(slots[1].0.len() == 10);
    assert(slots[2].0.len() == 10);
    assert(slots[3].0.len() == 8);
    assert(slots[4].0.len() == 5);
    assert(slots[5].0.len() == 10);
    assert(slots[6].0.len() == 13);
    assert(slots[7].0.len() == 9);
    assert(slots[8].0.len() == 12);
    assert(slots[9].0.len() == 5);
    assert(slots[10].0.len() == 8);
    assert(slots[11].0.len() == 16);
    assert(slots[12].0.len() == 11);
    assert(slots[13].0.len() == 17);
    assert(slots[14].0.len() == 18);
    assert(slots[15].0.len() == 22);
    assert("session_id"@[0] != "created_at"@[0]);
    assert("session_id"@[0] != "updated_at"@[0]);
    assert("created_at"@[0] != "updated_at"@[0]);
    assert("agent_id"@[0] != "provider"@[0]);
    assert("title"@[0] != "model"@[0]);
}

proof fn lemma_slots_built(m: MetadataView)
    ensures
        metadata_members(m) == built(slots_of(m)),
{
    let slots = slots_of(m);
    assert(slots.take(0) =~= Seq::empty());
    lemma_built_step(slots, 0);
    lemma_built_step(slots, 1);
    lemma_built_step(slots, 2);
    lemma_built_step(slots, 3);
    lemma_built_step(slots, 4);
    lemma_built_step(slots, 5);
    lemma_built_step(slots, 6);
    lemma_built_step(slots, 7);
    lemma_built_step(slots, 8);
    lemma_built_step(slots, 9);
    lemma_built_step(slots, 10);
    lemma_built_step(slots, 11);
    lemma_built_step(slots, 12);
    lemma_built_step(slots, 13);
    lemma_built_step(slots, 14);
    lemma_built_step(slots, 15);
    assert(slots.take(16) =~= slots);
    assert(built(slots.take(4)) =~= seq![
        ("version"@, json::integer_view(m.version as u64)),
        ("session_id"@, json::JsonView::Text(m.session_id)),
        ("created_at"@, json::JsonView::Text(m.created_at)),
        ("agent_id"@, json::JsonView::Text(m.agent_id)),
    ]);
    assert(built(slots.take(8)) == leading_members(m));
}

/// The member of a session's JSON object in a slot, and what the same object has in
/// its place.
proof fn lemma_slot(m: MetadataView, j: json::JsonView, i: int)
    requires
        0 <= i < slots_of(m).len(),
        json::same_value(metadata_json(m), j),
    ensures
        match slots_of(m)[i].1 {
            Some(v) => j.get(slots_of(m)[i].0) matches Some(w) && json::same_value(v, w),
            None => j.get(slots_of(m)[i].0) is None,
        },
        j == metadata_json(m) ==> j.get(slots_of(m)[i].0) == slots_of(m)[i].1,
{
    lemma_slots_differ(m);
    lemma_slots_built(m);
    lemma_built(slots_of(m), i);
    json::lemma_same_members(metadata_members(m), j->Object_0, slots_of(m)[i].0);
}

/// What a session's JSON object says are its metadata again. Where the last digits
/// of the temperature differ in the object, they differ in the metadata.
pub proof fn metadata_json_is_decoded(m: MetadataView, j: json::JsonView)
    requires
        json::same_value(metadata_json(m), j),
    ensures
        decoded_metadata(j) matches Some(k) && same_metadata(m, k),
        j == metadata_json(m) ==> decoded_metadata(j) == Some(m),
{
    lemma_slot(m, j, 0);
    lemma_slot(m, j, 1);
    lemma_slot(m, j, 2);
    lemma_slot(m, j, 3);
    lemma_slot(m, j, 4);
    lemma_slot(m, j, 5);
    lemma_slot(m, j, 6);
    lemma_slot(m, j, 7);
    lemma_slot(m, j, 8);
    lemma_slot(m, j, 9);
    lemma_slot(m, j, 10);
    lemma_slot(m, j, 11);
    lemma_slot(m, j, 12);
    lemma_slot(m, j, 13);
    lemma_slot(m, j, 14);
    lemma_slot(m, j, 15);
}

/// The members that are there, of which each is one of `slots`.
proof fn lemma_built_members(slots: Seq<(Seq<char>, Option<json::JsonView>)>, i: int) -> (k: int)
    requires
        0 <= i < built(slots).len(),
    ensures
        0 <= k < slots.len(),
        slots[k].0 == built(slots)[i].0,
        slots[k].1 == Some(built(slots)[i].1),
    decreases slots.len(),
{
    let rest = built(slots.drop_last());
    if i < rest.len() {
        let k = lemma_built_members(slots.drop_last(), i);
        assert(slots.drop_last()[k] == slots[k]);
        k
    } else {
        slots.len() - 1
    }
}

proof fn lemma_built_distinct(slots: Seq<(Seq<char>, Option<json::JsonView>)>)
    requires
        forall|a: int, b: int|
            0 <= a < b < slots.len() ==> (#[trigger] slots[a]).0 != (#[trigger] slots[b]).0,
    ensures
        json::distinct_keys(built(slots)),
    decreases slots.len(),
{
    if slots.len() > 0 {
        let rest = slots.drop_last();
        assert forall|a: int, b: int| 0 <= a < b < rest.len() implies (#[trigger] rest[a]).0 != (
        #[trigger] rest[b]).0 by {
            assert(rest[a] == slots[a]);
            assert(rest[b] == slots[b]);
        }
        lemma_built_distinct(rest);
        let all = built(slots);
        assert forall|i: int, k: int| 0 <= i < k < all.len() implies #[trigger] all[i].0
            != #[trigger] all[k].0 by {
            if k < built(rest).len() {
                assert(built(rest)[i] == all[i]);
                assert(built(rest)[k] == all[k]);
            } else {
                assert(built(rest)[i] == all[i]);
                let a = lemma_built_members(rest, i);
                assert(rest[a] == slots[a]);
                assert(slots[a].0 != slots[slots.len() - 1].0);
            }
        }
    }
}

proof fn lemma_slot_is_writable(m: MetadataView, k: int, depth: nat)
    requires
        is_kept(m),
        0 <= k < slots_of(m).len(),
    ensures
        slots_of(m)[k].1 matches Some(v) ==> json::writable(v, depth),
{
    let v = slots_of(m)[k].1;
    if k == 0 || k == 6 || k >= 13 {
        assert(v matches Some(w) ==> w is Number && json::is_number(w->Number_0, w->Number_1));
    } else if k == 7 {
        assert(v matches Some(w) && w is Bool);
    } else if k == 12 {
        assert(v == as_number(m.temperature));
    } else {
        assert(v matches Some(w) ==> w is Text);
    }
}

/// Metadata that are kept can be written.
proof fn lemma_metadata_are_writable(m: MetadataView)
    requires
        is_kept(m),
    ensures
        json::writable(metadata_json(m), json::MAX_DEPTH as nat),
{
    let slots = slots_of(m);
    lemma_slots_differ(m);
    lemma_slots_built(m);
    lemma_built_distinct(slots);
    let all = metadata_members(m);
    let depth = (json::MAX_DEPTH - 1) as nat;
    assert forall|i: int| 0 <= i < all.len() implies json::writable((#[trigger] all[i]).1, depth) by {
        let k = lemma_built_members(slots, i);
        lemma_slot_is_writable(m, k, depth);
    }
}

spec fn as_text(o: Option<Seq<char>>) -> Option<json::JsonView> {
    match o {
        Some(s) => Some(json::JsonView::Text(s)),
        None => None,
    }
}

spec fn as_integer(o: Option<u64>) -> Option<json::JsonView> {
    match o {
        Some(n) => Some(json::integer_view(n)),
        None => None,
    }
}

spec fn as_number(o: Option<(Option<u64>, Seq<char>)>) -> Option<json::JsonView> {
    match o {
        Some(n) => Some(json::JsonView::Number(n.0, n.1)),
        None => None,
    }
}

} // verus!
