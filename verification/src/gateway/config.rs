//! What the gateway configures.

use crate::conversation::entry;
use crate::gateway::replies::AGENT_HOME;
use crate::json::{Json, JsonMember};
use crate::json;
use crate::paths;
use crate::text;
use vstd::prelude::*;

verus! {

/// What is kept of the gateway's lists between two starts: their versions, and
/// the lists of providers and servers without their keys.
#[derive(Debug, PartialEq, Eq)]
pub struct RuntimeResourceCache {
    pub provider_list_version: u64,
    pub mcp_list_version: u64,
    pub search_list_version: u64,
    pub user_profile_version: u64,
    pub providers: Option<Json>,
    pub mcps: Option<Json>,
}

/// What the cache holds.
pub struct CacheView {
    pub provider_list_version: u64,
    pub mcp_list_version: u64,
    pub search_list_version: u64,
    pub user_profile_version: u64,
    pub providers: Option<json::JsonView>,
    pub mcps: Option<json::JsonView>,
}

impl View for RuntimeResourceCache {
    type V = CacheView;

    open spec fn view(&self) -> CacheView {
        CacheView {
            provider_list_version: self.provider_list_version,
            mcp_list_version: self.mcp_list_version,
            search_list_version: self.search_list_version,
            user_profile_version: self.user_profile_version,
            providers: json::opt_view(self.providers),
            mcps: json::opt_view(self.mcps),
        }
    }
}

/// A cache with nothing in it.
pub open spec fn empty_cache() -> CacheView {
    CacheView {
        provider_list_version: 0,
        mcp_list_version: 0,
        search_list_version: 0,
        user_profile_version: 0,
        providers: None,
        mcps: None,
    }
}

impl Default for RuntimeResourceCache {
    fn default() -> (r: Self)
        ensures
            r@ == empty_cache(),
    {
        RuntimeResourceCache {
            provider_list_version: 0,
            mcp_list_version: 0,
            search_list_version: 0,
            user_profile_version: 0,
            providers: None,
            mcps: None,
        }
    }
}

/// A version is not given, or an integer.
pub open spec fn is_version(j: json::JsonView, key: Seq<char>) -> bool {
    j.get(key) matches Some(v) ==> v.as_u64() is Some
}

/// A version, or 0 where it is not given.
pub open spec fn version_at(j: json::JsonView, key: Seq<char>) -> u64 {
    match j.u64_at(key) {
        Some(n) => n,
        None => 0,
    }
}

/// The members of the cache, in their order.
pub open spec fn cache_names() -> Seq<Seq<char>> {
    seq![
        "provider_list_version"@,
        "mcp_list_version"@,
        "search_list_version"@,
        "user_profile_version"@,
        "providers"@,
        "mcps"@,
    ]
}

/// The cache that a JSON value stands for: an object in which each version is an
/// integer, where it is given, or the array of its members.
pub open spec fn decoded_cache(j: json::JsonView) -> Option<CacheView> {
    let j = json::named(j, cache_names(), 0);
    if j is Object && is_version(j, "provider_list_version"@) && is_version(
        j,
        "mcp_list_version"@,
    ) && is_version(j, "search_list_version"@) && is_version(j, "user_profile_version"@) {
        Some(
            CacheView {
                provider_list_version: version_at(j, "provider_list_version"@),
                mcp_list_version: version_at(j, "mcp_list_version"@),
                search_list_version: version_at(j, "search_list_version"@),
                user_profile_version: version_at(j, "user_profile_version"@),
                providers: entry::present(j, "providers"@),
                mcps: entry::present(j, "mcps"@),
            },
        )
    } else {
        None
    }
}

/// The members of the cache's JSON object.
pub open spec fn cache_members(c: CacheView) -> Seq<(Seq<char>, json::JsonView)> {
    json::with_opt(
        json::with_opt(
            seq![
                ("provider_list_version"@, json::integer_view(c.provider_list_version)),
                ("mcp_list_version"@, json::integer_view(c.mcp_list_version)),
                ("search_list_version"@, json::integer_view(c.search_list_version)),
                ("user_profile_version"@, json::integer_view(c.user_profile_version)),
            ],
            "providers"@,
            c.providers,
        ),
        "mcps"@,
        c.mcps,
    )
}

fn has_version(j: &Json, key: &str) -> (r: bool)
    ensures
        r == is_version(j@, key@),
{
    match j.get(key) {
        Some(v) => v.as_u64().is_some(),
        None => true,
    }
}

fn read_version(j: &Json, key: &str) -> (r: u64)
    ensures
        r == version_at(j@, key@),
{
    match j.u64_at(key) {
        Some(n) => n,
        None => 0,
    }
}

impl RuntimeResourceCache {
    /// The cache that a JSON value stands for, or an empty one where it stands for
    /// none.
    pub fn from_json(j: &Json) -> (r: Self)
        ensures
            r@ == (match decoded_cache(j@) {
                Some(c) => c,
                None => empty_cache(),
            }),
    {
        let names: Vec<&'static str> = vec![
            "provider_list_version",
            "mcp_list_version",
            "search_list_version",
            "user_profile_version",
            "providers",
            "mcps",
        ];
        proof {
            assert(json::name_texts(names@) =~= cache_names());
        }
        let object: Option<Json> = json::name_elements(j, &names, 0);
        let j: &Json = match &object {
            Some(o) => o,
            None => j,
        };
        let is_object: bool = match j {
            Json::Object(_) => true,
            _ => false,
        };
        if is_object && has_version(j, "provider_list_version") && has_version(
            j,
            "mcp_list_version",
        ) && has_version(j, "search_list_version") && has_version(j, "user_profile_version") {
            RuntimeResourceCache {
                provider_list_version: read_version(j, "provider_list_version"),
                mcp_list_version: read_version(j, "mcp_list_version"),
                search_list_version: read_version(j, "search_list_version"),
                user_profile_version: read_version(j, "user_profile_version"),
                providers: entry::get_present(j, "providers"),
                mcps: entry::get_present(j, "mcps"),
            }
        } else {
            RuntimeResourceCache::default()
        }
    }

    /// The cache that a text stands for, or an empty one where it stands for none.
    pub fn from_text(s: &str) -> (r: Self)
        ensures
            r@ == (match json::json_of_text(s@) {
                Some(j) => match decoded_cache(j) {
                    Some(c) => c,
                    None => empty_cache(),
                },
                None => empty_cache(),
            }),
    {
        match json::parse_json(s) {
            Some(j) => RuntimeResourceCache::from_json(&j),
            None => RuntimeResourceCache::default(),
        }
    }

    /// The cache as a JSON object.
    pub fn to_json(&self) -> (r: Json)
        ensures
            r@ == json::JsonView::Object(cache_members(self@)),
    {
        let mut m: Vec<JsonMember> = json::no_members();
        json::add_member(
            &mut m,
            "provider_list_version",
            json::integer_value(self.provider_list_version),
        );
        json::add_member(&mut m, "mcp_list_version", json::integer_value(self.mcp_list_version));
        json::add_member(
            &mut m,
            "search_list_version",
            json::integer_value(self.search_list_version),
        );
        json::add_member(
            &mut m,
            "user_profile_version",
            json::integer_value(self.user_profile_version),
        );
        json::add_opt(&mut m, "providers", &self.providers);
        json::add_opt(&mut m, "mcps", &self.mcps);
        let r: Json = json::object_value(m);
        proof {
            assert(r@->Object_0 =~= cache_members(self@));
        }
        r
    }

    /// Notes a new list of providers.
    pub fn update_providers(&mut self, version: u64, providers: Json)
        ensures
            final(self)@ == (CacheView {
                provider_list_version: version,
                providers: Some(providers@),
                ..old(self)@
            }),
    {
        self.provider_list_version = version;
        self.providers = Some(providers);
    }

    /// Notes a new list of search engines.
    pub fn update_search(&mut self, version: u64)
        ensures
            final(self)@ == (CacheView { search_list_version: version, ..old(self)@ }),
    {
        self.search_list_version = version;
    }

    /// Notes a new profile of the user.
    pub fn update_user_profile(&mut self, version: u64)
        ensures
            final(self)@ == (CacheView { user_profile_version: version, ..old(self)@ }),
    {
        self.user_profile_version = version;
    }
}

/// Where the cache is kept.
pub fn resource_cache_path(work_dir: &str) -> (r: String)
    ensures
        r@ == paths::joined_path(paths::joined_path(work_dir@, "config"@), "resource_cache.json"@),
{
    paths::join_path(paths::join_path(work_dir, "config").as_str(), "resource_cache.json")
}

/// The workspace of a session, and one that it will have when there is one.
#[derive(Debug, PartialEq, Eq)]
pub struct WorkspaceChoice {
    pub workspace_id: String,
    pub pending: Option<String>,
}

/// The workspace of a session for which `wanted` was asked: that one, if there is
/// one, and otherwise the agent's home until there is.
pub fn choose_workspace(wanted: &str, known: &Vec<String>) -> (r: WorkspaceChoice)
    ensures
        if wanted@ == AGENT_HOME@ || text::texts(known@).contains(wanted@) {
            r.workspace_id@ == wanted@ && r.pending is None
        } else {
            r.workspace_id@ == AGENT_HOME@ && text::opt_text(r.pending) == Some(wanted@)
        },
{
    let mut found: bool = text::same_text(wanted, AGENT_HOME);
    let mut i: usize = 0;
    while i < known.len()
        invariant
            i <= known@.len(),
            found == (wanted@ == AGENT_HOME@ || exists|k: int|
                0 <= k < i && #[trigger] text::texts(known@)[k] == wanted@),
        decreases known@.len() - i,
    {
        if text::same_text(known[i].as_str(), wanted) {
            proof {
                assert(text::texts(known@)[i as int] == wanted@);
            }
            found = true;
        }
        i = i + 1;
    }
    if found {
        WorkspaceChoice { workspace_id: wanted.to_string(), pending: None }
    } else {
        WorkspaceChoice {
            workspace_id: AGENT_HOME.to_string(),
            pending: Some(wanted.to_string()),
        }
    }
}

/// A picture after an update: an empty one removes it, and none leaves it as it
/// is.
pub open spec fn updated_picture(current: Option<Seq<char>>, update: Option<Seq<char>>) -> Option<
    Seq<char>,
> {
    match update {
        Some(s) => if s.len() == 0 {
            None
        } else {
            Some(s)
        },
        None => current,
    }
}

/// A picture after an update.
pub fn update_picture(current: Option<String>, update: &Option<String>) -> (r: Option<String>)
    ensures
        text::opt_text(r) == updated_picture(text::opt_text(current), text::opt_text(*update)),
{
    match update {
        Some(s) => if s.as_str().is_empty() {
            None
        } else {
            Some(s.clone())
        },
        None => current,
    }
}

/// What becomes of the agent's own search configuration.
#[derive(Debug, PartialEq, Eq)]
pub enum SearchConfigStep {
    Keep,
    Remove,
    Replace(String),
}

/// What becomes of the agent's own search configuration: an empty one removes it,
/// and none leaves it as it is.
pub fn search_config_step(update: Option<String>) -> (r: SearchConfigStep)
    ensures
        match update {
            None => r is Keep,
            Some(s) => if s@.len() == 0 {
                r is Remove
            } else {
                r == SearchConfigStep::Replace(s)
            },
        },
{
    match update {
        None => SearchConfigStep::Keep,
        Some(s) => if s.as_str().is_empty() {
            SearchConfigStep::Remove
        } else {
            SearchConfigStep::Replace(s)
        },
    }
}

/// How memories are embedded.
#[derive(Debug, PartialEq, Eq)]
pub struct EmbedConfig {
    pub embed_endpoint: String,
    pub embed_model_id: String,
    pub embed_dimension: usize,
}

/// What an embedding configuration holds.
pub open spec fn embed_view(o: Option<EmbedConfig>) -> Option<(Seq<char>, Seq<char>, int)> {
    match o {
        Some(c) => Some((c.embed_endpoint@, c.embed_model_id@, c.embed_dimension as int)),
        None => None,
    }
}

/// The members of an embedding configuration, in their order.
pub open spec fn embed_names() -> Seq<Seq<char>> {
    seq![
        "embed_endpoint"@,
        "embed_model_id"@,
        "embed_dimension"@,
    ]
}

/// The embedding configuration that a JSON value stands for.
pub open spec fn decoded_embed(j: json::JsonView) -> Option<(Seq<char>, Seq<char>, int)> {
    let j = json::named(j, embed_names(), 3);
    match (j.str_at("embed_endpoint"@), j.str_at("embed_model_id"@), j.u64_at("embed_dimension"@)) {
        (Some(e), Some(m), Some(d)) => if d <= usize::MAX {
            Some((e, m, d as int))
        } else {
            None
        },
        _ => None,
    }
}

impl EmbedConfig {
    /// The embedding configuration that a JSON value stands for.
    pub fn from_json(j: &Json) -> (r: Option<Self>)
        ensures
            embed_view(r) == decoded_embed(j@),
    {
        let names: Vec<&'static str> = vec![
            "embed_endpoint",
            "embed_model_id",
            "embed_dimension",
        ];
        proof {
            assert(json::name_texts(names@) =~= embed_names());
        }
        let object: Option<Json> = json::name_elements(j, &names, 3);
        let j: &Json = match &object {
            Some(o) => o,
            None => j,
        };
        match (
            j.str_at("embed_endpoint"),
            j.str_at("embed_model_id"),
            j.u64_at("embed_dimension"),
        ) {
            (Some(embed_endpoint), Some(embed_model_id), Some(d)) => if d <= usize::MAX as u64 {
                Some(EmbedConfig { embed_endpoint, embed_model_id, embed_dimension: d as usize })
            } else {
                None
            },
            _ => None,
        }
    }

    /// The embedding configuration that a text stands for.
    pub fn from_text(s: &str) -> (r: Option<Self>)
        ensures
            embed_view(r) == (match json::json_of_text(s@) {
                Some(j) => decoded_embed(j),
                None => None,
            }),
    {
        match json::parse_json(s) {
            Some(j) => EmbedConfig::from_json(&j),
            None => None,
        }
    }
}

/// Whether a file of the log directory is a log.
pub fn is_log_file(name: &str) -> (r: bool)
    ensures
        r == (paths::extension_of(name@) == Some("log"@)),
{
    match paths::extension(name) {
        Some(e) => text::same_text(e.as_str(), "log"),
        None => false,
    }
}

/// How the agent's skills come into its prompts.
#[derive(Clone, Copy, Debug, PartialEq, Eq, Structural)]
pub enum SkillMode {
    Progressive,
    Manual,
}

/// The user's own choice, as a JSON value says it: one that is not there, is null
/// or is no boolean, or a value that is no object and no array of its member, is no
/// choice.
pub open spec fn chosen_progressive(j: json::JsonView) -> Option<bool> {
    json::named(j, seq!["progressive"@], 0).bool_at("progressive"@)
}

/// How the agent's skills come into its prompts: as the user chose, in the text
/// `own`, or else as the manifest says.
pub fn resolve_skill_mode(manifest_mode: SkillMode, own: Option<&str>) -> (r: SkillMode)
    ensures
        r == (match own {
            Some(s) => match json::json_of_text(s@) {
                Some(j) => match chosen_progressive(j) {
                    Some(true) => SkillMode::Progressive,
                    Some(false) => SkillMode::Manual,
                    None => manifest_mode,
                },
                None => manifest_mode,
            },
            None => manifest_mode,
        }),
{
    match own {
        Some(s) => match json::parse_json(s) {
            Some(j) => skill_mode_of(manifest_mode, &j),
            None => manifest_mode,
        },
        None => manifest_mode,
    }
}

/// How the agent's skills come into its prompts, from what the user chose.
pub fn skill_mode_of(manifest_mode: SkillMode, own: &Json) -> (r: SkillMode)
    ensures
        r == (match chosen_progressive(own@) {
            Some(true) => SkillMode::Progressive,
            Some(false) => SkillMode::Manual,
            None => manifest_mode,
        }),
{
    let names: Vec<&'static str> = vec!["progressive"];
    proof {
        assert(json::name_texts(names@) =~= seq!["progressive"@]);
    }
    let object: Option<Json> = json::name_elements(own, &names, 0);
    let own: &Json = match &object {
        Some(o) => o,
        None => own,
    };
    match own.bool_at("progressive") {
        Some(true) => SkillMode::Progressive,
        Some(false) => SkillMode::Manual,
        None => manifest_mode,
    }
}

/// What came of waiting for the gateway.
#[derive(Clone, Copy, Debug, PartialEq, Eq, Structural)]
pub enum RecvOutcome {
    /// A message was handled.
    Handled,
    /// The connection was closed, and made again.
    Reconnected,
    /// The connection was closed, and could not be made again.
    Lost,
    /// Nothing could be read.
    Failed,
}

/// What the loop does next.
#[derive(Clone, Copy, Debug, PartialEq, Eq, Structural)]
pub enum LoopAction {
    Continue,
    Break,
    /// Wait for some milliseconds, and go on.
    ContinueAfter(u64),
}

/// How long the loop waits when nothing could be read.
pub const GATEWAY_RECV_RETRY_INTERVAL_MS: u64 = 100;

/// What the loop does next: it ends only when the connection is lost.
pub fn next_action(outcome: RecvOutcome) -> (r: LoopAction)
    ensures
        r == (match outcome {
            RecvOutcome::Handled => LoopAction::Continue,
            RecvOutcome::Reconnected => LoopAction::Continue,
            RecvOutcome::Lost => LoopAction::Break,
            RecvOutcome::Failed => LoopAction::ContinueAfter(GATEWAY_RECV_RETRY_INTERVAL_MS),
        }),
{
    match outcome {
        RecvOutcome::Handled => LoopAction::Continue,
        RecvOutcome::Reconnected => LoopAction::Continue,
        RecvOutcome::Lost => LoopAction::Break,
        RecvOutcome::Failed => LoopAction::ContinueAfter(GATEWAY_RECV_RETRY_INTERVAL_MS),
    }
}

/// What came of embedding the memory anew.
#[derive(Debug, PartialEq, Eq)]
pub enum MigrationOutcome {
    Done { old_dim: u64, new_dim: u64, rebuilt: u64, skipped: u64, errors: u64 },
    Failed(String),
}

/// The report on embedding the memory anew.
pub open spec fn migration_json(request_id: Seq<char>, o: MigrationOutcome) -> json::JsonView {
    json::JsonView::Object(
        match o {
            MigrationOutcome::Done { old_dim, new_dim, rebuilt, skipped, errors } => seq![
                ("request_id"@, json::JsonView::Text(request_id)),
                ("success"@, json::JsonView::Bool(true)),
                ("old_dim"@, json::integer_view(old_dim)),
                ("new_dim"@, json::integer_view(new_dim)),
                ("rebuilt"@, json::integer_view(rebuilt)),
                ("skipped"@, json::integer_view(skipped)),
                ("errors"@, json::integer_view(errors)),
            ],
            MigrationOutcome::Failed(e) => seq![
                ("request_id"@, json::JsonView::Text(request_id)),
                ("success"@, json::JsonView::Bool(false)),
                ("error"@, json::JsonView::Text(e@)),
            ],
        },
    )
}

/// The report on embedding the memory anew.
pub fn migration_report(request_id: &str, outcome: &MigrationOutcome) -> (r: Json)
    ensures
        r@ == migration_json(request_id@, *outcome),
{
    let mut m: Vec<JsonMember> = json::no_members();
    json::add_member(&mut m, "request_id", json::text_value(request_id));
    match outcome {
        MigrationOutcome::Done { old_dim, new_dim, rebuilt, skipped, errors } => {
            json::add_member(&mut m, "success", Json::Bool(true));
            json::add_member(&mut m, "old_dim", json::integer_value(*old_dim));
            json::add_member(&mut m, "new_dim", json::integer_value(*new_dim));
            json::add_member(&mut m, "rebuilt", json::integer_value(*rebuilt));
            json::add_member(&mut m, "skipped", json::integer_value(*skipped));
            json::add_member(&mut m, "errors", json::integer_value(*errors));
        },
        MigrationOutcome::Failed(e) => {
            json::add_member(&mut m, "success", Json::Bool(false));
            json::add_member(&mut m, "error", Json::Text(e.clone()));
        },
    }
    let r: Json = json::object_value(m);
    proof {
        assert(r@->Object_0 =~= migration_json(request_id@, *outcome)->Object_0);
    }
    r
}

/// The report on how far embedding the memory anew has come.
pub fn migration_progress(request_id: &str, processed: u64, total: u64) -> (r: Json)
    ensures
        r@ == json::JsonView::Object(
            seq![
                ("request_id"@, json::JsonView::Text(request_id@)),
                ("processed"@, json::integer_view(processed)),
                ("total"@, json::integer_view(total)),
                ("phase"@, json::JsonView::Text("reembed"@)),
            ],
        ),
{
    let mut m: Vec<JsonMember> = json::no_members();
    json::add_member(&mut m, "request_id", json::text_value(request_id));
    json::add_member(&mut m, "processed", json::integer_value(processed));
    json::add_member(&mut m, "total", json::integer_value(total));
    json::add_member(&mut m, "phase", json::text_value("reembed"));
    let r: Json = json::object_value(m);
    proof {
        assert(r@->Object_0 =~= seq![
            ("request_id"@, json::JsonView::Text(request_id@)),
            ("processed"@, json::integer_view(processed)),
            ("total"@, json::integer_view(total)),
            ("phase"@, json::JsonView::Text("reembed"@)),
        ]);
    }
    r
}

/// What a line that the user types is.
#[derive(Debug, PartialEq, Eq)]
pub enum ChatLine {
    Nothing,
    Quit,
    Message(String),
}

/// What a line that the user types is.
pub fn read_chat_line(line: &str) -> (r: ChatLine)
    ensures
        ({
            let t = text::trimmed(line@);
            if t.len() == 0 {
                r is Nothing
            } else if t == "/quit"@ || t == "/exit"@ {
                r is Quit
            } else {
                r matches ChatLine::Message(m) && m@ == t
            }
        }),
{
    let t: String = text::trim(line);
    if t.as_str().is_empty() {
        ChatLine::Nothing
    } else if text::same_text(t.as_str(), "/quit") || text::same_text(t.as_str(), "/exit") {
        ChatLine::Quit
    } else {
        ChatLine::Message(t)
    }
}

} // verus!
