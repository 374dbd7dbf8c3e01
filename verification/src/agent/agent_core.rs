//! What all sessions of an agent share: its providers and their models, its
//! tools and its configuration.

use crate::agent::history::ProtocolType;
use crate::json::JsonNumber;
use crate::providers::types::ReasoningEffort;
use crate::text;
use vstd::prelude::*;

verus! {

/// What a model can do.
#[derive(Debug, PartialEq, Eq)]
pub struct ModelCapabilities {
    pub context_window: u64,
    pub max_input_tokens: Option<u64>,
    pub max_output_tokens: u64,
    pub supports_tool_calling: bool,
    /// Whether the model can be told how much to think.
    pub supports_reasoning: Option<bool>,
    /// How much the model thinks, unless it is told.
    pub default_reasoning_effort: Option<ReasoningEffort>,
}

impl Clone for ModelCapabilities {
    fn clone(&self) -> (r: Self)
        ensures
            r == *self,
    {
        ModelCapabilities {
            context_window: self.context_window,
            max_input_tokens: self.max_input_tokens,
            max_output_tokens: self.max_output_tokens,
            supports_tool_calling: self.supports_tool_calling,
            supports_reasoning: self.supports_reasoning,
            default_reasoning_effort: self.default_reasoning_effort,
        }
    }
}

/// A model of a provider.
#[derive(Debug, PartialEq, Eq)]
pub struct ModelItem {
    pub id: String,
    pub capabilities: ModelCapabilities,
    /// How many tokens the model may write at most.
    pub max_output_tokens_limit: u64,
}

/// A provider.
#[derive(Debug, PartialEq, Eq)]
pub struct ProviderListItem {
    pub id: String,
    pub protocol_type: ProtocolType,
    /// Where the provider is reached; empty for the usual place.
    pub base_url: String,
    pub models: Vec<ModelItem>,
    /// The model that writes summaries.
    pub compact_model: Option<String>,
}

/// The key of a provider.
#[derive(Debug, PartialEq, Eq)]
pub struct ProviderKey {
    pub provider_id: String,
    pub api_key: String,
}

/// How risky a shell command may be before the user is asked.
#[derive(Clone, Copy, Debug, PartialEq, Eq, Structural)]
pub enum ShellApprovalThreshold {
    Low,
    Medium,
    High,
    Never,
}

/// The providers that all sessions of an agent share: there is one list, and what
/// one session changes in it, the others find.
#[derive(Debug, PartialEq, Eq)]
pub struct SharedProviders {
    pub global_provider_list: Vec<ProviderListItem>,
    pub provider_key_vault: Vec<ProviderKey>,
}

/// What a session knows of its agent. Each session has a copy of its own; the
/// providers stand apart, see `SharedProviders`.
#[derive(Debug, PartialEq, Eq)]
pub struct AgentCore {
    /// The names of the built-in tools.
    pub tools: Vec<String>,
    /// The names of the tools of connected servers, if any is connected.
    pub mcp_tools: Option<Vec<String>>,
    /// The names of all tools.
    pub all_tools: Vec<String>,
    pub max_iterations: u32,
    /// The token budget of a history whose model is not known.
    pub history_max_tokens: u64,
    pub temperature_override: Option<JsonNumber>,
    pub system_prompt_override: Option<String>,
    pub shell_approval_threshold: ShellApprovalThreshold,
}

impl Clone for AgentCore {
    fn clone(&self) -> (r: Self)
        ensures
            r.tools@ == self.tools@,
            match self.mcp_tools {
                Some(t) => r.mcp_tools matches Some(u) && u@ == t@,
                None => r.mcp_tools is None,
            },
            r.all_tools@ == self.all_tools@,
            r.max_iterations == self.max_iterations,
            r.history_max_tokens == self.history_max_tokens,
            r.temperature_override == self.temperature_override,
            r.system_prompt_override == self.system_prompt_override,
            r.shell_approval_threshold == self.shell_approval_threshold,
    {
        AgentCore {
            tools: clone_texts(&self.tools),
            mcp_tools: match &self.mcp_tools {
                Some(t) => Some(clone_texts(t)),
                None => None,
            },
            all_tools: clone_texts(&self.all_tools),
            max_iterations: self.max_iterations,
            history_max_tokens: self.history_max_tokens,
            temperature_override: match &self.temperature_override {
                Some(t) => Some(t.clone()),
                None => None,
            },
            system_prompt_override: match &self.system_prompt_override {
                Some(s) => Some(s.clone()),
                None => None,
            },
            shell_approval_threshold: self.shell_approval_threshold,
        }
    }
}

/// How many tokens a model that is not known may write.
pub const DEFAULT_MAX_OUTPUT_TOKENS: u64 = 32_768;

/// The first index from `from` on of a model with the identifier `id`.
pub open spec fn model_at(ms: Seq<ModelItem>, id: Seq<char>, from: int) -> Option<int>
    decreases ms.len() - from,
{
    if 0 <= from < ms.len() {
        if ms[from].id@ == id {
            Some(from)
        } else {
            model_at(ms, id, from + 1)
        }
    } else {
        None
    }
}

/// The provider and the index of the first model with the identifier `id`, from
/// the provider `from` on.
pub open spec fn found_model(ps: Seq<ProviderListItem>, id: Seq<char>, from: int) -> Option<
    (int, int),
>
    decreases ps.len() - from,
{
    if 0 <= from < ps.len() {
        match model_at(ps[from].models@, id, 0) {
            Some(j) => Some((from, j)),
            None => found_model(ps, id, from + 1),
        }
    } else {
        None
    }
}

/// The first model with the identifier `id`.
pub open spec fn model_of(ps: Seq<ProviderListItem>, id: Seq<char>) -> Option<ModelItem> {
    match found_model(ps, id, 0) {
        Some(at) => Some(ps[at.0].models@[at.1]),
        None => None,
    }
}

/// The first index from `from` on of a provider with the identifier `id`.
pub open spec fn provider_at(ps: Seq<ProviderListItem>, id: Seq<char>, from: int) -> Option<int>
    decreases ps.len() - from,
{
    if 0 <= from < ps.len() {
        if ps[from].id@ == id {
            Some(from)
        } else {
            provider_at(ps, id, from + 1)
        }
    } else {
        None
    }
}

/// The first key from `from` on of the provider `id`.
pub open spec fn key_at(ks: Seq<ProviderKey>, id: Seq<char>, from: int) -> Option<Seq<char>>
    decreases ks.len() - from,
{
    if 0 <= from < ks.len() {
        if ks[from].provider_id@ == id {
            Some(ks[from].api_key@)
        } else {
            key_at(ks, id, from + 1)
        }
    } else {
        None
    }
}

fn find_model_in(ms: &Vec<ModelItem>, id: &str) -> (r: Option<usize>)
    ensures
        match r {
            Some(j) => j < ms@.len() && model_at(ms@, id@, 0) == Some(j as int),
            None => model_at(ms@, id@, 0) is None,
        },
{
    let mut i: usize = 0;
    while i < ms.len()
        invariant
            i <= ms@.len(),
            model_at(ms@, id@, 0) == model_at(ms@, id@, i as int),
        decreases ms@.len() - i,
    {
        if text::same_text(ms[i].id.as_str(), id) {
            return Some(i);
        }
        i = i + 1;
    }
    None
}

fn find_model(ps: &Vec<ProviderListItem>, id: &str) -> (r: Option<(usize, usize)>)
    ensures
        match r {
            Some(at) => at.0 < ps@.len() && at.1 < ps@[at.0 as int].models@.len() && found_model(
                ps@,
                id@,
                0,
            ) == Some((at.0 as int, at.1 as int)),
            None => found_model(ps@, id@, 0) is None,
        },
{
    let mut i: usize = 0;
    while i < ps.len()
        invariant
            i <= ps@.len(),
            found_model(ps@, id@, 0) == found_model(ps@, id@, i as int),
        decreases ps@.len() - i,
    {
        if let Some(j) = find_model_in(&ps[i].models, id) {
            return Some((i, j));
        }
        i = i + 1;
    }
    None
}

/// The providers with the model at `(p, m)` changed to `item`.
pub open spec fn with_model(
    before: Seq<ProviderListItem>,
    after: Seq<ProviderListItem>,
    p: int,
    m: int,
    item: ModelItem,
) -> bool {
    &&& after.len() == before.len()
    &&& forall|i: int| 0 <= i < before.len() && i != p ==> #[trigger] after[i] == before[i]
    &&& same_provider(before[p], after[p])
    &&& after[p].models@ == before[p].models@.update(m, item)
}

/// The providers are the same but for their models.
pub open spec fn same_provider(a: ProviderListItem, b: ProviderListItem) -> bool {
    &&& a.id == b.id
    &&& a.protocol_type == b.protocol_type
    &&& a.base_url == b.base_url
    &&& a.compact_model == b.compact_model
}

/// The models are the same, but may all write `limit` tokens.
pub open spec fn limited(a: Seq<ModelItem>, b: Seq<ModelItem>, limit: u64) -> bool {
    &&& a.len() == b.len()
    &&& forall|j: int|
        0 <= j < a.len() ==> (#[trigger] b[j]) == (ModelItem {
            max_output_tokens_limit: limit,
            ..a[j]
        })
}

/// The providers are the same, but all their models may write `limit` tokens.
pub open spec fn all_limited(
    a: Seq<ProviderListItem>,
    b: Seq<ProviderListItem>,
    limit: u64,
) -> bool {
    &&& a.len() == b.len()
    &&& forall|i: int|
        0 <= i < a.len() ==> same_provider(a[i], #[trigger] b[i]) && limited(
            a[i].models@,
            b[i].models@,
            limit,
        )
}

fn limit_models(ms: &mut Vec<ModelItem>, limit: u64)
    ensures
        limited(old(ms)@, final(ms)@, limit),
{
    let ghost before: Seq<ModelItem> = ms@;
    let mut done: Vec<ModelItem> = Vec::new();
    let mut rest: Vec<ModelItem> = crate::list::take_reversed(ms);
    while rest.len() > 0
        invariant
            done@.len() + rest@.len() == before.len(),
            forall|j: int| 0 <= j < rest@.len() ==> (#[trigger] rest@[j]) == before[before.len() - 1 - j],
            forall|j: int|
                0 <= j < done@.len() ==> (#[trigger] done@[j]) == (ModelItem {
                    max_output_tokens_limit: limit,
                    ..before[j]
                }),
        decreases rest@.len(),
    {
        if let Some(mut m) = rest.pop() {
            m.max_output_tokens_limit = limit;
            done.push(m);
        }
    }
    std::mem::swap(ms, &mut done);
}

fn clone_texts(v: &Vec<String>) -> (r: Vec<String>)
    ensures
        r@ == v@,
{
    let mut r: Vec<String> = Vec::new();
    let mut i: usize = 0;
    while i < v.len()
        invariant
            i <= v@.len(),
            r@ == v@.take(i as int),
        decreases v@.len() - i,
    {
        r.push(v[i].clone());
        proof {
            assert(r@ =~= v@.take(i + 1));
        }
        i = i + 1;
    }
    proof {
        assert(v@.take(i as int) =~= v@);
    }
    r
}

/// What is needed to reach a provider.
#[derive(Debug, PartialEq, Eq)]
pub struct ProviderAccess {
    pub id: String,
    pub protocol_type: ProtocolType,
    pub api_key: Option<String>,
    /// None for the usual place.
    pub base_url: Option<String>,
}

/// `o` is what is needed to reach the provider `id`, where that is known.
pub open spec fn is_access(shared: SharedProviders, id: Seq<char>, o: Option<ProviderAccess>) -> bool {
    match provider_at(shared.global_provider_list@, id, 0) {
        Some(i) => {
            let p = shared.global_provider_list@[i];
            o matches Some(a) && a.id@ == p.id@ && a.protocol_type == p.protocol_type
                && text::opt_text(a.api_key) == key_at(shared.provider_key_vault@, id, 0)
                && text::opt_text(a.base_url) == (if p.base_url@.len() == 0 {
                None
            } else {
                Some(p.base_url@)
            })
        },
        None => o is None,
    }
}

impl SharedProviders {
    /// No provider is known.
    pub fn new() -> (r: Self)
        ensures
            r.global_provider_list@.len() == 0,
            r.provider_key_vault@.len() == 0,
    {
        SharedProviders { global_provider_list: Vec::new(), provider_key_vault: Vec::new() }
    }
}

impl AgentCore {
    /// An agent with the given tools.
    pub fn new(
        tools: Vec<String>,
        max_iterations: u32,
        history_max_tokens: u64,
        shell_approval_threshold: ShellApprovalThreshold,
    ) -> (r: Self)
        ensures
            r.tools@ == tools@,
            r.mcp_tools is None,
            r.all_tools@ == tools@,
            r.max_iterations == max_iterations,
            r.history_max_tokens == history_max_tokens,
            r.temperature_override is None,
            r.system_prompt_override is None,
            r.shell_approval_threshold == shell_approval_threshold,
    {
        let all_tools: Vec<String> = clone_texts(&tools);
        AgentCore {
            tools,
            mcp_tools: None,
            all_tools,
            max_iterations,
            history_max_tokens,
            temperature_override: None,
            system_prompt_override: None,
            shell_approval_threshold,
        }
    }

    /// Sets the tools of connected servers, and lists all tools anew: the
    /// built-in ones, and behind them those of the servers.
    pub fn update_mcp_tools(&mut self, mcp_tools: Option<Vec<String>>)
        ensures
            *final(self) == (AgentCore {
                mcp_tools: mcp_tools,
                all_tools: final(self).all_tools,
                ..*old(self)
            }),
            final(self).all_tools@ == (match mcp_tools {
                Some(t) => old(self).tools@ + t@,
                None => old(self).tools@,
            }),
    {
        self.mcp_tools = mcp_tools;
        self.rebuild_all_tools();
    }

    /// Lists all tools anew.
    pub fn rebuild_all_tools(&mut self)
        ensures
            *final(self) == (AgentCore { all_tools: final(self).all_tools, ..*old(self) }),
            final(self).all_tools@ == (match old(self).mcp_tools {
                Some(t) => old(self).tools@ + t@,
                None => old(self).tools@,
            }),
    {
        let mut merged: Vec<String> = clone_texts(&self.tools);
        if let Some(t) = &self.mcp_tools {
            let mut more: Vec<String> = clone_texts(t);
            merged.append(&mut more);
        }
        self.all_tools = merged;
    }

    /// What the model `id` can do, where it is known.
    pub fn get_model_capabilities(&self, shared: &SharedProviders, id: &str) -> (r: Option<ModelCapabilities>)
        ensures
            r == (match model_of(shared.global_provider_list@, id@) {
                Some(m) => Some(m.capabilities),
                None => None,
            }),
    {
        match find_model(&shared.global_provider_list, id) {
            Some((p, m)) => Some(shared.global_provider_list[p].models[m].capabilities.clone()),
            None => None,
        }
    }

    /// How many tokens the model `id` may write.
    pub fn max_output_tokens_limit_for_model(&self, shared: &SharedProviders, id: &str) -> (r: u64)
        ensures
            r == (match model_of(shared.global_provider_list@, id@) {
                Some(m) => m.max_output_tokens_limit,
                None => DEFAULT_MAX_OUTPUT_TOKENS,
            }),
    {
        match find_model(&shared.global_provider_list, id) {
            Some((p, m)) => shared.global_provider_list[p].models[m].max_output_tokens_limit,
            None => DEFAULT_MAX_OUTPUT_TOKENS,
        }
    }

    /// Sets what the first model with the identifier `id` can do. Nothing changes
    /// where there is none.
    pub fn update_gateway_model_capabilities(
        &self,
        shared: &mut SharedProviders,
        id: &str,
        caps: ModelCapabilities,
    )
        ensures
            match found_model(old(shared).global_provider_list@, id@, 0) {
                Some(at) => {
                    let before = old(shared).global_provider_list@;
                    &&& final(shared).provider_key_vault == old(shared).provider_key_vault
                    &&& with_model(
                        before,
                        final(shared).global_provider_list@,
                        at.0,
                        at.1,
                        ModelItem { capabilities: caps, ..before[at.0].models@[at.1] },
                    )
                },
                None => *final(shared) == *old(shared),
            },
    {
        if let Some((p, m)) = find_model(&shared.global_provider_list, id) {
            let mut item: ProviderListItem = shared.global_provider_list.remove(p);
            let mut model: ModelItem = item.models.remove(m);
            model.capabilities = caps;
            item.models.insert(m, model);
            proof {
                assert(item.models@ =~= old(shared).global_provider_list@[p as int].models@.update(
                    m as int,
                    model,
                ));
            }
            shared.global_provider_list.insert(p, item);
        }
    }

    /// Sets how many tokens every model may write.
    pub fn update_max_output_tokens_limit(&self, shared: &mut SharedProviders, limit: u64)
        ensures
            final(shared).provider_key_vault == old(shared).provider_key_vault,
            all_limited(
                old(shared).global_provider_list@,
                final(shared).global_provider_list@,
                limit,
            ),
    {
        let ghost before: Seq<ProviderListItem> = shared.global_provider_list@;
        let mut done: Vec<ProviderListItem> = Vec::new();
        let mut rest: Vec<ProviderListItem> = crate::list::take_reversed(
            &mut shared.global_provider_list,
        );
        while rest.len() > 0
            invariant
                done@.len() + rest@.len() == before.len(),
                forall|j: int|
                    0 <= j < rest@.len() ==> (#[trigger] rest@[j]) == before[before.len() - 1 - j],
                forall|i: int|
                    0 <= i < done@.len() ==> same_provider(before[i], #[trigger] done@[i])
                        && limited(before[i].models@, done@[i].models@, limit),
            decreases rest@.len(),
        {
            if let Some(mut item) = rest.pop() {
                limit_models(&mut item.models, limit);
                done.push(item);
            }
        }
        shared.global_provider_list = done;
    }

    /// Applies what was configured; what was not, stays as it is. How many tokens a
    /// model may write is set for all sessions. A configured threshold comes as it is
    /// read; a text that names none is read as the default threshold.
    pub fn apply_runtime_config(
        &mut self,
        shared: &mut SharedProviders,
        max_output_tokens: Option<u64>,
        max_iterations: Option<u32>,
        temperature: Option<JsonNumber>,
        system_prompt_override: Option<String>,
        shell_approval_threshold: Option<ShellApprovalThreshold>,
    )
        ensures
            *final(self) == (AgentCore {
                max_iterations: match max_iterations {
                    Some(n) => n,
                    None => old(self).max_iterations,
                },
                temperature_override: if temperature is Some {
                    temperature
                } else {
                    old(self).temperature_override
                },
                system_prompt_override: if system_prompt_override is Some {
                    system_prompt_override
                } else {
                    old(self).system_prompt_override
                },
                shell_approval_threshold: match shell_approval_threshold {
                    Some(t) => t,
                    None => old(self).shell_approval_threshold,
                },
                ..*old(self)
            }),
            match max_output_tokens {
                Some(limit) => all_limited(
                    old(shared).global_provider_list@,
                    final(shared).global_provider_list@,
                    limit,
                ),
                None => *final(shared) == *old(shared),
            },
            final(shared).provider_key_vault == old(shared).provider_key_vault,
    {
        if let Some(limit) = max_output_tokens {
            self.update_max_output_tokens_limit(shared, limit);
        }
        if let Some(n) = max_iterations {
            self.max_iterations = n;
        }
        if temperature.is_some() {
            self.temperature_override = temperature;
        }
        if system_prompt_override.is_some() {
            self.system_prompt_override = system_prompt_override;
        }
        if let Some(t) = shell_approval_threshold {
            self.shell_approval_threshold = t;
        }
    }

    /// The provider `id`, where it is known.
    pub fn get_provider<'a>(&self, shared: &'a SharedProviders, id: &str) -> (r: Option<
        &'a ProviderListItem,
    >)
        ensures
            match provider_at(shared.global_provider_list@, id@, 0) {
                Some(i) => r == Some(&shared.global_provider_list@[i]),
                None => r is None,
            },
    {
        let mut i: usize = 0;
        while i < shared.global_provider_list.len()
            invariant
                i <= shared.global_provider_list@.len(),
                provider_at(shared.global_provider_list@, id@, 0) == provider_at(
                    shared.global_provider_list@,
                    id@,
                    i as int,
                ),
            decreases shared.global_provider_list@.len() - i,
        {
            if text::same_text(shared.global_provider_list[i].id.as_str(), id) {
                return Some(&shared.global_provider_list[i]);
            }
            i = i + 1;
        }
        None
    }

    /// The key of the provider `id`, where it is known.
    pub fn get_provider_api_key(&self, shared: &SharedProviders, id: &str) -> (r: Option<String>)
        ensures
            text::opt_text(r) == key_at(shared.provider_key_vault@, id@, 0),
    {
        let mut i: usize = 0;
        while i < shared.provider_key_vault.len()
            invariant
                i <= shared.provider_key_vault@.len(),
                key_at(shared.provider_key_vault@, id@, 0) == key_at(
                    shared.provider_key_vault@,
                    id@,
                    i as int,
                ),
            decreases shared.provider_key_vault@.len() - i,
        {
            if text::same_text(shared.provider_key_vault[i].provider_id.as_str(), id) {
                return Some(shared.provider_key_vault[i].api_key.clone());
            }
            i = i + 1;
        }
        None
    }

    /// What is needed to reach the provider `id`, where it is known.
    pub fn build_provider_for(&self, shared: &SharedProviders, id: &str) -> (r: Option<
        ProviderAccess,
    >)
        ensures
            is_access(*shared, id@, r),
    {
        match self.get_provider(shared, id) {
            Some(p) => Some(
                ProviderAccess {
                    id: p.id.clone(),
                    protocol_type: p.protocol_type,
                    api_key: self.get_provider_api_key(shared, id),
                    base_url: if p.base_url.as_str().is_empty() {
                        None
                    } else {
                        Some(p.base_url.clone())
                    },
                },
            ),
            None => None,
        }
    }

    /// The model that writes summaries for the consolidation of the memory: the
    /// first one there is, or `default`.
    pub fn consolidation_model(&self, shared: &SharedProviders) -> (r: String)
        ensures
            r@ == first_model(shared.global_provider_list@, 0),
    {
        let mut i: usize = 0;
        while i < shared.global_provider_list.len()
            invariant
                i <= shared.global_provider_list@.len(),
                first_model(shared.global_provider_list@, 0) == first_model(
                    shared.global_provider_list@,
                    i as int,
                ),
            decreases shared.global_provider_list@.len() - i,
        {
            if shared.global_provider_list[i].models.len() > 0 {
                return shared.global_provider_list[i].models[0].id.clone();
            }
            i = i + 1;
        }
        "default".to_string()
    }

    /// The token budget of a history for the model `id`. `effective` is what
    /// remains of the model's window beside what it may write, where the model is
    /// known.
    pub fn context_trim_budget(&self, shared: &SharedProviders, id: &str, effective: u64) -> (r: u64)
        ensures
            r == (if model_of(shared.global_provider_list@, id@) is Some {
                effective
            } else {
                self.history_max_tokens
            }),
    {
        match find_model(&shared.global_provider_list, id) {
            Some(_) => effective,
            None => self.history_max_tokens,
        }
    }
}

/// The first model from the provider `from` on, or `default`.
pub open spec fn first_model(ps: Seq<ProviderListItem>, from: int) -> Seq<char>
    decreases ps.len() - from,
{
    if 0 <= from < ps.len() {
        if ps[from].models@.len() > 0 {
            ps[from].models@[0].id@
        } else {
            first_model(ps, from + 1)
        }
    } else {
        "default"@
    }
}

/// Whether the consolidation of the memory is to be started: there is a memory
/// and there are embeddings, and it does not run.
pub fn starts_consolidation(has_store: bool, has_embedding: bool, runs: bool) -> (r: bool)
    ensures
        r == (has_store && has_embedding && !runs),
{
    has_store && has_embedding && !runs
}

/// A model's identifier, and what the model can do.
#[derive(Debug, PartialEq, Eq)]
pub struct NamedCapabilities {
    pub id: String,
    pub capabilities: ModelCapabilities,
}

/// The models of the first `n` providers, one behind the other.
pub open spec fn all_models(ps: Seq<ProviderListItem>, n: int) -> Seq<ModelItem>
    decreases n,
{
    if n <= 0 {
        Seq::empty()
    } else {
        all_models(ps, n - 1) + ps[n - 1].models@
    }
}

/// The identifiers of models, and what each can do.
pub open spec fn named(ms: Seq<ModelItem>) -> Seq<NamedCapabilities> {
    ms.map_values(|m: ModelItem| NamedCapabilities { id: m.id, capabilities: m.capabilities })
}

/// A later one of `ns` has the same identifier as the one at `i`.
pub open spec fn is_repeated(ns: Seq<NamedCapabilities>, i: int) -> bool {
    exists|j: int| i < j < ns.len() && (#[trigger] ns[j]).id@ == ns[i].id@
}

/// Of the first `n` of `ns`, the last ones with their identifiers.
pub open spec fn last_named(ns: Seq<NamedCapabilities>, n: int) -> Seq<NamedCapabilities>
    decreases n,
{
    if n <= 0 {
        Seq::empty()
    } else if is_repeated(ns, n - 1) {
        last_named(ns, n - 1)
    } else {
        last_named(ns, n - 1).push(ns[n - 1])
    }
}

fn list_models(ps: &Vec<ProviderListItem>) -> (r: Vec<NamedCapabilities>)
    ensures
        r@ == named(all_models(ps@, ps@.len() as int)),
{
    let mut r: Vec<NamedCapabilities> = Vec::new();
    let mut i: usize = 0;
    proof {
        assert(r@ =~= named(all_models(ps@, 0)));
    }
    while i < ps.len()
        invariant
            i <= ps@.len(),
            r@ == named(all_models(ps@, i as int)),
        decreases ps@.len() - i,
    {
        let ghost before: Seq<NamedCapabilities> = r@;
        let mut j: usize = 0;
        proof {
            assert(before =~= before + named(ps@[i as int].models@.take(0)));
        }
        while j < ps[i].models.len()
            invariant
                i < ps@.len(),
                j <= ps@[i as int].models@.len(),
                r@ == before + named(ps@[i as int].models@.take(j as int)),
            decreases ps@[i as int].models@.len() - j,
        {
            let ghost so_far: Seq<NamedCapabilities> = r@;
            let item: &ModelItem = &ps[i].models[j];
            r.push(
                NamedCapabilities {
                    id: item.id.clone(),
                    capabilities: item.capabilities.clone(),
                },
            );
            proof {
                let ms = ps@[i as int].models@;
                assert(named(ms.take(j + 1)) =~= named(ms.take(j as int)).push(
                    NamedCapabilities { id: ms[j as int].id, capabilities: ms[j as int].capabilities },
                ));
                assert(r@ =~= before + named(ms.take(j + 1)));
            }
            j = j + 1;
        }
        proof {
            let ms = ps@[i as int].models@;
            assert(ms.take(j as int) =~= ms);
            assert(named(all_models(ps@, i + 1)) =~= named(all_models(ps@, i as int)) + named(ms));
        }
        i = i + 1;
    }
    r
}

impl AgentCore {
    /// What each model can do. Of several with one identifier the last one
    /// counts.
    pub fn gateway_model_capabilities(&self, shared: &SharedProviders) -> (r: Vec<NamedCapabilities>)
        ensures
            ({
                let ps = shared.global_provider_list@;
                let ns = named(all_models(ps, ps.len() as int));
                r@ == last_named(ns, ns.len() as int)
            }),
    {
        let all: Vec<NamedCapabilities> = list_models(&shared.global_provider_list);
        let mut r: Vec<NamedCapabilities> = Vec::new();
        let mut i: usize = 0;
        while i < all.len()
            invariant
                i <= all@.len(),
                r@ == last_named(all@, i as int),
            decreases all@.len() - i,
        {
            let mut repeated: bool = false;
            let mut j: usize = i + 1;
            while j < all.len()
                invariant
                    i < j <= all@.len(),
                    repeated == exists|k: int| i < k < j && (#[trigger] all@[k]).id@ == all@[i as int].id@,
                decreases all@.len() - j,
            {
                if text::same_text(all[j].id.as_str(), all[i].id.as_str()) {
                    repeated = true;
                    proof {
                        assert(all@[j as int].id@ == all@[i as int].id@);
                    }
                }
                j = j + 1;
            }
            if !repeated {
                r.push(
                    NamedCapabilities {
                        id: all[i].id.clone(),
                        capabilities: all[i].capabilities.clone(),
                    },
                );
            }
            i = i + 1;
        }
        r
    }
}

/// A limit that one session sets holds for every session: every model that is known
/// may write so many tokens then, and nothing else is known of the models than
/// before.
pub proof fn limits_hold_for_every_session(
    a: SharedProviders,
    b: SharedProviders,
    limit: u64,
    id: Seq<char>,
)
    requires
        all_limited(a.global_provider_list@, b.global_provider_list@, limit),
    ensures
        match model_of(a.global_provider_list@, id) {
            Some(m) => model_of(b.global_provider_list@, id) == Some(
                ModelItem { max_output_tokens_limit: limit, ..m },
            ),
            None => model_of(b.global_provider_list@, id) is None,
        },
{
    lemma_limited_found(a.global_provider_list@, b.global_provider_list@, limit, id, 0);
}

proof fn lemma_limited_at(a: Seq<ModelItem>, b: Seq<ModelItem>, limit: u64, id: Seq<char>, from: int)
    requires
        limited(a, b, limit),
        0 <= from,
    ensures
        model_at(b, id, from) == model_at(a, id, from),
        model_at(a, id, from) matches Some(j) ==> from <= j < a.len(),
    decreases a.len() - from,
{
    if from < a.len() {
        assert(b[from].id == a[from].id);
        lemma_limited_at(a, b, limit, id, from + 1);
    }
}

proof fn lemma_limited_found(
    a: Seq<ProviderListItem>,
    b: Seq<ProviderListItem>,
    limit: u64,
    id: Seq<char>,
    from: int,
)
    requires
        all_limited(a, b, limit),
        0 <= from,
    ensures
        found_model(b, id, from) == found_model(a, id, from),
        found_model(a, id, from) matches Some(at) ==> {
            &&& from <= at.0 < a.len()
            &&& 0 <= at.1 < a[at.0].models@.len()
            &&& b[at.0].models@[at.1] == (ModelItem {
                max_output_tokens_limit: limit,
                ..a[at.0].models@[at.1]
            })
        },
    decreases a.len() - from,
{
    if from < a.len() {
        assert(limited(a[from].models@, b[from].models@, limit));
        lemma_limited_at(a[from].models@, b[from].models@, limit, id, 0);
        lemma_limited_found(a, b, limit, id, from + 1);
    }
}

/// A capability that an agent's manifest declares.
#[derive(Debug, PartialEq, Eq)]
pub struct DeclaredCapability {
    pub key: String,
    pub description: String,
}

/// What an agent's manifest says of the agent.
#[derive(Debug, PartialEq, Eq)]
pub struct ManifestIdentity {
    pub agent_id: String,
    pub name: String,
    pub description: String,
    pub display_name: Option<String>,
    pub role: Option<String>,
    pub capabilities: Vec<DeclaredCapability>,
}

/// What a memory of the agent itself is about.
#[derive(Clone, Copy, Debug, PartialEq, Eq, Structural)]
pub enum AutobioCategory {
    Identity,
    Capability,
}

/// A memory of the agent itself.
#[derive(Debug, PartialEq, Eq)]
pub struct AutobioEntry {
    pub category: AutobioCategory,
    pub key: String,
    pub value: String,
}

/// What a memory of the agent itself holds.
pub open spec fn autobio(category: AutobioCategory, key: Seq<char>, value: Seq<char>) -> (
    AutobioCategory,
    Seq<char>,
    Seq<char>,
) {
    (category, key, value)
}

/// What each memory of a sequence holds.
pub open spec fn autobio_views(es: Seq<AutobioEntry>) -> Seq<
    (AutobioCategory, Seq<char>, Seq<char>),
> {
    es.map_values(|e: AutobioEntry| autobio(e.category, e.key@, e.value@))
}

/// The memory of a name that the manifest may give.
pub open spec fn optional_entry(key: Seq<char>, o: Option<String>) -> Seq<
    (AutobioCategory, Seq<char>, Seq<char>),
> {
    match o {
        Some(s) => seq![autobio(AutobioCategory::Identity, key, s@)],
        None => Seq::empty(),
    }
}

/// The memories of who the agent is, as its manifest says.
pub open spec fn identity_entries(m: ManifestIdentity) -> Seq<
    (AutobioCategory, Seq<char>, Seq<char>),
> {
    seq![
        autobio(AutobioCategory::Identity, "agent_id"@, m.agent_id@),
        autobio(AutobioCategory::Identity, "name"@, m.name@),
        autobio(AutobioCategory::Identity, "description"@, m.description@),
    ] + optional_entry("display_name"@, m.display_name) + optional_entry("role"@, m.role)
}

/// The memories of what the agent can do, as its manifest says.
pub open spec fn capability_entries(cs: Seq<DeclaredCapability>) -> Seq<
    (AutobioCategory, Seq<char>, Seq<char>),
> {
    cs.map_values(
        |c: DeclaredCapability| autobio(AutobioCategory::Capability, c.key@, c.description@),
    )
}

fn push_entry(r: &mut Vec<AutobioEntry>, category: AutobioCategory, key: &str, value: &String)
    ensures
        autobio_views(final(r)@) == autobio_views(old(r)@).push(autobio(category, key@, value@)),
{
    let ghost before: Seq<AutobioEntry> = r@;
    r.push(AutobioEntry { category, key: key.to_string(), value: value.clone() });
    proof {
        assert(autobio_views(r@) =~= autobio_views(before).push(autobio(category, key@, value@)));
    }
}

/// The memories of itself that an agent starts with. `known` is the number of
/// memories of its identity that it has, where that could be found out; an agent
/// that has some starts with no others.
pub fn bootstrap_entries(m: &ManifestIdentity, known: Option<usize>) -> (r: Vec<AutobioEntry>)
    ensures
        autobio_views(r@) == (if known matches Some(n) && n > 0 {
            Seq::empty()
        } else {
            identity_entries(*m) + capability_entries(m.capabilities@)
        }),
{
    let mut r: Vec<AutobioEntry> = Vec::new();
    proof {
        assert(autobio_views(r@) =~= Seq::empty());
    }
    if let Some(n) = known {
        if n > 0 {
            return r;
        }
    }
    push_entry(&mut r, AutobioCategory::Identity, "agent_id", &m.agent_id);
    push_entry(&mut r, AutobioCategory::Identity, "name", &m.name);
    push_entry(&mut r, AutobioCategory::Identity, "description", &m.description);
    if let Some(s) = &m.display_name {
        push_entry(&mut r, AutobioCategory::Identity, "display_name", s);
    }
    if let Some(s) = &m.role {
        push_entry(&mut r, AutobioCategory::Identity, "role", s);
    }
    let ghost head: Seq<(AutobioCategory, Seq<char>, Seq<char>)> = identity_entries(*m);
    proof {
        assert(autobio_views(r@) =~= head + capability_entries(m.capabilities@.take(0)));
    }
    let mut i: usize = 0;
    while i < m.capabilities.len()
        invariant
            i <= m.capabilities@.len(),
            autobio_views(r@) == head + capability_entries(m.capabilities@.take(i as int)),
        decreases m.capabilities@.len() - i,
    {
        let c: &DeclaredCapability = &m.capabilities[i];
        push_entry(&mut r, AutobioCategory::Capability, c.key.as_str(), &c.description);
        proof {
            let cs = m.capabilities@;
            assert(capability_entries(cs.take(i + 1)) =~= capability_entries(
                cs.take(i as int),
            ).push(autobio(AutobioCategory::Capability, c.key@, c.description@)));
            assert(autobio_views(r@) =~= head + capability_entries(cs.take(i + 1)));
        }
        i = i + 1;
    }
    proof {
        assert(m.capabilities@.take(i as int) =~= m.capabilities@);
    }
    r
}

} // verus!
