//! The chunks of a streamed reply, as the lines of an event stream carry them.

use crate::ids;
use crate::json;
use crate::json::Json;
use crate::message::{FunctionCall, ToolCall};
use crate::message;
use crate::providers::types::{StreamEvent, UsageInfo};
use crate::providers::types;
use crate::text;
use vstd::prelude::*;
use vstd::string::*;

verus! {

/// The function of a tool call, as far as a chunk gives it.
#[derive(Debug, PartialEq, Eq)]
pub struct StreamFunctionDelta {
    pub name: Option<String>,
    pub arguments: Option<String>,
}

/// A tool call, as far as a chunk gives it.
#[derive(Debug, PartialEq, Eq)]
pub struct StreamToolCallDelta {
    pub index: Option<u64>,
    pub id: Option<String>,
    pub kind: Option<String>,
    pub function: Option<StreamFunctionDelta>,
}

/// What a chunk adds to a reply.
#[derive(Debug, PartialEq, Eq)]
pub struct StreamDelta {
    pub content: Option<String>,
    pub reasoning_content: Option<String>,
    pub tool_calls: Option<Vec<StreamToolCallDelta>>,
}

/// A choice of a chunk.
#[derive(Debug, PartialEq, Eq)]
pub struct StreamChoice {
    pub delta: StreamDelta,
    pub finish_reason: Option<String>,
}

#[derive(Clone, Copy, Debug, PartialEq, Eq, Structural)]
pub struct NativePromptTokenDetails {
    pub cached_tokens: Option<u64>,
}

#[derive(Clone, Copy, Debug, PartialEq, Eq, Structural)]
pub struct NativeCompletionTokenDetails {
    pub reasoning_tokens: Option<u64>,
}

/// The tokens that a request took, as the provider reports them.
#[derive(Clone, Copy, Debug, PartialEq, Eq)]
pub struct NativeUsage {
    pub prompt_tokens: Option<u64>,
    pub completion_tokens: Option<u64>,
    pub prompt_tokens_details: Option<NativePromptTokenDetails>,
    pub completion_tokens_details: Option<NativeCompletionTokenDetails>,
}

/// A chunk of a streamed reply.
#[derive(Debug, PartialEq, Eq)]
pub struct StreamChunk {
    pub choices: Vec<StreamChoice>,
    pub usage: Option<NativeUsage>,
}

pub struct FunctionDeltaView {
    pub name: Option<Seq<char>>,
    pub arguments: Option<Seq<char>>,
}

pub struct ToolDeltaView {
    pub index: Option<u64>,
    pub id: Option<Seq<char>>,
    pub kind: Option<Seq<char>>,
    pub function: Option<FunctionDeltaView>,
}

pub struct DeltaView {
    pub content: Option<Seq<char>>,
    pub reasoning_content: Option<Seq<char>>,
    pub tool_calls: Option<Seq<ToolDeltaView>>,
}

pub struct ChoiceView {
    pub delta: DeltaView,
    pub finish_reason: Option<Seq<char>>,
}

/// What a chunk holds.
pub struct ChunkView {
    pub choices: Seq<ChoiceView>,
    pub usage: Option<NativeUsage>,
}

impl View for StreamFunctionDelta {
    type V = FunctionDeltaView;

    open spec fn view(&self) -> FunctionDeltaView {
        FunctionDeltaView {
            name: text::opt_text(self.name),
            arguments: text::opt_text(self.arguments),
        }
    }
}

impl View for StreamToolCallDelta {
    type V = ToolDeltaView;

    open spec fn view(&self) -> ToolDeltaView {
        ToolDeltaView {
            index: self.index,
            id: text::opt_text(self.id),
            kind: text::opt_text(self.kind),
            function: match self.function {
                Some(f) => Some(f@),
                None => None,
            },
        }
    }
}

pub open spec fn tool_views(ts: Seq<StreamToolCallDelta>) -> Seq<ToolDeltaView> {
    ts.map_values(|t: StreamToolCallDelta| t@)
}

impl View for StreamDelta {
    type V = DeltaView;

    open spec fn view(&self) -> DeltaView {
        DeltaView {
            content: text::opt_text(self.content),
            reasoning_content: text::opt_text(self.reasoning_content),
            tool_calls: match self.tool_calls {
                Some(ts) => Some(tool_views(ts@)),
                None => None,
            },
        }
    }
}

impl View for StreamChoice {
    type V = ChoiceView;

    open spec fn view(&self) -> ChoiceView {
        ChoiceView { delta: self.delta@, finish_reason: text::opt_text(self.finish_reason) }
    }
}

pub open spec fn choice_views(cs: Seq<StreamChoice>) -> Seq<ChoiceView> {
    cs.map_values(|c: StreamChoice| c@)
}

impl View for StreamChunk {
    type V = ChunkView;

    open spec fn view(&self) -> ChunkView {
        ChunkView { choices: choice_views(self.choices@), usage: self.usage }
    }
}

pub open spec fn opt_chunk(c: Option<StreamChunk>) -> Option<ChunkView> {
    match c {
        Some(c) => Some(c@),
        None => None,
    }
}

/// An optional string member: absent or null, or a string. `None` where it is
/// anything else.
pub open spec fn string_member(v: json::JsonView, key: Seq<char>) -> Option<Option<Seq<char>>> {
    match v.get(key) {
        None => Some(None),
        Some(json::JsonView::Null) => Some(None),
        Some(json::JsonView::Text(s)) => Some(Some(s)),
        _ => None,
    }
}

/// An optional number member: absent or null, or an unsigned integer. `None`
/// where it is anything else.
pub open spec fn number_member(v: json::JsonView, key: Seq<char>) -> Option<Option<u64>> {
    match v.get(key) {
        None => Some(None),
        Some(json::JsonView::Null) => Some(None),
        Some(json::JsonView::Number(Some(n), _)) => Some(Some(n)),
        _ => None,
    }
}

/// The members of a function's delta, in their order.
pub open spec fn function_names() -> Seq<Seq<char>> {
    seq!["name"@, "arguments"@]
}

/// The members of a tool call's delta, in their order.
pub open spec fn tool_names() -> Seq<Seq<char>> {
    seq!["index"@, "id"@, "type"@, "function"@]
}

/// The members of a delta, in their order.
pub open spec fn delta_names() -> Seq<Seq<char>> {
    seq!["content"@, "reasoning_content"@, "tool_calls"@]
}

/// The members of a choice, in their order.
pub open spec fn choice_names() -> Seq<Seq<char>> {
    seq!["delta"@, "finish_reason"@]
}

/// The members of a usage, in their order.
pub open spec fn usage_names() -> Seq<Seq<char>> {
    seq!["prompt_tokens"@, "completion_tokens"@, "prompt_tokens_details"@, "completion_tokens_details"@]
}

/// The members of a chunk, in their order.
pub open spec fn chunk_names() -> Seq<Seq<char>> {
    seq!["choices"@, "usage"@]
}

pub open spec fn decoded_function(v: json::JsonView) -> Option<FunctionDeltaView> {
    let v = json::named(v, function_names(), 2);
    match (v, string_member(v, "name"@), string_member(v, "arguments"@)) {
        (json::JsonView::Object(_), Some(name), Some(arguments)) => Some(
            FunctionDeltaView { name, arguments },
        ),
        _ => None,
    }
}

pub open spec fn decoded_tool(v: json::JsonView) -> Option<ToolDeltaView> {
    let v = json::named(v, tool_names(), 4);
    let function = match v.get("function"@) {
        None => Some(None),
        Some(json::JsonView::Null) => Some(None),
        Some(f) => match decoded_function(f) {
            Some(d) => Some(Some(d)),
            None => None,
        },
    };
    match (v, number_member(v, "index"@), string_member(v, "id"@), string_member(v, "type"@), function) {
        (json::JsonView::Object(_), Some(index), Some(id), Some(kind), Some(function)) => Some(
            ToolDeltaView { index, id, kind, function },
        ),
        _ => None,
    }
}

pub open spec fn decoded_tools(a: Seq<json::JsonView>) -> Option<Seq<ToolDeltaView>>
    decreases a.len(),
{
    if a.len() == 0 {
        Some(Seq::empty())
    } else {
        match (decoded_tools(a.drop_last()), decoded_tool(a.last())) {
            (Some(ts), Some(t)) => Some(ts.push(t)),
            _ => None,
        }
    }
}

pub open spec fn decoded_delta(v: json::JsonView) -> Option<DeltaView> {
    let v = json::named(v, delta_names(), 0);
    let tool_calls = match v.get("tool_calls"@) {
        None => Some(None),
        Some(json::JsonView::Null) => Some(None),
        Some(json::JsonView::Array(a)) => match decoded_tools(a) {
            Some(ts) => Some(Some(ts)),
            None => None,
        },
        _ => None,
    };
    match (v, string_member(v, "content"@), string_member(v, "reasoning_content"@), tool_calls) {
        (json::JsonView::Object(_), Some(content), Some(reasoning_content), Some(tool_calls)) => Some(
            DeltaView { content, reasoning_content, tool_calls },
        ),
        _ => None,
    }
}

pub open spec fn decoded_choice(v: json::JsonView) -> Option<ChoiceView> {
    let v = json::named(v, choice_names(), 1);
    match (v, v.get("delta"@), string_member(v, "finish_reason"@)) {
        (json::JsonView::Object(_), Some(d), Some(finish_reason)) => match decoded_delta(d) {
            Some(delta) => Some(ChoiceView { delta, finish_reason }),
            None => None,
        },
        _ => None,
    }
}

pub open spec fn decoded_choices(a: Seq<json::JsonView>) -> Option<Seq<ChoiceView>>
    decreases a.len(),
{
    if a.len() == 0 {
        Some(Seq::empty())
    } else {
        match (decoded_choices(a.drop_last()), decoded_choice(a.last())) {
            (Some(cs), Some(c)) => Some(cs.push(c)),
            _ => None,
        }
    }
}

/// A member that has one optional number.
pub open spec fn detail_member(v: json::JsonView, key: Seq<char>, inner: Seq<char>) -> Option<
    Option<Option<u64>>,
> {
    match v.get(key) {
        None => Some(None),
        Some(json::JsonView::Null) => Some(None),
        Some(d) => {
            let o = json::named(d, seq![inner], 0);
            match (o, number_member(o, inner)) {
                (json::JsonView::Object(_), Some(n)) => Some(Some(n)),
                _ => None,
            }
        },
    }
}

pub open spec fn decoded_usage(v: json::JsonView) -> Option<NativeUsage> {
    let v = json::named(v, usage_names(), 0);
    match (
        v,
        number_member(v, "prompt_tokens"@),
        number_member(v, "completion_tokens"@),
        detail_member(v, "prompt_tokens_details"@, "cached_tokens"@),
        detail_member(v, "completion_tokens_details"@, "reasoning_tokens"@),
    ) {
        (json::JsonView::Object(_), Some(prompt_tokens), Some(completion_tokens), Some(p), Some(c)) => Some(
            NativeUsage {
                prompt_tokens,
                completion_tokens,
                prompt_tokens_details: match p {
                    Some(cached_tokens) => Some(NativePromptTokenDetails { cached_tokens }),
                    None => None,
                },
                completion_tokens_details: match c {
                    Some(reasoning_tokens) => Some(
                        NativeCompletionTokenDetails { reasoning_tokens },
                    ),
                    None => None,
                },
            },
        ),
        _ => None,
    }
}

/// The usage member of a reply or a chunk.
pub open spec fn usage_member(v: json::JsonView) -> Option<Option<NativeUsage>> {
    match v.get("usage"@) {
        None => Some(None),
        Some(json::JsonView::Null) => Some(None),
        Some(u) => match decoded_usage(u) {
            Some(u) => Some(Some(u)),
            None => None,
        },
    }
}

/// The chunk that a JSON value denotes.
pub open spec fn decoded_chunk(v: json::JsonView) -> Option<ChunkView> {
    let v = json::named(v, chunk_names(), 0);
    let choices = match v.get("choices"@) {
        None => Some(Seq::empty()),
        Some(json::JsonView::Array(a)) => decoded_choices(a),
        _ => None,
    };
    match (v, choices, usage_member(v)) {
        (json::JsonView::Object(_), Some(choices), Some(usage)) => Some(
            ChunkView { choices, usage },
        ),
        _ => None,
    }
}

/// The optional string member `key`, see `string_member`.
pub fn take_string(v: &Json, key: &str) -> (r: Option<Option<String>>)
    ensures
        match r {
            Some(o) => string_member(v@, key@) == Some(text::opt_text(o)),
            None => string_member(v@, key@) is None,
        },
{
    match v.get(key) {
        None => Some(None),
        Some(Json::Null) => Some(None),
        Some(Json::Text(s)) => Some(Some(s.clone())),
        _ => None,
    }
}

/// The optional number member `key`, see `number_member`.
pub fn take_number(v: &Json, key: &str) -> (r: Option<Option<u64>>)
    ensures
        r == number_member(v@, key@),
{
    match v.get(key) {
        None => Some(None),
        Some(Json::Null) => Some(None),
        Some(Json::Number(n)) => match n.unsigned {
            Some(u) => Some(Some(u)),
            None => None,
        },
        _ => None,
    }
}

fn is_object(v: &Json) -> (r: bool)
    ensures
        r == (v@ is Object),
{
    match v {
        Json::Object(_) => true,
        _ => false,
    }
}

fn decode_function(v: &Json) -> (r: Option<StreamFunctionDelta>)
    ensures
        match r {
            Some(f) => decoded_function(v@) == Some(f@),
            None => decoded_function(v@) is None,
        },
{
    let names: Vec<&'static str> = vec!["name", "arguments"];
    proof {
        assert(json::name_texts(names@) =~= function_names());
    }
    let object: Option<Json> = json::name_elements(v, &names, 2);
    let v: &Json = match &object {
        Some(o) => o,
        None => v,
    };
    if !is_object(v) {
        return None;
    }
    match (take_string(v, "name"), take_string(v, "arguments")) {
        (Some(name), Some(arguments)) => Some(StreamFunctionDelta { name, arguments }),
        _ => None,
    }
}

fn decode_tool(v: &Json) -> (r: Option<StreamToolCallDelta>)
    ensures
        match r {
            Some(t) => decoded_tool(v@) == Some(t@),
            None => decoded_tool(v@) is None,
        },
{
    let names: Vec<&'static str> = vec!["index", "id", "type", "function"];
    proof {
        assert(json::name_texts(names@) =~= tool_names());
    }
    let object: Option<Json> = json::name_elements(v, &names, 4);
    let v: &Json = match &object {
        Some(o) => o,
        None => v,
    };
    if !is_object(v) {
        return None;
    }
    let function: Option<StreamFunctionDelta> = match v.get("function") {
        None => None,
        Some(Json::Null) => None,
        Some(f) => match decode_function(f) {
            Some(d) => Some(d),
            None => {
                return None;
            },
        },
    };
    match (take_number(v, "index"), take_string(v, "id"), take_string(v, "type")) {
        (Some(index), Some(id), Some(kind)) => Some(
            StreamToolCallDelta { index, id, kind, function },
        ),
        _ => None,
    }
}

fn decode_tools(a: &Vec<Json>) -> (r: Option<Vec<StreamToolCallDelta>>)
    ensures
        match r {
            Some(ts) => decoded_tools(json::views(a@)) == Some(tool_views(ts@)),
            None => decoded_tools(json::views(a@)) is None,
        },
{
    let ghost all: Seq<json::JsonView> = json::views(a@);
    let mut out: Vec<StreamToolCallDelta> = Vec::new();
    let mut i: usize = 0;
    proof {
        assert(tool_views(out@) =~= Seq::empty());
    }
    while i < a.len()
        invariant
            i <= a@.len(),
            all == json::views(a@),
            decoded_tools(all.take(i as int)) == Some(tool_views(out@)),
        decreases a@.len() - i,
    {
        proof {
            assert(all.take(i + 1).drop_last() =~= all.take(i as int));
            assert(all.take(i + 1).last() == a@[i as int]@);
        }
        match decode_tool(&a[i]) {
            Some(t) => {
                proof {
                    assert(tool_views(out@.push(t)) =~= tool_views(out@).push(t@));
                }
                out.push(t);
            },
            None => {
                proof {
                    lemma_bad_tool(all, i as int);
                }
                return None;
            },
        }
        i = i + 1;
    }
    proof {
        assert(all.take(all.len() as int) =~= all);
    }
    Some(out)
}

pub(crate) proof fn lemma_bad_tool(a: Seq<json::JsonView>, i: int)
    requires
        0 <= i < a.len(),
        decoded_tool(a[i]) is None,
    ensures
        decoded_tools(a) is None,
    decreases a.len(),
{
    if i < a.len() - 1 {
        lemma_bad_tool(a.drop_last(), i);
    }
}

fn decode_delta(v: &Json) -> (r: Option<StreamDelta>)
    ensures
        match r {
            Some(d) => decoded_delta(v@) == Some(d@),
            None => decoded_delta(v@) is None,
        },
{
    let names: Vec<&'static str> = vec!["content", "reasoning_content", "tool_calls"];
    proof {
        assert(json::name_texts(names@) =~= delta_names());
    }
    let object: Option<Json> = json::name_elements(v, &names, 0);
    let v: &Json = match &object {
        Some(o) => o,
        None => v,
    };
    if !is_object(v) {
        return None;
    }
    let tool_calls: Option<Vec<StreamToolCallDelta>> = match v.get("tool_calls") {
        None => None,
        Some(Json::Null) => None,
        Some(j) => match j.as_array() {
            Some(a) => match decode_tools(a) {
                Some(ts) => Some(ts),
                None => {
                    return None;
                },
            },
            None => {
                return None;
            },
        },
    };
    match (take_string(v, "content"), take_string(v, "reasoning_content")) {
        (Some(content), Some(reasoning_content)) => Some(
            StreamDelta { content, reasoning_content, tool_calls },
        ),
        _ => None,
    }
}

fn decode_choice(v: &Json) -> (r: Option<StreamChoice>)
    ensures
        match r {
            Some(c) => decoded_choice(v@) == Some(c@),
            None => decoded_choice(v@) is None,
        },
{
    let names: Vec<&'static str> = vec!["delta", "finish_reason"];
    proof {
        assert(json::name_texts(names@) =~= choice_names());
    }
    let object: Option<Json> = json::name_elements(v, &names, 1);
    let v: &Json = match &object {
        Some(o) => o,
        None => v,
    };
    if !is_object(v) {
        return None;
    }
    match (v.get("delta"), take_string(v, "finish_reason")) {
        (Some(d), Some(finish_reason)) => match decode_delta(d) {
            Some(delta) => Some(StreamChoice { delta, finish_reason }),
            None => None,
        },
        _ => None,
    }
}

fn decode_choices(a: &Vec<Json>) -> (r: Option<Vec<StreamChoice>>)
    ensures
        match r {
            Some(cs) => decoded_choices(json::views(a@)) == Some(choice_views(cs@)),
            None => decoded_choices(json::views(a@)) is None,
        },
{
    let ghost all: Seq<json::JsonView> = json::views(a@);
    let mut out: Vec<StreamChoice> = Vec::new();
    let mut i: usize = 0;
    proof {
        assert(choice_views(out@) =~= Seq::empty());
    }
    while i < a.len()
        invariant
            i <= a@.len(),
            all == json::views(a@),
            decoded_choices(all.take(i as int)) == Some(choice_views(out@)),
        decreases a@.len() - i,
    {
        proof {
            assert(all.take(i + 1).drop_last() =~= all.take(i as int));
            assert(all.take(i + 1).last() == a@[i as int]@);
        }
        match decode_choice(&a[i]) {
            Some(c) => {
                proof {
                    assert(choice_views(out@.push(c)) =~= choice_views(out@).push(c@));
                }
                out.push(c);
            },
            None => {
                proof {
                    lemma_bad_choice(all, i as int);
                }
                return None;
            },
        }
        i = i + 1;
    }
    proof {
        assert(all.take(all.len() as int) =~= all);
    }
    Some(out)
}

pub(crate) proof fn lemma_bad_choice(a: Seq<json::JsonView>, i: int)
    requires
        0 <= i < a.len(),
        decoded_choice(a[i]) is None,
    ensures
        decoded_choices(a) is None,
    decreases a.len(),
{
    if i < a.len() - 1 {
        lemma_bad_choice(a.drop_last(), i);
    }
}

fn take_detail(v: &Json, key: &'static str, inner: &'static str) -> (r: Option<Option<Option<u64>>>)
    ensures
        r == detail_member(v@, key@, inner@),
{
    match v.get(key) {
        None => Some(None),
        Some(Json::Null) => Some(None),
        Some(d) => {
            let names: Vec<&'static str> = vec![inner];
            proof {
                assert(json::name_texts(names@) =~= seq![inner@]);
            }
            let object: Option<Json> = json::name_elements(d, &names, 0);
            let d: &Json = match &object {
                Some(o) => o,
                None => d,
            };
            if !is_object(d) {
                return None;
            }
            match take_number(d, inner) {
                Some(n) => Some(Some(n)),
                None => None,
            }
        },
    }
}

/// The usage that a JSON value denotes.
pub fn decode_usage(v: &Json) -> (r: Option<NativeUsage>)
    ensures
        r == decoded_usage(v@),
{
    let names: Vec<&'static str> = vec!["prompt_tokens", "completion_tokens", "prompt_tokens_details", "completion_tokens_details"];
    proof {
        assert(json::name_texts(names@) =~= usage_names());
    }
    let object: Option<Json> = json::name_elements(v, &names, 0);
    let v: &Json = match &object {
        Some(o) => o,
        None => v,
    };
    if !is_object(v) {
        return None;
    }
    match (
        take_number(v, "prompt_tokens"),
        take_number(v, "completion_tokens"),
        take_detail(v, "prompt_tokens_details", "cached_tokens"),
        take_detail(v, "completion_tokens_details", "reasoning_tokens"),
    ) {
        (Some(prompt_tokens), Some(completion_tokens), Some(p), Some(c)) => Some(
            NativeUsage {
                prompt_tokens,
                completion_tokens,
                prompt_tokens_details: match p {
                    Some(cached_tokens) => Some(NativePromptTokenDetails { cached_tokens }),
                    None => None,
                },
                completion_tokens_details: match c {
                    Some(reasoning_tokens) => Some(
                        NativeCompletionTokenDetails { reasoning_tokens },
                    ),
                    None => None,
                },
            },
        ),
        _ => None,
    }
}

/// The usage member of a reply or a chunk, see `usage_member`.
pub fn take_usage(v: &Json) -> (r: Option<Option<NativeUsage>>)
    ensures
        r == usage_member(v@),
{
    match v.get("usage") {
        None => Some(None),
        Some(Json::Null) => Some(None),
        Some(u) => match decode_usage(u) {
            Some(u) => Some(Some(u)),
            None => None,
        },
    }
}

/// The chunk that a JSON value denotes, see `decoded_chunk`.
pub fn decode_chunk(v: &Json) -> (r: Option<StreamChunk>)
    ensures
        opt_chunk(r) == decoded_chunk(v@),
{
    let names: Vec<&'static str> = vec!["choices", "usage"];
    proof {
        assert(json::name_texts(names@) =~= chunk_names());
    }
    let object: Option<Json> = json::name_elements(v, &names, 0);
    let v: &Json = match &object {
        Some(o) => o,
        None => v,
    };
    if !is_object(v) {
        return None;
    }
    let choices: Vec<StreamChoice> = match v.get("choices") {
        None => Vec::new(),
        Some(j) => match j.as_array() {
            Some(a) => match decode_choices(a) {
                Some(cs) => cs,
                None => {
                    return None;
                },
            },
            None => {
                return None;
            },
        },
    };
    proof {
        if v@.get("choices"@) is None {
            assert(choice_views(choices@) =~= Seq::empty());
        }
    }
    match take_usage(v) {
        Some(usage) => Some(StreamChunk { choices, usage }),
        None => None,
    }
}

/// `o`, or zero.
pub open spec fn or_zero(o: Option<u64>) -> u64 {
    match o {
        Some(n) => n,
        None => 0,
    }
}

/// The sum of the tokens of `u` fits in 64 bits.
pub open spec fn usage_fits(u: NativeUsage) -> bool {
    or_zero(u.prompt_tokens) + or_zero(u.completion_tokens) <= u64::MAX
}

/// The usage that `u` reports. The protocol has no count of cache writes.
pub open spec fn usage_info(u: NativeUsage) -> UsageInfo {
    UsageInfo {
        prompt_tokens: or_zero(u.prompt_tokens),
        completion_tokens: or_zero(u.completion_tokens),
        total_tokens: (or_zero(u.prompt_tokens) + or_zero(u.completion_tokens)) as u64,
        cache_read_tokens: match u.prompt_tokens_details {
            Some(d) => or_zero(d.cached_tokens),
            None => 0,
        },
        cache_write_tokens: 0,
        reasoning_tokens: match u.completion_tokens_details {
            Some(d) => or_zero(d.reasoning_tokens),
            None => 0,
        },
    }
}

/// `t` begins a tool call: it names the function.
pub open spec fn begins_call(t: ToolDeltaView) -> bool {
    t.function is Some && t.function->0.name is Some && t.function->0.name->0.len() > 0
}

/// `t` begins a tool call and gives no id for it.
pub open spec fn needs_id(t: ToolDeltaView) -> bool {
    begins_call(t) && t.id is None
}

/// How many of the first `i` deltas need an id.
pub open spec fn ids_needed(ts: Seq<ToolDeltaView>, i: int) -> nat
    decreases i,
{
    if i <= 0 {
        0
    } else {
        ids_needed(ts, i - 1) + (if needs_id(ts[i - 1]) {
            1nat
        } else {
            0nat
        })
    }
}

/// The deltas of the tool calls of a choice.
pub open spec fn tools_of(c: ChoiceView) -> Seq<ToolDeltaView> {
    match c.delta.tool_calls {
        Some(ts) => ts,
        None => Seq::empty(),
    }
}

/// How many tool calls of the first `i` choices need an id.
pub open spec fn ids_needed_by(cs: Seq<ChoiceView>, i: int) -> nat
    decreases i,
{
    if i <= 0 {
        0
    } else {
        ids_needed_by(cs, i - 1) + ids_needed(tools_of(cs[i - 1]), tools_of(cs[i - 1]).len() as int)
    }
}

/// The chunk of arguments that `t` carries.
pub open spec fn arguments_event(t: ToolDeltaView, arguments: Seq<char>) -> types::StreamEventView {
    types::StreamEventView::ToolCallChunk(or_zero(t.index), arguments)
}

/// The events of a delta of a tool call, where `fresh` is the id of a call that
/// needs one. Where a call begins, its arguments follow as a chunk of their
/// own, unless they are empty.
pub open spec fn tool_events(t: ToolDeltaView, fresh: Seq<char>) -> Seq<types::StreamEventView> {
    if begins_call(t) {
        let start = types::StreamEventView::ToolCallStart(
            message::ToolCallView {
                id: match t.id {
                    Some(id) => id,
                    None => fresh,
                },
                call_type: "function"@,
                name: t.function->0.name->0,
                arguments: Seq::empty(),
            },
        );
        match t.function->0.arguments {
            Some(a) if a.len() > 0 => seq![start, arguments_event(t, a)],
            _ => seq![start],
        }
    } else if t.function is Some && t.function->0.arguments is Some {
        seq![arguments_event(t, t.function->0.arguments->0)]
    } else {
        Seq::empty()
    }
}

/// The events of the first `i` deltas. The ids for them stand in `fresh` from
/// `base` on, in order.
pub open spec fn tools_events(
    ts: Seq<ToolDeltaView>,
    fresh: Seq<Seq<char>>,
    base: int,
    i: int,
) -> Seq<types::StreamEventView>
    decreases i,
{
    if i <= 0 {
        Seq::empty()
    } else {
        tools_events(ts, fresh, base, i - 1) + tool_events(
            ts[i - 1],
            fresh[base + ids_needed(ts, i - 1)],
        )
    }
}

/// The event of a piece of content or thinking, unless it is empty.
pub open spec fn text_event(o: Option<Seq<char>>, reasoning: bool) -> Seq<types::StreamEventView> {
    match o {
        Some(s) if s.len() > 0 => if reasoning {
            seq![types::StreamEventView::ReasoningContent(s)]
        } else {
            seq![types::StreamEventView::Content(s)]
        },
        _ => Seq::empty(),
    }
}

/// The events of the first `i` choices: for each its content, its thinking and
/// its tool calls.
pub open spec fn choices_events(
    cs: Seq<ChoiceView>,
    fresh: Seq<Seq<char>>,
    i: int,
) -> Seq<types::StreamEventView>
    decreases i,
{
    if i <= 0 {
        Seq::empty()
    } else {
        let c = cs[i - 1];
        choices_events(cs, fresh, i - 1) + text_event(c.delta.content, false) + text_event(
            c.delta.reasoning_content,
            true,
        ) + tools_events(
            tools_of(c),
            fresh,
            ids_needed_by(cs, i - 1) as int,
            tools_of(c).len() as int,
        )
    }
}

/// The finish reason of the last of the first `i` choices that has one.
pub open spec fn finish_reason_of(cs: Seq<ChoiceView>, i: int) -> Option<Seq<char>>
    decreases i,
{
    if i <= 0 {
        None
    } else if cs[i - 1].finish_reason is Some {
        cs[i - 1].finish_reason
    } else {
        finish_reason_of(cs, i - 1)
    }
}

/// What a line of the stream gives: events, usage and finish reason. A chunk
/// that reports usage gives no events.
pub struct LineView {
    pub events: Seq<types::StreamEventView>,
    pub usage: Option<UsageInfo>,
    pub finish_reason: Option<Seq<char>>,
}

/// What a chunk gives, with the ids of `fresh` for the calls that need one.
pub open spec fn chunk_outcome(c: ChunkView, fresh: Seq<Seq<char>>) -> LineView {
    let n = c.choices.len() as int;
    match c.usage {
        Some(u) => LineView {
            events: Seq::empty(),
            usage: Some(usage_info(u)),
            finish_reason: finish_reason_of(c.choices, n),
        },
        None => LineView {
            events: choices_events(c.choices, fresh, n),
            usage: None,
            finish_reason: finish_reason_of(c.choices, n),
        },
    }
}

/// What a line without a chunk gives.
pub open spec fn nothing() -> LineView {
    LineView { events: Seq::empty(), usage: None, finish_reason: None }
}

/// The data of a line of the stream.
pub open spec fn line_data(line: Seq<char>) -> Option<Seq<char>> {
    let t = text::trimmed(line);
    if text::stands_at(t, "data: "@, 0) && t.skip(6) != "[DONE]"@ {
        Some(t.skip(6))
    } else {
        None
    }
}

/// The chunk that a line of the stream carries.
pub open spec fn line_chunk(line: Seq<char>) -> Option<ChunkView> {
    match line_data(line) {
        Some(data) => match json::json_of_text(data) {
            Some(v) => decoded_chunk(v),
            None => None,
        },
        None => None,
    }
}

/// The usage that a line reports, if any, can be summed up.
pub open spec fn line_fits(line: Seq<char>) -> bool {
    line_chunk(line) matches Some(c) ==> (c.usage matches Some(u) ==> usage_fits(u))
}

/// The usage that `u` reports, see `usage_info`.
pub fn to_usage_info(u: &NativeUsage) -> (r: UsageInfo)
    requires
        usage_fits(*u),
    ensures
        r == usage_info(*u),
{
    let prompt: u64 = u.prompt_tokens.unwrap_or(0);
    let completion: u64 = u.completion_tokens.unwrap_or(0);
    UsageInfo {
        prompt_tokens: prompt,
        completion_tokens: completion,
        total_tokens: prompt + completion,
        cache_read_tokens: match u.prompt_tokens_details {
            Some(d) => d.cached_tokens.unwrap_or(0),
            None => 0,
        },
        cache_write_tokens: 0,
        reasoning_tokens: match u.completion_tokens_details {
            Some(d) => d.reasoning_tokens.unwrap_or(0),
            None => 0,
        },
    }
}

/// Whether the tokens of `u` can be summed up.
pub fn fits(u: &NativeUsage) -> (r: bool)
    ensures
        r == usage_fits(*u),
{
    u.prompt_tokens.unwrap_or(0) <= u64::MAX - u.completion_tokens.unwrap_or(0)
}

/// Adds the events of a delta of a tool call.
fn push_tool_events(events: &mut Vec<StreamEvent>, t: &StreamToolCallDelta, fresh: &str)
    ensures
        types::event_views(final(events)@) == types::event_views(old(events)@) + tool_events(
            t@,
            fresh@,
        ),
{
    let ghost before: Seq<types::StreamEventView> = types::event_views(events@);
    let index: u64 = t.index.unwrap_or(0);
    if let Some(f) = &t.function {
        let named: bool = match &f.name {
            Some(name) => !name.as_str().is_empty(),
            None => false,
        };
        if named {
            let id: String = match &t.id {
                Some(id) => id.clone(),
                None => fresh.to_string(),
            };
            let name: String = match &f.name {
                Some(name) => name.clone(),
                None => String::new(),
            };
            let call: ToolCall = ToolCall {
                id,
                call_type: "function".to_string(),
                function: FunctionCall { name, arguments: String::new() },
            };
            let e: StreamEvent = StreamEvent::ToolCallStart(call);
            proof {
                types::lemma_event_push(events@, e);
            }
            events.push(e);
        }
        if let Some(a) = &f.arguments {
            if !named || !a.as_str().is_empty() {
                let e: StreamEvent = StreamEvent::ToolCallChunk { index, arguments: a.clone() };
                proof {
                    types::lemma_event_push(events@, e);
                }
                events.push(e);
            }
        }
    }
    proof {
        assert(types::event_views(events@) =~= before + tool_events(t@, fresh@));
    }
}

/// Adds the event of a piece of content or thinking.
fn push_text_event(events: &mut Vec<StreamEvent>, o: &Option<String>, reasoning: bool)
    ensures
        types::event_views(final(events)@) == types::event_views(old(events)@) + text_event(
            text::opt_text(*o),
            reasoning,
        ),
{
    let ghost before: Seq<types::StreamEventView> = types::event_views(events@);
    if let Some(s) = o {
        if !s.as_str().is_empty() {
            let e: StreamEvent = if reasoning {
                StreamEvent::ReasoningContent(s.clone())
            } else {
                StreamEvent::Content(s.clone())
            };
            proof {
                types::lemma_event_push(events@, e);
            }
            events.push(e);
        }
    }
    proof {
        assert(types::event_views(events@) =~= before + text_event(text::opt_text(*o), reasoning));
    }
}

fn delta_needs_id(t: &StreamToolCallDelta) -> (r: bool)
    ensures
        r == needs_id(t@),
{
    t.id.is_none() && match &t.function {
        Some(f) => match &f.name {
            Some(name) => !name.as_str().is_empty(),
            None => false,
        },
        None => false,
    }
}

proof fn lemma_ids_needed(ts: Seq<ToolDeltaView>, i: int, j: int)
    requires
        0 <= i <= j,
    ensures
        ids_needed(ts, i) <= ids_needed(ts, j),
        ids_needed(ts, j) <= ids_needed(ts, i) + (j - i),
    decreases j,
{
    if i < j {
        lemma_ids_needed(ts, i, j - 1);
    }
}

proof fn lemma_ids_needed_by(cs: Seq<ChoiceView>, i: int, j: int)
    requires
        0 <= i <= j,
    ensures
        ids_needed_by(cs, i) <= ids_needed_by(cs, j),
    decreases j,
{
    if i < j {
        lemma_ids_needed_by(cs, i, j - 1);
    }
}

/// Adds the events of the tool calls of a choice, with the ids of `fresh` from
/// `base` on. Returns where the unused ids begin.
fn push_tools_events(
    events: &mut Vec<StreamEvent>,
    ts: &Vec<StreamToolCallDelta>,
    fresh: &Vec<String>,
    base: usize,
) -> (r: usize)
    requires
        base + ids_needed(tool_views(ts@), ts@.len() as int) <= fresh@.len(),
    ensures
        types::event_views(final(events)@) == types::event_views(old(events)@) + tools_events(
            tool_views(ts@),
            text::texts(fresh@),
            base as int,
            ts@.len() as int,
        ),
        r == base + ids_needed(tool_views(ts@), ts@.len() as int),
{
    let ghost before: Seq<types::StreamEventView> = types::event_views(events@);
    let ghost tv: Seq<ToolDeltaView> = tool_views(ts@);
    let ghost fv: Seq<Seq<char>> = text::texts(fresh@);
    let limit: usize = fresh.len();
    let mut next: usize = base;
    let mut i: usize = 0;
    proof {
        assert(before + tools_events(tv, fv, base as int, 0) =~= before);
    }
    while i < ts.len()
        invariant
            i <= ts@.len(),
            tv == tool_views(ts@),
            fv == text::texts(fresh@),
            limit == fresh@.len(),
            base + ids_needed(tv, ts@.len() as int) <= fresh@.len(),
            next == base + ids_needed(tv, i as int),
            types::event_views(events@) == before + tools_events(tv, fv, base as int, i as int),
        decreases ts@.len() - i,
    {
        proof {
            lemma_ids_needed(tv, i + 1, ts@.len() as int);
        }
        let ghost here: Seq<types::StreamEventView> = types::event_views(events@);
        if delta_needs_id(&ts[i]) {
            push_tool_events(events, &ts[i], fresh[next].as_str());
            next = next + 1;
        } else {
            push_tool_events(events, &ts[i], "");
            proof {
                assert(tool_events(tv[i as int], ""@) == tool_events(
                    tv[i as int],
                    fv[base + ids_needed(tv, i as int)],
                ));
            }
        }
        proof {
            assert(types::event_views(events@) =~= before + tools_events(
                tv,
                fv,
                base as int,
                i + 1,
            ));
        }
        i = i + 1;
    }
    next
}

/// How many ids the tool calls of a chunk need.
pub fn fresh_ids_needed(chunk: &StreamChunk) -> (r: Option<usize>)
    ensures
        match r {
            Some(n) => n == ids_needed_by(chunk@.choices, chunk@.choices.len() as int),
            None => ids_needed_by(chunk@.choices, chunk@.choices.len() as int) > usize::MAX,
        },
{
    let ghost cs: Seq<ChoiceView> = chunk@.choices;
    let mut n: usize = 0;
    let mut i: usize = 0;
    while i < chunk.choices.len()
        invariant
            cs == choice_views(chunk.choices@),
            cs == chunk@.choices,
            i <= cs.len(),
            n == ids_needed_by(cs, i as int),
        decreases cs.len() - i,
    {
        let ghost tv: Seq<ToolDeltaView> = tools_of(cs[i as int]);
        let mut m: usize = 0;
        if let Some(ts) = &chunk.choices[i].delta.tool_calls {
            let mut j: usize = 0;
            proof {
                assert(tv =~= tool_views(ts@));
            }
            while j < ts.len()
                invariant
                    tv == tool_views(ts@),
                    j <= ts@.len(),
                    m <= j,
                    m == ids_needed(tv, j as int),
                decreases ts@.len() - j,
            {
                if delta_needs_id(&ts[j]) {
                    m = m + 1;
                }
                j = j + 1;
            }
        }
        proof {
            lemma_ids_needed_by(cs, i + 1, cs.len() as int);
        }
        match n.checked_add(m) {
            Some(sum) => {
                n = sum;
            },
            None => {
                return None;
            },
        }
        i = i + 1;
    }
    Some(n)
}

/// What a chunk gives, with the ids of `fresh` for the calls that need one, see
/// `chunk_outcome`.
pub fn read_chunk(chunk: &StreamChunk, fresh: &Vec<String>) -> (r: (
    Vec<StreamEvent>,
    Option<UsageInfo>,
    Option<String>,
))
    requires
        chunk@.usage matches Some(u) ==> usage_fits(u),
        ids_needed_by(chunk@.choices, chunk@.choices.len() as int) <= fresh@.len(),
    ensures
        types::event_views(r.0@) == chunk_outcome(chunk@, text::texts(fresh@)).events,
        r.1 == chunk_outcome(chunk@, text::texts(fresh@)).usage,
        text::opt_text(r.2) == chunk_outcome(chunk@, text::texts(fresh@)).finish_reason,
{
    let ghost cs: Seq<ChoiceView> = chunk@.choices;
    let ghost fv: Seq<Seq<char>> = text::texts(fresh@);
    let n: usize = chunk.choices.len();
    let mut finish_reason: Option<String> = None;
    let mut k: usize = n;
    while k > 0 && finish_reason.is_none()
        invariant
            k <= n,
            n == cs.len(),
            cs == choice_views(chunk.choices@),
            finish_reason is Some ==> finish_reason_of(cs, n as int) == text::opt_text(
                finish_reason,
            ),
            finish_reason is None ==> finish_reason_of(cs, n as int) == finish_reason_of(
                cs,
                k as int,
            ),
        decreases k,
    {
        finish_reason = message::clone_opt(&chunk.choices[k - 1].finish_reason);
        k = k - 1;
    }
    let mut events: Vec<StreamEvent> = Vec::new();
    if let Some(u) = &chunk.usage {
        proof {
            assert(types::event_views(events@) =~= Seq::empty());
        }
        return (events, Some(to_usage_info(u)), finish_reason);
    }
    let mut next: usize = 0;
    let mut i: usize = 0;
    proof {
        assert(types::event_views(events@) =~= choices_events(cs, fv, 0));
    }
    while i < n
        invariant
            i <= n,
            n == cs.len(),
            cs == choice_views(chunk.choices@),
            fv == text::texts(fresh@),
            ids_needed_by(cs, n as int) <= fresh@.len(),
            next == ids_needed_by(cs, i as int),
            types::event_views(events@) == choices_events(cs, fv, i as int),
        decreases n - i,
    {
        proof {
            lemma_ids_needed_by(cs, i + 1, n as int);
        }
        let ghost before: Seq<types::StreamEventView> = types::event_views(events@);
        let ghost c: ChoiceView = cs[i as int];
        let ghost base: int = next as int;
        push_text_event(&mut events, &chunk.choices[i].delta.content, false);
        push_text_event(&mut events, &chunk.choices[i].delta.reasoning_content, true);
        let ghost texts: Seq<types::StreamEventView> = types::event_views(events@);
        if let Some(ts) = &chunk.choices[i].delta.tool_calls {
            proof {
                assert(tools_of(c) =~= tool_views(ts@));
            }
            next = push_tools_events(&mut events, ts, fresh, next);
        } else {
            proof {
                assert(tools_of(c) =~= Seq::empty());
                assert(texts + tools_events(tools_of(c), fv, base, 0) =~= texts);
            }
        }
        i = i + 1;
    }
    (events, None, finish_reason)
}

/// The chunk that a line of the stream carries, see `line_chunk`.
pub fn decode_sse_line(line: &str) -> (r: Option<StreamChunk>)
    ensures
        opt_chunk(r) == line_chunk(line@),
{
    let t: String = text::trim(line);
    let v: Vec<char> = text::chars_of(t.as_str());
    let p: Vec<char> = text::chars_of("data: ");
    proof {
        reveal_strlit("data: ");
    }
    if !text::stands_here(&v, &p, 0) {
        return None;
    }
    let data: String = text::string_of(&v, 6, v.len());
    proof {
        assert(v@.subrange(6, v@.len() as int) =~= v@.skip(6));
    }
    if text::same_text(data.as_str(), "[DONE]") {
        return None;
    }
    match json::parse_json(data.as_str()) {
        Some(j) => decode_chunk(&j),
        None => None,
    }
}

/// `n` fresh ids.
fn fresh_ids(n: usize) -> (r: Vec<String>)
    ensures
        r@.len() == n,
        forall|i: int| 0 <= i < n ==> ids::uuid_text((#[trigger] r@[i])@),
{
    let mut out: Vec<String> = Vec::new();
    while out.len() < n
        invariant
            out@.len() <= n,
            forall|i: int| 0 <= i < out@.len() ==> ids::uuid_text((#[trigger] out@[i])@),
        decreases n - out@.len(),
    {
        out.push(ids::new_uuid());
    }
    out
}

/// What a line gives, where each call without an id gets a fresh one.
pub open spec fn line_outcome(line: Seq<char>, fresh: Seq<Seq<char>>) -> LineView {
    match line_chunk(line) {
        Some(c) => chunk_outcome(c, fresh),
        None => nothing(),
    }
}

/// The number of fresh ids that the tool calls of a line need.
pub open spec fn line_ids(line: Seq<char>) -> nat {
    match line_chunk(line) {
        Some(c) => ids_needed_by(c.choices, c.choices.len() as int),
        None => 0,
    }
}

/// `r` is what the line `line` gives, with some fresh ids.
pub open spec fn is_line_outcome(line: Seq<char>, r: LineView) -> bool {
    exists|fresh: Seq<Seq<char>>|
        {
            &&& fresh.len() == line_ids(line)
            &&& forall|i: int| 0 <= i < fresh.len() ==> ids::uuid_text(#[trigger] fresh[i])
            &&& r == #[trigger] line_outcome(line, fresh)
        }
}

/// What a line holds, as the three parts that are read from it.
pub open spec fn line_view(r: (Vec<StreamEvent>, Option<UsageInfo>, Option<String>)) -> LineView {
    LineView {
        events: types::event_views(r.0@),
        usage: r.1,
        finish_reason: text::opt_text(r.2),
    }
}

/// Reads a line of the stream: its events, its usage and its finish reason.
/// Tool calls without an id get fresh ids.
pub fn parse_sse_line(line: &str) -> (r: (Vec<StreamEvent>, Option<UsageInfo>, Option<String>))
    requires
        line_fits(line@),
        line_ids(line@) <= usize::MAX,
    ensures
        is_line_outcome(line@, line_view(r)),
{
    match decode_sse_line(line) {
        Some(chunk) => {
            let n: usize = match fresh_ids_needed(&chunk) {
                Some(n) => n,
                None => 0,
            };
            let fresh: Vec<String> = fresh_ids(n);
            let r: (Vec<StreamEvent>, Option<UsageInfo>, Option<String>) = read_chunk(
                &chunk,
                &fresh,
            );
            proof {
                let f = text::texts(fresh@);
                assert(line_view(r) == line_outcome(line@, f));
                assert(f.len() == line_ids(line@));
                assert forall|i: int| 0 <= i < f.len() implies ids::uuid_text(
                    #[trigger] f[i],
                ) by {
                    assert(f[i] == fresh@[i]@);
                }
            }
            r
        },
        None => {
            let r: (Vec<StreamEvent>, Option<UsageInfo>, Option<String>) = (Vec::new(), None, None);
            proof {
                assert(types::event_views(r.0@) =~= Seq::empty());
                let f = Seq::<Seq<char>>::empty();
                assert(line_view(r) == line_outcome(line@, f));
            }
            r
        },
    }
}

/// Reads a line of the stream as `parse_sse_line` does, or gives `None` where
/// the tokens that it reports do not fit in 64 bits, or its tool calls are too
/// many to count.
pub fn try_parse_sse_line(line: &str) -> (r: Option<
    (Vec<StreamEvent>, Option<UsageInfo>, Option<String>),
>)
    ensures
        r is Some == (line_fits(line@) && line_ids(line@) <= usize::MAX),
        r matches Some(o) ==> is_line_outcome(line@, line_view(o)),
{
    if let Some(chunk) = decode_sse_line(line) {
        if let Some(u) = &chunk.usage {
            if !fits(u) {
                return None;
            }
        }
        if fresh_ids_needed(&chunk).is_none() {
            return None;
        }
    }
    Some(parse_sse_line(line))
}

} // verus!
