//! The conversation history of a session: its token budget and the ways of
//! trimming it.
//!
//! How many tokens a message takes depends on the model, and is counted by the
//! caller: each operation that needs the counts takes them as an argument.

use crate::agent::sanitize;
use crate::list;
use crate::message::{ChatMessage, MessageRole};
use crate::message;
use crate::text;
use vstd::prelude::*;
use vstd::string::*;
use vstd::utf8::*;

verus! {

/// The wire protocol of a model provider.
#[derive(Clone, Copy, Debug, PartialEq, Eq, Structural)]
pub enum ProtocolType {
    OpenAI,
    Anthropic,
}

/// The conversation history of a session.
#[derive(Debug, PartialEq, Eq)]
pub struct HistoryManager {
    messages: Vec<ChatMessage>,
    max_tokens: u64,
    current_tokens: u64,
    protocol_type: ProtocolType,
    model_name: Option<String>,
}

/// What a history holds.
pub struct HistoryView {
    pub messages: Seq<message::MessageView>,
    /// The token budget.
    pub max_tokens: u64,
    /// The number of tokens that the conversation is taken to have.
    pub current_tokens: u64,
    pub protocol_type: ProtocolType,
    /// The model whose tokens are counted.
    pub model_name: Option<Seq<char>>,
}

impl View for HistoryManager {
    type V = HistoryView;

    closed spec fn view(&self) -> HistoryView {
        HistoryView {
            messages: message::message_views(self.messages@),
            max_tokens: self.max_tokens,
            current_tokens: self.current_tokens,
            protocol_type: self.protocol_type,
            model_name: text::opt_text(self.model_name),
        }
    }
}

/// The name of the message that stands for a compacted part of a history.
pub const COMPACTION_SUMMARY: &'static str = "compaction_summary";

/// The sum of `counts`.
pub open spec fn total(counts: Seq<u64>) -> nat
    decreases counts.len(),
{
    if counts.len() == 0 {
        0
    } else {
        total(counts.drop_last()) + counts.last() as nat
    }
}

/// `a - b`, or zero where `b` is greater.
pub open spec fn monus(a: nat, b: nat) -> nat {
    if a >= b {
        (a - b) as nat
    } else {
        0
    }
}

proof fn lemma_total_take(counts: Seq<u64>, i: int)
    requires
        0 <= i < counts.len(),
    ensures
        total(counts.take(i + 1)) == total(counts.take(i)) + counts[i],
        total(counts.take(i + 1)) <= total(counts),
    decreases counts.len() - i,
{
    assert(counts.take(i + 1).drop_last() =~= counts.take(i));
    if i + 1 < counts.len() {
        lemma_total_take(counts, i + 1);
    } else {
        assert(counts.take(i + 1) =~= counts);
    }
}

/// The sum of `counts`.
fn sum(counts: &Vec<u64>) -> (r: u64)
    requires
        total(counts@) <= u64::MAX,
    ensures
        r == total(counts@),
{
    let mut s: u64 = 0;
    let mut i: usize = 0;
    while i < counts.len()
        invariant
            i <= counts@.len(),
            total(counts@) <= u64::MAX,
            s == total(counts@.take(i as int)),
        decreases counts@.len() - i,
    {
        proof {
            lemma_total_take(counts@, i as int);
        }
        s = s + counts[i];
        i = i + 1;
    }
    proof {
        assert(counts@.take(counts@.len() as int) =~= counts@);
    }
    s
}

/// `m` is a compaction summary.
pub open spec fn is_marker(m: message::MessageView) -> bool {
    m.role == MessageRole::Assistant && m.name == Some(COMPACTION_SUMMARY@)
}

/// What a walk over a history from its oldest message has left.
pub struct Trim {
    /// The messages that stay.
    pub kept: Seq<message::MessageView>,
    /// The tokens that the history is then taken to have.
    pub tokens: nat,
    /// How many messages were removed.
    pub removed: nat,
}

/// The first `i` messages of `ms` after trimming to `max` tokens: from the
/// oldest on, each message is removed while the history is over the budget,
/// but never a system message and never the last message.
pub open spec fn fifo(
    ms: Seq<message::MessageView>,
    counts: Seq<u64>,
    tokens: nat,
    max: nat,
    i: int,
) -> Trim
    decreases i,
{
    if i <= 0 {
        Trim { kept: Seq::empty(), tokens, removed: 0 }
    } else {
        let t = fifo(ms, counts, tokens, max, i - 1);
        let m = ms[i - 1];
        if t.tokens > max && i < ms.len() && m.role != MessageRole::System {
            Trim {
                kept: t.kept,
                tokens: monus(t.tokens, counts[i - 1] as nat),
                removed: t.removed + 1,
            }
        } else {
            Trim { kept: t.kept.push(m), ..t }
        }
    }
}

/// `m` may be removed by an emergency trim: it is no system message and no
/// compaction summary.
pub open spec fn removable(m: message::MessageView) -> bool {
    m.role != MessageRole::System && m.name != Some(COMPACTION_SUMMARY@)
}

/// How many of the first `i` messages of `ms` may be removed.
pub open spec fn removable_count(ms: Seq<message::MessageView>, i: int) -> nat
    decreases i,
{
    if i <= 0 {
        0
    } else if removable(ms[i - 1]) {
        removable_count(ms, i - 1) + 1
    } else {
        removable_count(ms, i - 1)
    }
}

/// The first `i` messages of `ms` without the oldest `quota` of those that may
/// be removed.
pub open spec fn emergency(
    ms: Seq<message::MessageView>,
    counts: Seq<u64>,
    tokens: nat,
    quota: nat,
    i: int,
) -> Trim
    decreases i,
{
    if i <= 0 {
        Trim { kept: Seq::empty(), tokens, removed: 0 }
    } else {
        let t = emergency(ms, counts, tokens, quota, i - 1);
        let m = ms[i - 1];
        if t.removed < quota && removable(m) {
            Trim {
                kept: t.kept,
                tokens: monus(t.tokens, counts[i - 1] as nat),
                removed: t.removed + 1,
            }
        } else {
            Trim { kept: t.kept.push(m), ..t }
        }
    }
}

/// How many messages an emergency trim leaves of those that may be removed.
pub const EMERGENCY_KEEP: usize = 4;

/// The number of system messages at the head of `ms`.
pub open spec fn leading_systems(ms: Seq<message::MessageView>) -> nat
    decreases ms.len(),
{
    if ms.len() > 0 && ms[0].role == MessageRole::System {
        1 + leading_systems(ms.drop_first())
    } else {
        0
    }
}

/// The index of the last compaction summary among the first `i` messages.
pub open spec fn last_marker(ms: Seq<message::MessageView>, i: int) -> Option<int>
    decreases i,
{
    if i <= 0 {
        None
    } else if is_marker(ms[i - 1]) {
        Some(i - 1)
    } else {
        last_marker(ms, i - 1)
    }
}

/// The first index at or after `i` of a user message, or the end of `ms`.
pub open spec fn next_user(ms: Seq<message::MessageView>, i: int) -> int
    decreases ms.len() - i,
{
    if i >= ms.len() {
        ms.len() as int
    } else if ms[i].role == MessageRole::User {
        i
    } else {
        next_user(ms, i + 1)
    }
}

/// The end of the round that begins at `i`: the next user message, or the end.
pub open spec fn round_end(ms: Seq<message::MessageView>, i: int) -> int {
    next_user(ms, i + 1)
}

/// The tokens of the messages from `i` up to `end` that are no compaction
/// summaries.
pub open spec fn round_tokens(
    ms: Seq<message::MessageView>,
    counts: Seq<u64>,
    i: int,
    end: int,
) -> nat
    decreases end,
{
    if end <= i || end <= 0 {
        0
    } else if is_marker(ms[end - 1]) {
        round_tokens(ms, counts, i, end - 1)
    } else {
        round_tokens(ms, counts, i, end - 1) + counts[end - 1] as nat
    }
}

/// Where a lossless trim that begins at `i` ends, and the tokens it leaves:
/// whole rounds go while the history is over `target`, but never the last.
pub open spec fn lossless_cut(
    ms: Seq<message::MessageView>,
    counts: Seq<u64>,
    tokens: nat,
    target: nat,
    i: int,
) -> (int, nat)
    decreases ms.len() - i,
{
    let end = round_end(ms, i);
    if tokens <= target || i >= ms.len() || end >= ms.len() {
        (i, tokens)
    } else {
        proof {
            lemma_next_user(ms, i + 1);
        }
        lossless_cut(ms, counts, monus(tokens, round_tokens(ms, counts, i, end)), target, end)
    }
}

/// Where a lossless trim begins: after the leading system messages and the
/// compaction summary that follows them.
pub open spec fn lossless_start(ms: Seq<message::MessageView>) -> int {
    let l = leading_systems(ms) as int;
    if l < ms.len() && is_marker(ms[l]) {
        l + 1
    } else {
        l
    }
}

/// The compaction summaries of `ms`.
pub open spec fn markers(ms: Seq<message::MessageView>) -> Seq<message::MessageView> {
    ms.filter(|m: message::MessageView| is_marker(m))
}

/// A history after a lossless trim to four fifths of its budget.
pub open spec fn lossless(h: HistoryView, counts: Seq<u64>) -> HistoryView {
    let target = (h.max_tokens * 4 / 5) as nat;
    if h.max_tokens == 0 || h.current_tokens <= target {
        h
    } else {
        let start = lossless_start(h.messages);
        let (end, tokens) = lossless_cut(
            h.messages,
            counts,
            h.current_tokens as nat,
            target,
            start,
        );
        HistoryView {
            messages: h.messages.take(start) + markers(h.messages.subrange(start, end))
                + h.messages.skip(end),
            current_tokens: tokens as u64,
            ..h
        }
    }
}

/// The note at the end of a message that was cut from `len` bytes to `max`.
pub open spec fn truncation_notice(len: nat, max: nat) -> Seq<char> {
    "\n\n[...truncated: original "@ + text::decimal(len) + " chars, showing first "@
        + text::decimal(max) + " chars]"@
}

/// `m` is too long for a limit of `max` bytes. System messages never are.
pub open spec fn oversized(m: message::MessageView, max: nat) -> bool {
    m.role != MessageRole::System && text::byte_len(m.content) > max
}

/// The last place at or before `i` where a character of `bytes` ends.
pub open spec fn boundary_at_or_before(bytes: Seq<u8>, i: int) -> int
    decreases i,
{
    if i <= 0 {
        0
    } else if is_char_boundary(bytes, i) {
        i
    } else {
        boundary_at_or_before(bytes, i - 1)
    }
}

/// `m` cut to the characters that end within the first `max` bytes of its
/// content, with the note.
pub open spec fn shortened(m: message::MessageView, max: nat) -> message::MessageView {
    message::MessageView {
        content: decode_utf8(
            encode_utf8(m.content).take(
                boundary_at_or_before(encode_utf8(m.content), max as int),
            ),
        ) + truncation_notice(text::byte_len(m.content), max),
        ..m
    }
}

/// `ms` with its oversized messages cut.
pub open spec fn shortened_all(ms: Seq<message::MessageView>, max: nat) -> Seq<
    message::MessageView,
> {
    ms.map_values(
        |m: message::MessageView|
            if oversized(m, max) {
                shortened(m, max)
            } else {
                m
            },
    )
}

/// How many of the first `i` messages are oversized.
pub open spec fn oversized_count(ms: Seq<message::MessageView>, max: nat, i: int) -> nat
    decreases i,
{
    if i <= 0 {
        0
    } else {
        oversized_count(ms, max, i - 1) + (if oversized(ms[i - 1], max) {
            1nat
        } else {
            0nat
        })
    }
}

/// The tokens of a history once the oversized ones of its first `i` messages
/// are cut: their old counts go, their new counts come.
pub open spec fn shortened_tokens(
    ms: Seq<message::MessageView>,
    max: nat,
    old_counts: Seq<u64>,
    new_counts: Seq<u64>,
    tokens: nat,
    i: int,
) -> nat
    decreases i,
{
    if i <= 0 {
        tokens
    } else {
        let t = shortened_tokens(ms, max, old_counts, new_counts, tokens, i - 1);
        if oversized(ms[i - 1], max) {
            let sum = monus(t, old_counts[i - 1] as nat) + new_counts[i - 1] as nat;
            if sum > u64::MAX {
                u64::MAX as nat
            } else {
                sum
            }
        } else {
            t
        }
    }
}

/// `m` begins a round of a conversation: a user speaks or a tool answers.
pub open spec fn begins_round(m: message::MessageView) -> bool {
    m.role == MessageRole::User || m.role == MessageRole::Tool
}

/// The index of the `k`th message from the end of the first `i` that begins a
/// round, or `None` where there are fewer.
pub open spec fn rounds_from_end(ms: Seq<message::MessageView>, k: nat, i: int) -> Option<int>
    decreases i,
{
    if k == 0 {
        Some(i)
    } else if i <= 0 {
        None
    } else if begins_round(ms[i - 1]) {
        rounds_from_end(ms, (k - 1) as nat, i - 1)
    } else {
        rounds_from_end(ms, k, i - 1)
    }
}

/// `m` carries a call that some message of `tail` answers.
pub open spec fn asks_for(m: message::MessageView, tail: Seq<message::MessageView>) -> bool {
    (m.role == MessageRole::Assistant || m.role == MessageRole::Tool) && exists|id: Seq<char>|
        #![trigger sanitize::asks(m, id)]
        sanitize::asks(m, id) && sanitize::answered(tail, id)
}

/// Where the kept tail begins when it begins at `start` and is extended back
/// over the messages from `j` down to `low`, up to the nearest user message,
/// to hold each message that carries a call that `tail` answers.
pub open spec fn extended_back(
    ms: Seq<message::MessageView>,
    tail: Seq<message::MessageView>,
    low: int,
    j: int,
    start: int,
) -> int
    decreases j + 1 - low,
{
    if j < low || ms[j].role == MessageRole::User {
        start
    } else if asks_for(ms[j], tail) {
        extended_back(ms, tail, low, j - 1, j)
    } else {
        extended_back(ms, tail, low, j - 1, start)
    }
}

/// Where the tail begins that a compaction keeps: with its last `keep` rounds,
/// and with the calls that their tool results answer.
pub open spec fn tail_start(ms: Seq<message::MessageView>, keep: nat) -> int {
    let low = leading_systems(ms) as int;
    match rounds_from_end(ms, keep, ms.len() as int) {
        None => low,
        Some(i) => extended_back(ms, ms.skip(i), low, i - 1, i),
    }
}

/// The message that stands for a compacted part of a history.
pub open spec fn summary_message(summary: Seq<char>) -> message::MessageView {
    message::MessageView {
        name: Some(COMPACTION_SUMMARY@),
        ..message::plain_message(MessageRole::Assistant, summary)
    }
}

/// `tokens` less the counts from `i` up to `end`, one after the other.
pub open spec fn less_counts(tokens: nat, counts: Seq<u64>, i: int, end: int) -> nat
    decreases end,
{
    if end <= i || end <= 0 {
        tokens
    } else {
        monus(less_counts(tokens, counts, i, end - 1), counts[end - 1] as nat)
    }
}

/// A history after the messages between its leading system messages and its
/// last `keep` rounds are replaced by a summary of `summary_tokens` tokens.
pub open spec fn with_summary(
    h: HistoryView,
    summary: Seq<char>,
    keep: nat,
    counts: Seq<u64>,
    summary_tokens: u64,
) -> HistoryView {
    let low = leading_systems(h.messages) as int;
    let high = tail_start(h.messages, keep);
    if high <= low {
        h
    } else {
        HistoryView {
            messages: h.messages.take(low).push(summary_message(summary)) + h.messages.skip(high),
            current_tokens: (less_counts(h.current_tokens as nat, counts, low, high)
                + summary_tokens) as u64,
            ..h
        }
    }
}

/// The next user message stands no earlier than the search begins.
pub proof fn lemma_next_user(ms: Seq<message::MessageView>, i: int)
    ensures
        i <= ms.len() ==> i <= next_user(ms, i) <= ms.len(),
    decreases ms.len() - i,
{
    if i < ms.len() && ms[i].role != MessageRole::User {
        lemma_next_user(ms, i + 1);
    }
}

impl HistoryManager {
    /// An empty history with the budget `max_tokens`.
    pub fn new(max_tokens: u64) -> (r: HistoryManager)
        ensures
            r@ == (HistoryView {
                messages: Seq::empty(),
                max_tokens,
                current_tokens: 0,
                protocol_type: ProtocolType::OpenAI,
                model_name: None,
            }),
    {
        let r: HistoryManager = HistoryManager {
            messages: Vec::new(),
            max_tokens,
            current_tokens: 0,
            protocol_type: ProtocolType::OpenAI,
            model_name: None,
        };
        proof {
            assert(r@.messages =~= Seq::empty());
        }
        r
    }

    /// Sets the protocol for which images are counted.
    pub fn set_protocol_type(&mut self, pt: ProtocolType)
        ensures
            final(self)@ == (HistoryView { protocol_type: pt, ..old(self)@ }),
    {
        self.protocol_type = pt;
    }

    /// Sets the model whose tokens are counted.
    pub fn set_model_name(&mut self, model: String)
        ensures
            final(self)@ == (HistoryView { model_name: Some(model@), ..old(self)@ }),
    {
        self.model_name = Some(model);
    }

    /// Sets the token budget.
    pub fn set_max_tokens(&mut self, max_tokens: u64)
        ensures
            final(self)@ == (HistoryView { max_tokens, ..old(self)@ }),
    {
        self.max_tokens = max_tokens;
    }

    /// The model whose tokens are counted, or an empty name where none is set.
    pub fn model_for_counting(&self) -> (r: String)
        ensures
            r@ == (match self@.model_name {
                Some(m) => m,
                None => Seq::empty(),
            }),
    {
        match &self.model_name {
            Some(m) => m.clone(),
            None => String::new(),
        }
    }

    /// The protocol for which images are counted.
    pub fn protocol_type(&self) -> (r: &ProtocolType)
        ensures
            *r == self@.protocol_type,
    {
        &self.protocol_type
    }

    /// The messages.
    pub fn messages(&self) -> (r: &Vec<ChatMessage>)
        ensures
            message::message_views(r@) == self@.messages,
    {
        &self.messages
    }

    /// The messages, to be changed. The token count stays as it is.
    pub fn messages_mut(&mut self) -> (r: &mut Vec<ChatMessage>)
        ensures
            message::message_views(r@) == old(self)@.messages,
            final(self)@ == (HistoryView {
                messages: message::message_views(final(r)@),
                ..old(self)@
            }),
    {
        &mut self.messages
    }

    /// The number of tokens that the conversation is taken to have.
    pub fn token_count(&self) -> (r: u64)
        ensures
            r == self@.current_tokens,
    {
        self.current_tokens
    }

    /// The number of tokens that the conversation is taken to have.
    pub fn estimate_total_tokens(&self) -> (r: u64)
        ensures
            r == self@.current_tokens,
    {
        self.current_tokens
    }

    /// The number of messages.
    pub fn len(&self) -> (r: usize)
        ensures
            r == self@.messages.len(),
    {
        self.messages.len()
    }

    /// Whether there are no messages.
    pub fn is_empty(&self) -> (r: bool)
        ensures
            r == (self@.messages.len() == 0),
    {
        self.messages.len() == 0
    }

    /// Takes over the token count that a model reported for a request of
    /// `total_input_chars` characters. A count of zero is not reliable, and is
    /// passed over. Returns whether the ratio of characters to tokens is to be
    /// learnt from it: both numbers exceed 500 and the model is known.
    pub fn calibrate_from_usage(&mut self, prompt_tokens: u64, total_input_chars: usize) -> (r:
        bool)
        ensures
            final(self)@ == (if prompt_tokens == 0 {
                old(self)@
            } else {
                HistoryView { current_tokens: prompt_tokens, ..old(self)@ }
            }),
            r == (prompt_tokens > 500 && total_input_chars > 500 && old(self)@.model_name is Some),
    {
        if prompt_tokens == 0 {
            return false;
        }
        self.current_tokens = prompt_tokens;
        total_input_chars > 500 && prompt_tokens > 500 && self.model_name.is_some()
    }

    /// Appends a message that takes `tokens` tokens.
    pub fn append(&mut self, message: ChatMessage, tokens: u64)
        requires
            old(self)@.current_tokens + tokens <= u64::MAX,
        ensures
            final(self)@ == (HistoryView {
                messages: old(self)@.messages.push(message@),
                current_tokens: (old(self)@.current_tokens + tokens) as u64,
                ..old(self)@
            }),
    {
        self.current_tokens = self.current_tokens + tokens;
        let ghost before: Seq<ChatMessage> = self.messages@;
        self.messages.push(message);
        proof {
            assert(message::message_views(before.push(message)) =~= message::message_views(
                before,
            ).push(message@));
        }
    }

    /// Appends messages, of which each takes the tokens that `counts` gives.
    pub fn extend(&mut self, messages: Vec<ChatMessage>, counts: &Vec<u64>)
        requires
            messages@.len() == counts@.len(),
            old(self)@.current_tokens + total(counts@) <= u64::MAX,
        ensures
            final(self)@ == (HistoryView {
                messages: old(self)@.messages + message::message_views(messages@),
                current_tokens: (old(self)@.current_tokens + total(counts@)) as u64,
                ..old(self)@
            }),
    {
        let s: u64 = sum(counts);
        self.current_tokens = self.current_tokens + s;
        let mut more: Vec<ChatMessage> = messages;
        let ghost before: Seq<ChatMessage> = self.messages@;
        self.messages.append(&mut more);
        proof {
            assert(message::message_views(before + messages@) =~= message::message_views(before)
                + message::message_views(messages@));
        }
    }

    /// Replaces the messages by those of a resumed session, and recounts.
    pub fn load_restored(&mut self, messages: Vec<ChatMessage>, counts: &Vec<u64>)
        requires
            messages@.len() == counts@.len(),
            total(counts@) <= u64::MAX,
        ensures
            final(self)@ == (HistoryView {
                messages: message::message_views(messages@),
                current_tokens: total(counts@) as u64,
                ..old(self)@
            }),
    {
        self.current_tokens = sum(counts);
        self.messages = messages;
    }

    /// Removes all messages.
    pub fn clear(&mut self)
        ensures
            final(self)@ == (HistoryView {
                messages: Seq::empty(),
                current_tokens: 0,
                ..old(self)@
            }),
    {
        self.messages.clear();
        self.current_tokens = 0;
        proof {
            assert(message::message_views(self.messages@) =~= Seq::empty());
        }
    }

    /// Keeps the first `target_len` messages and recounts their tokens. A
    /// history that is not longer stays as it is.
    pub fn truncate_to(&mut self, target_len: usize, counts: &Vec<u64>)
        requires
            counts@.len() == old(self)@.messages.len(),
            total(counts@) <= u64::MAX,
        ensures
            final(self)@ == (if target_len >= old(self)@.messages.len() {
                old(self)@
            } else {
                HistoryView {
                    messages: old(self)@.messages.take(target_len as int),
                    current_tokens: total(counts@.take(target_len as int)) as u64,
                    ..old(self)@
                }
            }),
    {
        if target_len >= self.messages.len() {
            return;
        }
        let ghost before: Seq<ChatMessage> = self.messages@;
        self.messages.truncate(target_len);
        let mut s: u64 = 0;
        let mut i: usize = 0;
        while i < target_len
            invariant
                i <= target_len < counts@.len(),
                total(counts@) <= u64::MAX,
                s == total(counts@.take(i as int)),
            decreases target_len - i,
        {
            proof {
                lemma_total_take(counts@, i as int);
            }
            s = s + counts[i];
            i = i + 1;
        }
        self.current_tokens = s;
        proof {
            assert(message::message_views(self.messages@) =~= message::message_views(before).take(
                target_len as int,
            ));
        }
    }

    /// Removes the oldest messages while the history is over its budget, but
    /// no system message and not the last message. Returns how many it removed.
    pub fn trim_fifo(&mut self, counts: &Vec<u64>) -> (r: usize)
        requires
            counts@.len() == old(self)@.messages.len(),
        ensures
            ({
                let ms = old(self)@.messages;
                let t = fifo(
                    ms,
                    counts@,
                    old(self)@.current_tokens as nat,
                    old(self)@.max_tokens as nat,
                    ms.len() as int,
                );
                &&& final(self)@ == (HistoryView {
                    messages: t.kept,
                    current_tokens: t.tokens as u64,
                    ..old(self)@
                })
                &&& r == t.removed
            }),
    {
        let ghost all: Seq<ChatMessage> = self.messages@;
        let ghost ms: Seq<message::MessageView> = message::message_views(all);
        let ghost tokens: nat = self.current_tokens as nat;
        let ghost max: nat = self.max_tokens as nat;
        let n: usize = self.messages.len();
        let mut keep: Vec<bool> = Vec::new();
        let mut left: u64 = self.current_tokens;
        let mut removed: usize = 0;
        let mut i: usize = 0;
        proof {
            assert(message::message_views(list::picked(all.take(0), keep@)) =~= Seq::empty());
        }
        while i < n
            invariant
                self.messages@ == all,
                self@ == old(self)@,
                ms == message::message_views(all),
                ms == old(self)@.messages,
                max == self.max_tokens,
                tokens == old(self)@.current_tokens,
                counts@.len() == n == all.len(),
                i <= n,
                keep@.len() == i,
                removed <= i,
                left == fifo(ms, counts@, tokens, max, i as int).tokens,
                removed == fifo(ms, counts@, tokens, max, i as int).removed,
                message::message_views(list::picked(all.take(i as int), keep@)) == fifo(
                    ms,
                    counts@,
                    tokens,
                    max,
                    i as int,
                ).kept,
            decreases n - i,
        {
            let drop_it: bool = left > self.max_tokens && i + 1 < n && self.messages[i].role
                != MessageRole::System;
            let ghost before: Seq<bool> = keep@;
            if drop_it {
                left = left.saturating_sub(counts[i]);
                removed = removed + 1;
            }
            keep.push(!drop_it);
            proof {
                lemma_picked_step(all, before, !drop_it, i as int);
            }
            i = i + 1;
        }
        proof {
            assert(all.take(n as int) =~= all);
        }
        list::retain(&mut self.messages, &keep);
        self.current_tokens = left;
        removed
    }

    /// Removes the oldest messages until four are left that are neither system
    /// messages nor compaction summaries. Returns how many it removed.
    pub fn emergency_trim(&mut self, counts: &Vec<u64>) -> (r: usize)
        requires
            counts@.len() == old(self)@.messages.len(),
        ensures
            ({
                let ms = old(self)@.messages;
                let quota = monus(removable_count(ms, ms.len() as int), EMERGENCY_KEEP as nat);
                let t = emergency(
                    ms,
                    counts@,
                    old(self)@.current_tokens as nat,
                    quota,
                    ms.len() as int,
                );
                &&& final(self)@ == (HistoryView {
                    messages: t.kept,
                    current_tokens: t.tokens as u64,
                    ..old(self)@
                })
                &&& r == t.removed
                &&& r == quota
            }),
    {
        let ghost all: Seq<ChatMessage> = self.messages@;
        let ghost ms: Seq<message::MessageView> = message::message_views(all);
        let ghost tokens: nat = self.current_tokens as nat;
        let n: usize = self.messages.len();
        let mut may: Vec<bool> = Vec::new();
        let mut count: usize = 0;
        let mut j: usize = 0;
        while j < n
            invariant
                self.messages@ == all,
                n == all.len(),
                ms == message::message_views(all),
                j <= n,
                may@.len() == j,
                count <= j,
                count == removable_count(ms, j as int),
                forall|k: int| 0 <= k < j ==> may@[k] == removable(#[trigger] ms[k]),
            decreases n - j,
        {
            let b: bool = self.messages[j].role != MessageRole::System && !message::opt_is(
                &self.messages[j].name,
                COMPACTION_SUMMARY,
            );
            proof {
                assert(b == removable(ms[j as int]));
            }
            may.push(b);
            if b {
                count = count + 1;
            }
            j = j + 1;
        }
        let quota: usize = if count > EMERGENCY_KEEP { count - EMERGENCY_KEEP } else { 0 };
        let mut keep: Vec<bool> = Vec::new();
        let mut left: u64 = self.current_tokens;
        let mut removed: usize = 0;
        let mut i: usize = 0;
        proof {
            assert(message::message_views(list::picked(all.take(0), keep@)) =~= Seq::empty());
        }
        while i < n
            invariant
                self.messages@ == all,
                self@ == old(self)@,
                ms == message::message_views(all),
                tokens == old(self)@.current_tokens,
                counts@.len() == n == all.len(),
                may@.len() == n,
                forall|k: int| 0 <= k < n ==> may@[k] == removable(#[trigger] ms[k]),
                i <= n,
                keep@.len() == i,
                removed <= i,
                removed <= quota,
                removed == quota || removed == removable_count(ms, i as int),
                left == emergency(ms, counts@, tokens, quota as nat, i as int).tokens,
                removed == emergency(ms, counts@, tokens, quota as nat, i as int).removed,
                message::message_views(list::picked(all.take(i as int), keep@)) == emergency(
                    ms,
                    counts@,
                    tokens,
                    quota as nat,
                    i as int,
                ).kept,
            decreases n - i,
        {
            proof {
                assert(may@[i as int] == removable(ms[i as int]));
            }
            let drop_it: bool = removed < quota && may[i];
            let ghost before: Seq<bool> = keep@;
            if drop_it {
                left = left.saturating_sub(counts[i]);
                removed = removed + 1;
            }
            keep.push(!drop_it);
            proof {
                lemma_picked_step(all, before, !drop_it, i as int);
            }
            i = i + 1;
        }
        proof {
            assert(all.take(n as int) =~= all);
        }
        list::retain(&mut self.messages, &keep);
        self.current_tokens = left;
        removed
    }

    /// Cleans a message history, see `sanitize::sanitized`.
    pub fn sanitize_messages(messages: &mut Vec<ChatMessage>)
        ensures
            message::message_views(final(messages)@) == sanitize::sanitized(
                message::message_views(old(messages)@),
            ),
    {
        sanitize::sanitize(messages);
    }

    /// The index of the last compaction summary.
    pub fn last_compaction_index(&self) -> (r: Option<usize>)
        ensures
            match r {
                Some(i) => last_marker(self@.messages, self@.messages.len() as int) == Some(
                    i as int,
                ),
                None => last_marker(self@.messages, self@.messages.len() as int) is None,
            },
    {
        let mut i: usize = self.messages.len();
        while i > 0
            invariant
                i <= self.messages@.len(),
                last_marker(self@.messages, self@.messages.len() as int) == last_marker(
                    self@.messages,
                    i as int,
                ),
            decreases i,
        {
            let m: &ChatMessage = &self.messages[i - 1];
            if m.role == MessageRole::Assistant && message::opt_is(&m.name, COMPACTION_SUMMARY) {
                return Some(i - 1);
            }
            i = i - 1;
        }
        None
    }

    /// The number of system messages at the head of the history.
    fn head_len(&self) -> (r: usize)
        ensures
            r == leading_systems(self@.messages),
            r <= self@.messages.len(),
    {
        let ghost ms: Seq<message::MessageView> = self@.messages;
        let mut i: usize = 0;
        proof {
            assert(ms.skip(0) =~= ms);
        }
        while i < self.messages.len() && self.messages[i].role == MessageRole::System
            invariant
                ms == message::message_views(self.messages@),
                i <= ms.len(),
                leading_systems(ms) == i + leading_systems(ms.skip(i as int)),
            decreases ms.len() - i,
        {
            proof {
                assert(ms.skip(i as int).drop_first() =~= ms.skip(i + 1));
            }
            i = i + 1;
        }
        i
    }

    /// Whether the message at `i` is a compaction summary.
    fn marker_at(&self, i: usize) -> (r: bool)
        requires
            i < self@.messages.len(),
        ensures
            r == is_marker(self@.messages[i as int]),
    {
        self.messages[i].role == MessageRole::Assistant && message::opt_is(
            &self.messages[i].name,
            COMPACTION_SUMMARY,
        )
    }

    /// Drops the oldest whole rounds until the history is at or below four
    /// fifths of its budget. A round ends before the next user message. The
    /// leading system messages, compaction summaries and the last round stay.
    /// Returns how many messages it dropped.
    pub fn fit_to_budget_lossless(&mut self, counts: &Vec<u64>) -> (r: usize)
        requires
            counts@.len() == old(self)@.messages.len(),
            total(counts@) <= u64::MAX,
        ensures
            final(self)@ == lossless(old(self)@, counts@),
            r == old(self)@.messages.len() - final(self)@.messages.len(),
    {
        if self.max_tokens == 0 {
            return 0;
        }
        let target: u64 = (self.max_tokens as u128 * 4 / 5) as u64;
        if self.current_tokens <= target {
            return 0;
        }
        let ghost all: Seq<ChatMessage> = self.messages@;
        let ghost ms: Seq<message::MessageView> = self@.messages;
        let n: usize = self.messages.len();
        let head: usize = self.head_len();
        let start: usize = if head < n && self.marker_at(head) { head + 1 } else { head };
        let mut end: usize = start;
        let mut left: u64 = self.current_tokens;
        while left > target && end < n
            invariant_except_break
                lossless_cut(ms, counts@, self.current_tokens as nat, target as nat, start as int)
                    == lossless_cut(ms, counts@, left as nat, target as nat, end as int),
            invariant
                self@ == old(self)@,
                ms == self@.messages,
                n == ms.len(),
                counts@.len() == n,
                total(counts@) <= u64::MAX,
                start <= end <= n,
            ensures
                (end as int, left as nat) == lossless_cut(
                    ms,
                    counts@,
                    self.current_tokens as nat,
                    target as nat,
                    start as int,
                ),
            decreases n - end,
        {
            let mut stop: usize = end + 1;
            let mut gone: u64 = if self.marker_at(end) { 0 } else { counts[end] };
            proof {
                reveal_with_fuel(round_tokens, 2);
                lemma_total_take(counts@, end as int);
            }
            while stop < n && self.messages[stop].role != MessageRole::User
                invariant
                    self@ == old(self)@,
                    ms == self@.messages,
                    ms == message::message_views(self.messages@),
                    n == ms.len(),
                    counts@.len() == n,
                    total(counts@) <= u64::MAX,
                    end < stop <= n,
                    round_end(ms, end as int) == next_user(ms, stop as int),
                    gone == round_tokens(ms, counts@, end as int, stop as int),
                    gone <= total(counts@.take(stop as int)),
                decreases n - stop,
            {
                proof {
                    lemma_total_take(counts@, stop as int);
                }
                if !self.marker_at(stop) {
                    gone = gone + counts[stop];
                }
                stop = stop + 1;
            }
            if stop >= n {
                break;
            }
            left = left.saturating_sub(gone);
            end = stop;
        }
        let mut keep: Vec<bool> = Vec::new();
        let mut i: usize = 0;
        while i < n
            invariant
                self@ == old(self)@,
                ms == self@.messages,
                n == ms.len(),
                i <= n,
                keep@.len() == i,
                forall|k: int|
                    0 <= k < i ==> #[trigger] keep@[k] == (k < start || k >= end || is_marker(
                        ms[k],
                    )),
            decreases n - i,
        {
            keep.push(i < start || i >= end || self.marker_at(i));
            i = i + 1;
        }
        proof {
            lemma_keep_markers(all, keep@, start as int, end as int);
            list::lemma_picked_len(all, keep@);
        }
        list::retain(&mut self.messages, &keep);
        self.current_tokens = left;
        n - self.messages.len()
    }

    /// The message at `index` cut to `max_tokens_per_message` tokens of four
    /// bytes, or `None` where it need not be cut.
    pub fn shortened_message(&self, index: usize, max_tokens_per_message: u64) -> (r: Option<
        ChatMessage,
    >)
        requires
            index < self@.messages.len(),
            max_tokens_per_message * 4 <= usize::MAX,
        ensures
            match r {
                Some(m) => oversized(
                    self@.messages[index as int],
                    (max_tokens_per_message * 4) as nat,
                ) && m@ == shortened(
                    self@.messages[index as int],
                    (max_tokens_per_message * 4) as nat,
                ),
                None => !oversized(
                    self@.messages[index as int],
                    (max_tokens_per_message * 4) as nat,
                ),
            },
    {
        let max: usize = (max_tokens_per_message * 4) as usize;
        let msg: &ChatMessage = &self.messages[index];
        let len: usize = msg.content.as_str().as_bytes().len();
        if msg.role == MessageRole::System || len <= max {
            return None;
        }
        let mut end: usize = max;
        proof {
            encode_utf8_valid_utf8(msg.content@);
        }
        while end > 0 && !msg.content.as_str().is_char_boundary(end)
            invariant
                end <= max,
                boundary_at_or_before(encode_utf8(msg.content@), max as int)
                    == boundary_at_or_before(encode_utf8(msg.content@), end as int),
            decreases end,
        {
            end = end - 1;
        }
        proof {
            is_char_boundary_start_end_of_seq(encode_utf8(msg.content@));
        }
        let head: &str = msg.content.as_str().split_at(end).0;
        proof {
            encode_utf8_decode_utf8(head@);
            assert(encode_utf8(msg.content@).subrange(0, end as int) =~= encode_utf8(
                msg.content@,
            ).take(end as int));
        }
        let mut content: String = head.to_string();
        let ghost cut: Seq<char> = content@;
        content.append("\n\n[...truncated: original ");
        content.append(text::decimal_text(len as u64).as_str());
        content.append(" chars, showing first ");
        content.append(text::decimal_text(max as u64).as_str());
        content.append(" chars]");
        proof {
            assert(content@ =~= cut + truncation_notice(len as nat, max as nat));
        }
        let mut m: ChatMessage = msg.clone();
        m.content = content;
        Some(m)
    }

    /// Cuts each message whose content is longer than `max_tokens_per_message`
    /// tokens of four bytes, at the end of a character, and adds a note. `old_counts` and `new_counts`
    /// give the tokens of each message before and after. Returns how many
    /// messages it cut.
    pub fn truncate_large_messages(
        &mut self,
        max_tokens_per_message: u64,
        old_counts: &Vec<u64>,
        new_counts: &Vec<u64>,
    ) -> (r: usize)
        requires
            old_counts@.len() == old(self)@.messages.len(),
            new_counts@.len() == old(self)@.messages.len(),
            max_tokens_per_message * 4 <= usize::MAX,
        ensures
            ({
                let ms = old(self)@.messages;
                let max = (max_tokens_per_message * 4) as nat;
                &&& final(self)@ == (HistoryView {
                    messages: shortened_all(ms, max),
                    current_tokens: shortened_tokens(
                        ms,
                        max,
                        old_counts@,
                        new_counts@,
                        old(self)@.current_tokens as nat,
                        ms.len() as int,
                    ) as u64,
                    ..old(self)@
                })
                &&& r == oversized_count(ms, max, ms.len() as int)
            }),
    {
        let ghost ms: Seq<message::MessageView> = self@.messages;
        let ghost max: nat = (max_tokens_per_message * 4) as nat;
        let ghost goal: Seq<message::MessageView> = shortened_all(ms, max);
        let ghost tokens: nat = self.current_tokens as nat;
        let n: usize = self.messages.len();
        let mut truncated: usize = 0;
        let mut i: usize = 0;
        proof {
            assert(goal.take(0) + ms.skip(0) =~= ms);
        }
        while i < n
            invariant
                i <= n,
                n == ms.len(),
                ms == old(self)@.messages,
                self@.messages.len() == n,
                max == max_tokens_per_message * 4,
                max_tokens_per_message * 4 <= usize::MAX,
                old_counts@.len() == n,
                new_counts@.len() == n,
                goal == shortened_all(ms, max),
                truncated <= i,
                truncated == oversized_count(ms, max, i as int),
                self@ == (HistoryView {
                    messages: goal.take(i as int) + ms.skip(i as int),
                    current_tokens: self.current_tokens,
                    ..old(self)@
                }),
                self.current_tokens == shortened_tokens(
                    ms,
                    max,
                    old_counts@,
                    new_counts@,
                    tokens,
                    i as int,
                ),
            decreases n - i,
        {
            proof {
                assert(self@.messages[i as int] == ms[i as int]);
            }
            let ghost before: Seq<ChatMessage> = self.messages@;
            if let Some(m) = self.shortened_message(i, max_tokens_per_message) {
                self.messages.set(i, m);
                self.current_tokens = self.current_tokens.saturating_sub(
                    old_counts[i],
                ).saturating_add(new_counts[i]);
                truncated = truncated + 1;
            }
            proof {
                assert forall|k: int| 0 <= k < n implies #[trigger] self@.messages[k] == (
                goal.take(i + 1) + ms.skip(i + 1))[k] by {
                    if k != i {
                        assert(self.messages@[k] == before[k]);
                        assert(message::message_views(before)[k] == (goal.take(i as int) + ms.skip(
                            i as int,
                        ))[k]);
                    }
                }
                assert(self@.messages =~= goal.take(i + 1) + ms.skip(i + 1));
            }
            i = i + 1;
        }
        proof {
            assert(goal.take(n as int) + ms.skip(n as int) =~= goal);
        }
        truncated
    }

    /// Where the last `keep` rounds begin, see `rounds_from_end`.
    fn rounds_start(&self, keep: usize) -> (r: Option<usize>)
        ensures
            match r {
                Some(i) => rounds_from_end(
                    self@.messages,
                    keep as nat,
                    self@.messages.len() as int,
                ) == Some(i as int) && i <= self@.messages.len(),
                None => rounds_from_end(
                    self@.messages,
                    keep as nat,
                    self@.messages.len() as int,
                ) is None,
            },
    {
        let mut left: usize = keep;
        let mut i: usize = self.messages.len();
        while left > 0 && i > 0
            invariant
                i <= self@.messages.len(),
                self@.messages == message::message_views(self.messages@),
                rounds_from_end(self@.messages, keep as nat, self@.messages.len() as int)
                    == rounds_from_end(self@.messages, left as nat, i as int),
            decreases i,
        {
            let role: MessageRole = self.messages[i - 1].role;
            if role == MessageRole::User || role == MessageRole::Tool {
                left = left - 1;
            }
            i = i - 1;
        }
        if left == 0 {
            Some(i)
        } else {
            None
        }
    }

    /// Whether the message at `j` carries a call that a message from `from` on
    /// answers.
    fn asks_for_tail(&self, j: usize, from: usize) -> (r: bool)
        requires
            j < self@.messages.len(),
            from <= self@.messages.len(),
        ensures
            r == asks_for(self@.messages[j as int], self@.messages.skip(from as int)),
    {
        let ghost ms: Seq<message::MessageView> = self@.messages;
        let ghost tail: Seq<message::MessageView> = ms.skip(from as int);
        let ghost m: message::MessageView = ms[j as int];
        let role: MessageRole = self.messages[j].role;
        if role != MessageRole::Assistant && role != MessageRole::Tool {
            return false;
        }
        if let Some(calls) = &self.messages[j].tool_calls {
            proof {
                assert(m.tool_calls->0 =~= message::call_views(calls@));
            }
            let mut c: usize = 0;
            while c < calls.len()
                invariant
                    ms == self@.messages,
                    ms == message::message_views(self.messages@),
                    from <= ms.len(),
                    tail == ms.skip(from as int),
                    m.tool_calls == Some(message::call_views(calls@)),
                    m.role == MessageRole::Assistant || m.role == MessageRole::Tool,
                    m == ms[j as int],
                    c <= calls@.len(),
                    forall|k: int|
                        0 <= k < c ==> !sanitize::answered(tail, (#[trigger] calls@[k]).id@),
                decreases calls@.len() - c,
            {
                let ghost id: Seq<char> = calls@[c as int].id@;
                let mut i: usize = from;
                while i < self.messages.len()
                    invariant
                        ms == message::message_views(self.messages@),
                        from <= i <= ms.len(),
                        tail == ms.skip(from as int),
                        c < calls@.len(),
                        id == calls@[c as int].id@,
                        m.tool_calls == Some(message::call_views(calls@)),
                        m.role == MessageRole::Assistant || m.role == MessageRole::Tool,
                        m == ms[j as int],
                        ms == self@.messages,
                        forall|k: int|
                            0 <= k < i - from ==> !sanitize::answers(#[trigger] tail[k], id),
                    decreases ms.len() - i,
                {
                    if self.messages[i].role == MessageRole::Tool && message::opt_is(
                        &self.messages[i].tool_call_id,
                        calls[c].id.as_str(),
                    ) {
                        proof {
                            assert(sanitize::answers(tail[i - from], id));
                            assert(m.tool_calls->0[c as int].id == id);
                            assert(sanitize::asks(m, id));
                        }
                        return true;
                    }
                    proof {
                        assert(!sanitize::answers(tail[i - from], id));
                    }
                    i = i + 1;
                }
                c = c + 1;
            }
            proof {
                assert forall|id: Seq<char>|
                    #![trigger sanitize::asks(m, id)]
                    sanitize::asks(m, id) implies !sanitize::answered(tail, id) by {
                    let k = choose|k: int|
                        0 <= k < m.tool_calls->0.len() && (#[trigger] m.tool_calls->0[k]).id == id;
                    assert(calls@[k].id@ == id);
                }
            }
        }
        false
    }

    /// Replaces the messages between the leading system messages and the last
    /// `keep_last_rounds` rounds by a compaction summary that takes
    /// `summary_tokens` tokens. The tail that is kept also holds the calls that
    /// its tool results answer. Returns how many messages were replaced.
    pub fn replace_middle_with_summary(
        &mut self,
        summary: &str,
        keep_last_rounds: usize,
        counts: &Vec<u64>,
        summary_tokens: u64,
    ) -> (r: usize)
        requires
            counts@.len() == old(self)@.messages.len(),
            old(self)@.current_tokens + summary_tokens <= u64::MAX,
        ensures
            final(self)@ == with_summary(
                old(self)@,
                summary@,
                keep_last_rounds as nat,
                counts@,
                summary_tokens,
            ),
            ({
                let low = leading_systems(old(self)@.messages);
                let high = tail_start(old(self)@.messages, keep_last_rounds as nat);
                r == (if high > low {
                    high - low
                } else {
                    0
                })
            }),
    {
        let ghost all: Seq<ChatMessage> = self.messages@;
        let ghost ms: Seq<message::MessageView> = self@.messages;
        let low: usize = self.head_len();
        let n: usize = self.messages.len();
        let high: usize = match self.rounds_start(keep_last_rounds) {
            None => low,
            Some(start) => {
                let ghost tail: Seq<message::MessageView> = ms.skip(start as int);
                let mut high: usize = start;
                let mut j: usize = start;
                while j > low && self.messages[j - 1].role != MessageRole::User
                    invariant
                        self@ == old(self)@,
                        ms == self@.messages,
                        ms == message::message_views(self.messages@),
                        n == ms.len(),
                        low <= n,
                        j <= start <= n,
                        tail == ms.skip(start as int),
                        high <= n,
                        extended_back(ms, tail, low as int, start - 1, start as int)
                            == extended_back(ms, tail, low as int, j - 1, high as int),
                    decreases j,
                {
                    if self.asks_for_tail(j - 1, start) {
                        high = j - 1;
                    }
                    j = j - 1;
                }
                high
            },
        };
        if high <= low {
            return 0;
        }
        let mut left: u64 = self.current_tokens;
        let mut i: usize = low;
        while i < high
            invariant
                low <= i <= high <= n,
                counts@.len() == n,
                left <= self.current_tokens,
                left == less_counts(self.current_tokens as nat, counts@, low as int, i as int),
            decreases high - i,
        {
            left = left.saturating_sub(counts[i]);
            i = i + 1;
        }
        let mut tail: Vec<ChatMessage> = self.messages.split_off(high);
        self.messages.truncate(low);
        let mut m: ChatMessage = ChatMessage::assistant(summary.to_string());
        m.name = Some(COMPACTION_SUMMARY.to_string());
        self.messages.push(m);
        self.messages.append(&mut tail);
        self.current_tokens = left + summary_tokens;
        proof {
            assert(m@ == summary_message(summary@));
            assert(self@.messages =~= ms.take(low as int).push(summary_message(summary@))
                + ms.skip(high as int));
        }
        high - low
    }
}

/// Keeping all but the messages from `start` up to `end`, and of those the
/// compaction summaries.
proof fn lemma_keep_markers(all: Seq<ChatMessage>, keep: Seq<bool>, start: int, end: int)
    requires
        0 <= start <= end <= all.len(),
        keep.len() == all.len(),
        forall|k: int|
            0 <= k < keep.len() ==> #[trigger] keep[k] == (k < start || k >= end || is_marker(
                all[k]@,
            )),
    ensures
        message::message_views(list::picked(all, keep)) == message::message_views(all).take(start)
            + markers(message::message_views(all).subrange(start, end)) + message::message_views(
            all,
        ).skip(end),
{
    let ms = message::message_views(all);
    let (a, b, c) = (all.take(start), all.subrange(start, end), all.skip(end));
    let (ka, kb, kc) = (keep.take(start), keep.subrange(start, end), keep.skip(end));
    assert(all =~= a + b + c);
    assert(keep =~= ka + kb + kc);
    list::lemma_picked_concat(a + b, c, ka + kb, kc);
    list::lemma_picked_concat(a, b, ka, kb);
    list::lemma_picked_all(a, ka);
    list::lemma_picked_all(c, kc);
    list::lemma_picked_is_filter(b, kb, |m: ChatMessage| m@, |m: message::MessageView| is_marker(m));
    assert(b.map_values(|m: ChatMessage| m@) =~= ms.subrange(start, end));
    let p = list::picked(b, kb);
    assert(message::message_views(a + p + c) =~= message::message_views(a)
        + message::message_views(p) + message::message_views(c));
    assert(message::message_views(a) =~= ms.take(start));
    assert(message::message_views(c) =~= ms.skip(end));
}

proof fn lemma_picked_step(all: Seq<ChatMessage>, keep: Seq<bool>, b: bool, i: int)
    requires
        0 <= i < all.len(),
        keep.len() == i,
    ensures
        message::message_views(list::picked(all.take(i + 1), keep.push(b))) == (if b {
            message::message_views(list::picked(all.take(i), keep)).push(all[i]@)
        } else {
            message::message_views(list::picked(all.take(i), keep))
        }),
{
    assert(all.take(i + 1).drop_last() =~= all.take(i));
    assert(keep.push(b).drop_last() =~= keep);
    let p = list::picked(all.take(i), keep);
    assert(message::message_views(p.push(all[i])) =~= message::message_views(p).push(all[i]@));
}

} // verus!
