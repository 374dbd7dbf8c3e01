//! Retries and fallbacks of model providers.

use crate::agent::session_state::{RetryPauseInfo, SessionStatus};
use crate::agent::session_state;
use crate::text;
use std::time::Duration;
use vstd::prelude::*;

verus! {

/// The wait from which on a pause is shown, with the choice to skip it.
pub const UX_WAIT_THRESHOLD_MS: u64 = 10_000;

/// A retry that is being waited for.
#[derive(Debug, PartialEq, Eq)]
pub struct RetryWaitState {
    pub wait_ms: u64,
    /// Counted from one.
    pub attempt: u32,
    pub max_attempts: u32,
    pub provider_name: String,
}

/// How the wait grows from attempt to attempt.
#[derive(Clone, Copy, Debug, PartialEq, Eq, Structural)]
pub enum BackoffStrategy {
    Fixed { delay_ms: u64 },
    Exponential { base_ms: u64 },
}

/// How often a provider is asked, and how long is waited in between.
#[derive(Clone, Copy, Debug, PartialEq, Eq, Structural)]
pub struct RetryConfig {
    pub max_attempts: u32,
    pub backoff: BackoffStrategy,
    pub max_wait_ms: u64,
}

impl Default for RetryConfig {
    fn default() -> (r: Self)
        ensures
            r == (RetryConfig {
                max_attempts: 3,
                backoff: BackoffStrategy::Exponential { base_ms: 1000 },
                max_wait_ms: 10000,
            }),
    {
        RetryConfig {
            max_attempts: 3,
            backoff: BackoffStrategy::Exponential { base_ms: 1000 },
            max_wait_ms: 10000,
        }
    }
}

/// Two to the power of `n`, or the greatest 64-bit number where that is less.
pub open spec fn saturating_power(n: nat) -> nat
    decreases n,
{
    if n == 0 {
        1
    } else if 2 * saturating_power((n - 1) as nat) > u64::MAX {
        u64::MAX as nat
    } else {
        2 * saturating_power((n - 1) as nat)
    }
}

impl BackoffStrategy {
    /// The wait before the attempt after `attempt`, in milliseconds.
    pub open spec fn wait_millis(self, attempt: u32) -> nat {
        match self {
            BackoffStrategy::Fixed { delay_ms } => delay_ms as nat,
            BackoffStrategy::Exponential { base_ms } => base_ms as nat * saturating_power(
                attempt as nat,
            ),
        }
    }
}

/// The duration of so many milliseconds, as `Duration::from_millis` gives it.
pub uninterp spec fn duration_of_millis(millis: u64) -> Duration;

/// `Duration::from_millis` depends on its argument alone.
pub assume_specification[ Duration::from_millis ](millis: u64) -> (r: Duration)
    ensures
        r == duration_of_millis(millis),
;

proof fn lemma_power_stays(n: nat, m: nat)
    requires
        n <= m,
        saturating_power(n) == u64::MAX,
    ensures
        saturating_power(m) == u64::MAX,
    decreases m,
{
    if n < m {
        lemma_power_stays(n, (m - 1) as nat);
    }
}

fn power(n: u32) -> (r: u64)
    ensures
        r == saturating_power(n as nat),
{
    let mut p: u64 = 1;
    let mut i: u32 = 0;
    while i < n
        invariant
            i <= n,
            p == saturating_power(i as nat),
        decreases n - i,
    {
        match p.checked_mul(2) {
            Some(q) => {
                p = q;
            },
            None => {
                proof {
                    lemma_power_stays((i + 1) as nat, n as nat);
                }
                return u64::MAX;
            },
        }
        i = i + 1;
    }
    p
}

impl BackoffStrategy {
    /// The wait before the attempt after `attempt`, in milliseconds.
    pub fn wait_ms(&self, attempt: u32) -> (r: u64)
        requires
            self.wait_millis(attempt) <= u64::MAX,
        ensures
            r == self.wait_millis(attempt),
    {
        match self {
            BackoffStrategy::Fixed { delay_ms } => *delay_ms,
            BackoffStrategy::Exponential { base_ms } => {
                let p: u64 = power(attempt);
                *base_ms * p
            },
        }
    }

    /// The wait before the attempt after `attempt`.
    pub fn wait_duration(&self, attempt: u32) -> (r: Duration)
        requires
            self.wait_millis(attempt) <= u64::MAX,
        ensures
            r == duration_of_millis(self.wait_millis(attempt) as u64),
    {
        Duration::from_millis(self.wait_ms(attempt))
    }
}

/// The wait before a retry, before it is spread at random: what the server
/// asks for, or else the backoff, but no more than the configured limit.
pub open spec fn capped_wait(c: RetryConfig, attempt: u32, retry_after_ms: Option<u64>) -> nat {
    let base = match retry_after_ms {
        Some(ms) => ms as nat,
        None => c.backoff.wait_millis(attempt),
    };
    if base < c.max_wait_ms {
        base
    } else {
        c.max_wait_ms as nat
    }
}

impl RetryConfig {
    /// The wait before a retry, before it is spread at random, see `capped_wait`.
    pub fn base_wait(&self, attempt: u32, retry_after_ms: Option<u64>) -> (r: u64)
        requires
            retry_after_ms is None ==> self.backoff.wait_millis(attempt) <= u64::MAX,
        ensures
            r == capped_wait(*self, attempt, retry_after_ms),
            r <= self.max_wait_ms,
    {
        let base: u64 = match retry_after_ms {
            Some(ms) => ms,
            None => self.backoff.wait_ms(attempt),
        };
        if base < self.max_wait_ms {
            base
        } else {
            self.max_wait_ms
        }
    }
}

/// One, in the parts by which a wait is spread.
pub const PARTS: u64 = 1_000_000;

/// The smallest share of a wait that is waited.
pub const LEAST_PARTS: u64 = 750_000;

/// The largest share of a wait that is waited.
pub const MOST_PARTS: u64 = 1_250_000;

/// A random number from `low` to `high`: `rand::random_range`. Which number that
/// is, is left to chance.
#[verifier::external_body]
fn random_parts(low: u64, high: u64) -> (r: u64)
    requires
        low <= high,
    ensures
        low <= r <= high,
{
    rand::random_range(low..=high)
}

/// `wait_ms`, of which `parts` millionths are waited.
pub open spec fn spread(wait_ms: u64, parts: u64) -> u64 {
    let ms: int = wait_ms * parts / PARTS as int;
    if ms > u64::MAX {
        u64::MAX
    } else {
        ms as u64
    }
}

/// `wait_ms`, of which `parts` millionths are waited.
pub fn spread_wait(wait_ms: u64, parts: u64) -> (r: u64)
    ensures
        r == spread(wait_ms, parts),
{
    proof {
        assert(wait_ms * parts <= u64::MAX * u64::MAX) by (nonlinear_arith)
            requires
                0 <= wait_ms <= u64::MAX,
                0 <= parts <= u64::MAX,
        ;
    }
    let ms: u128 = (wait_ms as u128) * (parts as u128) / (PARTS as u128);
    if ms > u64::MAX as u128 {
        u64::MAX
    } else {
        ms as u64
    }
}

/// A wait spread at random, by a quarter of it at most to either side, so that
/// not all who wait try again at once.
pub fn jittered(wait_ms: u64) -> (r: u64)
    ensures
        exists|parts: u64| LEAST_PARTS <= parts <= MOST_PARTS && r == #[trigger] spread(wait_ms, parts),
        4 * r <= 5 * wait_ms,
        r < u64::MAX ==> 4 * (r + 1) > 3 * wait_ms,
{
    let parts: u64 = random_parts(LEAST_PARTS, MOST_PARTS);
    let r: u64 = spread_wait(wait_ms, parts);
    proof {
        let ms = wait_ms * parts / PARTS as int;
        assert(4 * ms <= 5 * wait_ms && 4 * (ms + 1) > 3 * wait_ms) by (nonlinear_arith)
            requires
                ms == wait_ms * parts / 1_000_000,
                750_000 <= parts <= 1_250_000,
                wait_ms >= 0,
        ;
    }
    r
}

/// Whether a wait is shown: it is long enough, and all that showing it needs is
/// there.
pub fn shows_wait(wait_ms: u64, has_handle: bool, has_status: bool, has_sender: bool) -> (r: bool)
    ensures
        r == (wait_ms >= UX_WAIT_THRESHOLD_MS && has_handle && has_status && has_sender),
{
    wait_ms >= UX_WAIT_THRESHOLD_MS && has_handle && has_status && has_sender
}

/// The status of a session that waits for a retry.
pub fn retry_pause_status(config: &RetryConfig, wait_ms: u64, attempt: u32, provider: &str) -> (r:
    SessionStatus)
    ensures
        r@ == (session_state::StatusView::Paused(
            None,
            None,
            Some((wait_ms, attempt, config.max_attempts, provider@)),
        )),
{
    SessionStatus::Paused {
        iteration: None,
        max_iterations: None,
        retry_info: Some(
            RetryPauseInfo {
                wait_ms,
                attempt,
                max_attempts: config.max_attempts,
                provider: provider.to_string(),
            },
        ),
    }
}

/// What observers of a wait are told.
pub fn retry_wait_state(config: &RetryConfig, wait_ms: u64, attempt: u32, provider: &str) -> (r:
    RetryWaitState)
    ensures
        r.wait_ms == wait_ms,
        r.attempt == attempt,
        r.max_attempts == config.max_attempts,
        r.provider_name@ == provider@,
{
    RetryWaitState {
        wait_ms,
        attempt,
        max_attempts: config.max_attempts,
        provider_name: provider.to_string(),
    }
}

/// The status of a session after a wait.
pub fn resumed_status() -> (r: SessionStatus)
    ensures
        r@ == session_state::StatusView::Streaming(None),
{
    SessionStatus::Streaming { message_id: None }
}

/// How a call of a provider ended.
#[derive(Clone, Copy, Debug, PartialEq, Eq)]
pub enum CallOutcome {
    Success,
    Failure {
        /// The error may pass when the call is made again.
        retryable: bool,
        /// The account has no credit left.
        balance_exhausted: bool,
        /// The wait that the server asks for.
        retry_after_ms: Option<u64>,
    },
}

/// Which provider is asked, and for which time, counted from zero.
#[derive(Clone, Copy, Debug, PartialEq, Eq, Structural)]
pub struct CallPosition {
    pub provider: usize,
    pub attempt: u32,
}

/// What follows a call.
#[derive(Clone, Copy, Debug, PartialEq, Eq, Structural)]
pub enum RetryStep {
    /// The answer is returned.
    Return,
    /// So many milliseconds are waited, spread at random; then a call is made.
    WaitAndCall { wait_ms: u64, next: CallPosition },
    /// Another provider is called.
    Call { next: CallPosition },
    /// All providers have failed.
    GiveUp,
}

/// The first call to one of `providers` providers.
pub open spec fn first_call(providers: nat, c: RetryConfig) -> RetryStep {
    if providers > 0 && c.max_attempts > 0 {
        RetryStep::Call { next: CallPosition { provider: 0, attempt: 0 } }
    } else {
        RetryStep::GiveUp
    }
}

/// What follows when a provider is given up.
pub open spec fn next_provider(p: CallPosition, providers: nat) -> RetryStep {
    if p.provider + 1 < providers {
        RetryStep::Call {
            next: CallPosition { provider: (p.provider + 1) as usize, attempt: 0 },
        }
    } else {
        RetryStep::GiveUp
    }
}

/// What follows the call at `p`: an error that may pass is retried after a
/// wait, until the attempts are used up; then, and after any other error, the
/// next provider is asked.
pub open spec fn after_call(
    p: CallPosition,
    providers: nat,
    c: RetryConfig,
    outcome: CallOutcome,
) -> RetryStep {
    match outcome {
        CallOutcome::Success => RetryStep::Return,
        CallOutcome::Failure { retryable, balance_exhausted, retry_after_ms } => if retryable
            && !balance_exhausted && p.attempt + 1 < c.max_attempts {
            RetryStep::WaitAndCall {
                wait_ms: capped_wait(c, p.attempt, retry_after_ms) as u64,
                next: CallPosition { attempt: (p.attempt + 1) as u32, ..p },
            }
        } else {
            next_provider(p, providers)
        },
    }
}

/// The call at `p` is made again after a wait that the backoff gives: the error may
/// pass, an attempt is left, and the server asks for no wait of its own.
pub open spec fn backs_off(p: CallPosition, c: RetryConfig, outcome: CallOutcome) -> bool {
    outcome matches CallOutcome::Failure { retryable, balance_exhausted, retry_after_ms }
        && retryable && !balance_exhausted && retry_after_ms is None && p.attempt + 1
        < c.max_attempts
}

/// A primary provider and its fallbacks, by name, with the rules for retries.
pub struct ReliableProvider {
    names: Vec<String>,
    retry_config: RetryConfig,
}

/// What a reliable provider holds.
pub struct ReliableView {
    /// The primary provider, then the fallbacks in order.
    pub names: Seq<Seq<char>>,
    pub retry_config: RetryConfig,
}

impl View for ReliableProvider {
    type V = ReliableView;

    closed spec fn view(&self) -> ReliableView {
        ReliableView { names: text::texts(self.names@), retry_config: self.retry_config }
    }
}

impl ReliableProvider {
    #[verifier::type_invariant]
    spec fn has_primary(&self) -> bool {
        self.names@.len() > 0
    }

    /// A provider without fallbacks.
    pub fn new(primary: String, retry_config: RetryConfig) -> (r: ReliableProvider)
        ensures
            r@ == (ReliableView { names: seq![primary@], retry_config }),
    {
        let mut names: Vec<String> = Vec::new();
        names.push(primary);
        proof {
            assert(text::texts(names@) =~= seq![primary@]);
        }
        ReliableProvider { names, retry_config }
    }

    /// The same with one more fallback.
    pub fn with_fallback(self, provider: String) -> (r: ReliableProvider)
        ensures
            r@ == (ReliableView { names: self@.names.push(provider@), ..self@ }),
    {
        let ReliableProvider { mut names, retry_config } = self;
        let ghost before: Seq<String> = names@;
        names.push(provider);
        proof {
            assert(text::texts(names@) =~= text::texts(before).push(provider@));
        }
        ReliableProvider { names, retry_config }
    }

    /// The name of the primary provider.
    pub fn name(&self) -> (r: &String)
        ensures
            r@ == self@.names[0],
    {
        proof {
            use_type_invariant(&*self);
        }
        &self.names[0]
    }

    /// The first call.
    pub fn start(&self) -> (r: RetryStep)
        ensures
            r == first_call(self@.names.len(), self@.retry_config),
    {
        if self.names.len() > 0 && self.retry_config.max_attempts > 0 {
            RetryStep::Call { next: CallPosition { provider: 0, attempt: 0 } }
        } else {
            RetryStep::GiveUp
        }
    }

    /// The wait before a retry: what the server asks for, or else the backoff, but
    /// no more than the configured limit, spread at random by a quarter of it at
    /// most to either side.
    pub fn compute_wait(&self, attempt: u32, retry_after_ms: Option<u64>) -> (r: u64)
        requires
            retry_after_ms is None ==> self@.retry_config.backoff.wait_millis(attempt) <= u64::MAX,
        ensures
            ({
                let ms = capped_wait(self@.retry_config, attempt, retry_after_ms);
                &&& exists|parts: u64|
                    LEAST_PARTS <= parts <= MOST_PARTS && r == #[trigger] spread(ms as u64, parts)
                &&& 4 * r <= 5 * ms
                &&& r < u64::MAX ==> 4 * (r + 1) > 3 * ms
            }),
    {
        let base: u64 = self.retry_config.base_wait(attempt, retry_after_ms);
        proof {
            assert(base == capped_wait(self@.retry_config, attempt, retry_after_ms) as u64);
        }
        jittered(base)
    }

    /// What follows the call at `p`, see `after_call`. A wait is not spread yet.
    pub fn next(&self, p: CallPosition, outcome: CallOutcome) -> (r: RetryStep)
        requires
            p.provider < self@.names.len(),
            p.attempt < self@.retry_config.max_attempts,
            backs_off(p, self@.retry_config, outcome)
                ==> self@.retry_config.backoff.wait_millis(p.attempt) <= u64::MAX,
        ensures
            r == after_call(p, self@.names.len(), self@.retry_config, outcome),
    {
        match outcome {
            CallOutcome::Success => RetryStep::Return,
            CallOutcome::Failure { retryable, balance_exhausted, retry_after_ms } => {
                if retryable && !balance_exhausted && p.attempt < self.retry_config.max_attempts
                    - 1 {
                    RetryStep::WaitAndCall {
                        wait_ms: self.retry_config.base_wait(p.attempt, retry_after_ms),
                        next: CallPosition { provider: p.provider, attempt: p.attempt + 1 },
                    }
                } else if p.provider < self.names.len() - 1 {
                    RetryStep::Call {
                        next: CallPosition { provider: p.provider + 1, attempt: 0 },
                    }
                } else {
                    RetryStep::GiveUp
                }
            },
        }
    }
}

/// Where a step goes on to, if it makes a call.
pub open spec fn next_call(s: RetryStep) -> Option<CallPosition> {
    match s {
        RetryStep::WaitAndCall { next, .. } => Some(next),
        RetryStep::Call { next } => Some(next),
        _ => None,
    }
}

/// The place of a call among all calls that may be made.
pub open spec fn call_number(p: CallPosition, c: RetryConfig) -> int {
    p.provider * c.max_attempts + p.attempt
}

/// A provider is called at most `max_attempts` times and no provider is called
/// again once another was: each call has a greater number than the one before
/// it, below the number of providers times the attempts. No wait is longer than
/// the limit, a success ends the calls, and an error that cannot pass is never
/// retried on the same provider.
pub proof fn calls_are_bounded(
    p: CallPosition,
    providers: nat,
    c: RetryConfig,
    outcome: CallOutcome,
)
    requires
        p.provider < providers <= usize::MAX,
        p.attempt < c.max_attempts,
    ensures
        call_number(p, c) < providers * c.max_attempts,
        next_call(after_call(p, providers, c, outcome)) matches Some(q) ==> {
            &&& q.provider < providers
            &&& q.attempt < c.max_attempts
            &&& call_number(q, c) > call_number(p, c)
            &&& call_number(q, c) < providers * c.max_attempts
        },
        after_call(p, providers, c, outcome) matches RetryStep::WaitAndCall { wait_ms, next }
            ==> wait_ms <= c.max_wait_ms && next.provider == p.provider,
        outcome == CallOutcome::Success ==> after_call(p, providers, c, outcome)
            == RetryStep::Return,
        outcome matches CallOutcome::Failure { retryable, balance_exhausted, .. } && (!retryable
            || balance_exhausted) ==> after_call(p, providers, c, outcome) == next_provider(
            p,
            providers,
        ),
{
    let m = c.max_attempts as int;
    let k = p.provider as int;
    let n = providers as int;
    assert(k * m + m <= n * m) by (nonlinear_arith)
        requires
            0 <= k < n,
            m > 0,
    ;
    assert((k + 1) * m == k * m + m) by (nonlinear_arith);
    if k + 1 < n {
        assert((k + 1) * m + m <= n * m) by (nonlinear_arith)
            requires
                0 <= k,
                k + 1 < n,
                m > 0,
        ;
    }
}

/// From the step `s` on, the calls of `calls` are made, each with its outcome, and
/// `last` is the step behind them, which makes no call.
pub open spec fn is_run(
    s: RetryStep,
    providers: nat,
    c: RetryConfig,
    calls: Seq<(CallPosition, CallOutcome)>,
    last: RetryStep,
) -> bool
    decreases calls.len(),
{
    match next_call(s) {
        Some(p) => calls.len() > 0 && calls[0].0 == p && is_run(
            after_call(p, providers, c, calls[0].1),
            providers,
            c,
            calls.skip(1),
            last,
        ),
        None => calls.len() == 0 && last == s,
    }
}

/// The calls of `calls` that are made to the provider `k`.
pub open spec fn calls_to(calls: Seq<(CallPosition, CallOutcome)>, k: int) -> nat
    decreases calls.len(),
{
    if calls.len() == 0 {
        0
    } else {
        calls_to(calls.skip(1), k) + (if calls[0].0.provider == k {
            1nat
        } else {
            0nat
        })
    }
}

/// Of all the calls that are made for a request: the first goes to the primary
/// provider; the providers are asked in their order, with none passed over, each at
/// most `max_attempts` times; behind an error that cannot pass the next provider
/// follows at once; only the last call succeeds, if any does, and its answer is
/// returned; where none does, every provider was asked, and the request fails.
pub proof fn providers_are_asked_in_order(
    providers: nat,
    c: RetryConfig,
    calls: Seq<(CallPosition, CallOutcome)>,
    last: RetryStep,
)
    requires
        0 < providers <= usize::MAX,
        c.max_attempts > 0,
        is_run(first_call(providers, c), providers, c, calls, last),
    ensures
        calls.len() > 0,
        calls[0].0 == (CallPosition { provider: 0, attempt: 0 }),
        calls.len() <= providers * c.max_attempts,
        forall|i: int|
            #![trigger calls[i]]
            0 <= i < calls.len() - 1 ==> calls[i].1 != CallOutcome::Success && follows(
                calls[i],
                calls[i + 1].0,
            ),
        forall|k: int| calls_to(calls, k) <= c.max_attempts,
        last == (if calls.last().1 == CallOutcome::Success {
            RetryStep::Return
        } else {
            RetryStep::GiveUp
        }),
        calls.last().1 != CallOutcome::Success ==> calls.last().0.provider + 1 == providers,
{
    let p = CallPosition { provider: 0, attempt: 0 };
    assert(call_number(p, c) == 0) by (nonlinear_arith)
        requires
            call_number(p, c) == p.provider * c.max_attempts + p.attempt,
            p.provider == 0,
            p.attempt == 0,
    ;
    lemma_run(p, first_call(providers, c), providers, c, calls, last);
}

/// The call at `q` follows the call `a`: it is the next attempt on the same provider,
/// which an error that may pass has to precede, or the first on the next provider.
pub open spec fn follows(a: (CallPosition, CallOutcome), q: CallPosition) -> bool {
    ||| q.provider == a.0.provider && q.attempt == a.0.attempt + 1 && (
    a.1 matches CallOutcome::Failure { retryable, balance_exhausted, .. } && retryable
        && !balance_exhausted)
    ||| q.provider == a.0.provider + 1 && q.attempt == 0
}

proof fn lemma_run(
    p: CallPosition,
    s: RetryStep,
    providers: nat,
    c: RetryConfig,
    calls: Seq<(CallPosition, CallOutcome)>,
    last: RetryStep,
)
    requires
        next_call(s) == Some(p),
        p.provider < providers <= usize::MAX,
        p.attempt < c.max_attempts,
        is_run(s, providers, c, calls, last),
    ensures
        calls.len() > 0,
        calls[0].0 == p,
        call_number(p, c) + calls.len() <= providers * c.max_attempts,
        forall|i: int|
            #![trigger calls[i]]
            0 <= i < calls.len() - 1 ==> calls[i].1 != CallOutcome::Success && follows(
                calls[i],
                calls[i + 1].0,
            ),
        forall|k: int| k < p.provider ==> calls_to(calls, k) == 0,
        calls_to(calls, p.provider as int) + p.attempt <= c.max_attempts,
        forall|k: int| calls_to(calls, k) <= c.max_attempts,
        last == (if calls.last().1 == CallOutcome::Success {
            RetryStep::Return
        } else {
            RetryStep::GiveUp
        }),
        calls.last().1 != CallOutcome::Success ==> calls.last().0.provider + 1 == providers,
    decreases calls.len(),
{
    let rest = calls.skip(1);
    let outcome = calls[0].1;
    let t = after_call(p, providers, c, outcome);
    calls_are_bounded(p, providers, c, outcome);
    assert(is_run(t, providers, c, rest, last));
    match next_call(t) {
        Some(q) => {
            lemma_run(q, t, providers, c, rest, last);
            assert(rest.last() == calls.last());
            assert forall|i: int|
                #![trigger calls[i]]
                0 <= i < calls.len() - 1 implies calls[i].1 != CallOutcome::Success && follows(
                calls[i],
                calls[i + 1].0,
            ) by {
                assert(calls[i + 1] == rest[i]);
                if i > 0 {
                    assert(calls[i] == rest[i - 1]);
                }
            }
        },
        None => {
            assert(rest.len() == 0);
            assert forall|k: int| #[trigger] calls_to(rest, k) == 0 by {}
        },
    }
    assert forall|k: int|
        #![trigger calls_to(calls, k)]
        (k < p.provider ==> calls_to(calls, k) == 0) && (k == p.provider ==> calls_to(calls, k)
            + p.attempt <= c.max_attempts) && calls_to(calls, k) <= c.max_attempts by {
        assert(calls_to(calls, k) == calls_to(rest, k) + (if p.provider == k {
            1nat
        } else {
            0nat
        }));
    }
}

/// The message when no provider has answered.
pub fn all_failed_message(streamed: bool) -> (r: &'static str)
    ensures
        r@ == (if streamed {
            "All providers failed for streaming"@
        } else {
            "All providers failed (primary + fallbacks)"@
        }),
{
    if streamed {
        "All providers failed for streaming"
    } else {
        "All providers failed (primary + fallbacks)"
    }
}

} // verus!
