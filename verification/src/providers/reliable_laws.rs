//! What holds of the calls and the waits of a request as a whole.

use crate::providers::reliable::{BackoffStrategy, CallOutcome, CallPosition, RetryConfig, RetryStep};
use crate::providers::reliable;
use vstd::arithmetic::power2::*;
use vstd::prelude::*;

verus! {

/// `o` is an error that may pass when the call is made again.
pub open spec fn may_pass(o: CallOutcome) -> bool {
    o matches CallOutcome::Failure { retryable, balance_exhausted, .. } && retryable
        && !balance_exhausted
}

/// A provider is left only behind an error that cannot pass or an exhausted
/// balance, or once it was called `max_attempts` times: an error that may pass with
/// an attempt left is followed by the next attempt on the same provider, whatever
/// wait the server asks for. Behind every other error the next provider follows,
/// with its first attempt, and behind a success nothing does.
pub proof fn attempts_are_used_up(
    providers: nat,
    c: RetryConfig,
    calls: Seq<(CallPosition, CallOutcome)>,
    last: RetryStep,
    i: int,
)
    requires
        0 < providers <= usize::MAX,
        c.max_attempts > 0,
        reliable::is_run(reliable::first_call(providers, c), providers, c, calls, last),
        0 <= i < calls.len(),
    ensures
        ({
            let (p, o) = calls[i];
            &&& 0 <= p.provider < providers && 0 <= p.attempt < c.max_attempts
            &&& may_pass(o) && p.attempt + 1 < c.max_attempts ==> i + 1 < calls.len() && calls[i
                + 1].0.provider == p.provider && calls[i + 1].0.attempt == p.attempt + 1
            &&& o is Failure && !(may_pass(o) && p.attempt + 1 < c.max_attempts) && p.provider + 1
                < providers ==> i + 1 < calls.len() && calls[i + 1].0.provider == p.provider + 1
                && calls[i + 1].0.attempt == 0
            &&& o is Failure && !(may_pass(o) && p.attempt + 1 < c.max_attempts) && p.provider + 1
                == providers ==> i + 1 == calls.len() && last == RetryStep::GiveUp
            &&& o is Success ==> i + 1 == calls.len() && last == RetryStep::Return
        }),
{
    lemma_used_up(
        CallPosition { provider: 0, attempt: 0 },
        reliable::first_call(providers, c),
        providers,
        c,
        calls,
        last,
        i,
    );
}

proof fn lemma_used_up(
    p: CallPosition,
    s: RetryStep,
    providers: nat,
    c: RetryConfig,
    calls: Seq<(CallPosition, CallOutcome)>,
    last: RetryStep,
    i: int,
)
    requires
        reliable::next_call(s) == Some(p),
        p.provider < providers <= usize::MAX,
        p.attempt < c.max_attempts,
        reliable::is_run(s, providers, c, calls, last),
        0 <= i < calls.len(),
    ensures
        ({
            let (p, o) = calls[i];
            &&& 0 <= p.provider < providers && 0 <= p.attempt < c.max_attempts
            &&& may_pass(o) && p.attempt + 1 < c.max_attempts ==> i + 1 < calls.len() && calls[i
                + 1].0.provider == p.provider && calls[i + 1].0.attempt == p.attempt + 1
            &&& o is Failure && !(may_pass(o) && p.attempt + 1 < c.max_attempts) && p.provider + 1
                < providers ==> i + 1 < calls.len() && calls[i + 1].0.provider == p.provider + 1
                && calls[i + 1].0.attempt == 0
            &&& o is Failure && !(may_pass(o) && p.attempt + 1 < c.max_attempts) && p.provider + 1
                == providers ==> i + 1 == calls.len() && last == RetryStep::GiveUp
            &&& o is Success ==> i + 1 == calls.len() && last == RetryStep::Return
        }),
    decreases calls.len(),
{
    let rest = calls.skip(1);
    let t = reliable::after_call(p, providers, c, calls[0].1);
    assert(reliable::is_run(t, providers, c, rest, last));
    match reliable::next_call(t) {
        Some(q) => {
            assert(rest.len() > 0 && rest[0].0 == q);
            assert(rest[0] == calls[1]);
            if i > 0 {
                lemma_used_up(q, t, providers, c, rest, last, i - 1);
                assert(calls[i] == rest[i - 1]);
                if i + 1 < calls.len() {
                    assert(calls[i + 1] == rest[i]);
                }
            }
        },
        None => {
            assert(rest.len() == 0);
        },
    }
}

/// The smaller one.
pub open spec fn at_most(ms: int, limit: u64) -> int {
    if ms < limit {
        ms
    } else {
        limit as int
    }
}

/// The wait before a retry is what the server asks for; where it asks for none, the
/// fixed delay, or the base doubled once for each call that was made before. It is
/// never more than the limit.
pub proof fn waits_follow_the_configuration(
    p: CallPosition,
    providers: nat,
    c: RetryConfig,
    retry_after_ms: Option<u64>,
)
    requires
        p.attempt + 1 < c.max_attempts,
    ensures
        ({
            let s = reliable::after_call(
                p,
                providers,
                c,
                CallOutcome::Failure { retryable: true, balance_exhausted: false, retry_after_ms },
            );
            &&& s is WaitAndCall
            &&& s->WaitAndCall_next.provider == p.provider
            &&& s->WaitAndCall_next.attempt == p.attempt + 1
            &&& retry_after_ms matches Some(ms) ==> s->wait_ms == at_most(ms as int, c.max_wait_ms)
            &&& retry_after_ms is None ==> match c.backoff {
                BackoffStrategy::Fixed { delay_ms } => s->wait_ms == at_most(
                    delay_ms as int,
                    c.max_wait_ms,
                ),
                BackoffStrategy::Exponential { base_ms } => p.attempt < 64 ==> s->wait_ms
                    == at_most(base_ms * pow2(p.attempt as nat), c.max_wait_ms),
            }
        }),
{
    if p.attempt < 64 {
        lemma_power(p.attempt as nat);
    }
}

proof fn lemma_power(n: nat)
    requires
        n < 64,
    ensures
        reliable::saturating_power(n) == pow2(n),
    decreases n,
{
    if n == 0 {
        lemma2_to64();
    } else {
        lemma_power((n - 1) as nat);
        lemma_pow2_unfold(n);
        lemma2_to64();
        lemma2_to64_rest();
        if n < 63 {
            lemma_pow2_strictly_increases(n, 63);
        }
    }
}

/// A wait is spread by at most a quarter of it to either side, whatever is drawn, and
/// the middle of what may be drawn leaves it as it is.
pub proof fn spread_is_a_quarter(wait_ms: u64, parts: u64)
    requires
        reliable::LEAST_PARTS <= parts <= reliable::MOST_PARTS,
        5 * wait_ms <= 4 * u64::MAX,
    ensures
        3 * wait_ms < 4 * (reliable::spread(wait_ms, parts) + 1),
        4 * reliable::spread(wait_ms, parts) <= 5 * wait_ms,
        reliable::LEAST_PARTS < reliable::MOST_PARTS,
        2 * parts == reliable::LEAST_PARTS + reliable::MOST_PARTS ==> reliable::spread(
            wait_ms,
            parts,
        ) == wait_ms,
        parts == reliable::LEAST_PARTS ==> reliable::spread(wait_ms, parts) == 3 * wait_ms / 4,
        parts == reliable::MOST_PARTS ==> reliable::spread(wait_ms, parts) == 5 * wait_ms / 4,
{
    let ms = wait_ms * parts / 1_000_000;
    assert(4 * ms <= 5 * wait_ms && 4 * (ms + 1) > 3 * wait_ms) by (nonlinear_arith)
        requires
            ms == wait_ms * parts / 1_000_000,
            750_000 <= parts <= 1_250_000,
            wait_ms >= 0,
    ;
    if parts == 1_000_000 {
        assert(ms == wait_ms) by (nonlinear_arith)
            requires
                ms == wait_ms * parts / 1_000_000,
                parts == 1_000_000,
        ;
    }
    if parts == 750_000 {
        assert(ms == 3 * wait_ms / 4) by (nonlinear_arith)
            requires
                ms == wait_ms * parts / 1_000_000,
                parts == 750_000,
        ;
    }
    if parts == 1_250_000 {
        assert(ms == 5 * wait_ms / 4) by (nonlinear_arith)
            requires
                ms == wait_ms * parts / 1_000_000,
                parts == 1_250_000,
        ;
    }
}

/// Waits of ten seconds and more are shown.
pub proof fn long_waits_are_shown()
    ensures
        reliable::UX_WAIT_THRESHOLD_MS == 10 * 1000,
{
}

/// Behind an error that cannot pass, or with the balance used up, or with the last attempt
/// made, the next provider is asked at once, from its first attempt on; where there is
/// none, the request has failed. A success is returned.
pub proof fn providers_are_left_in_turn(
    p: CallPosition,
    providers: nat,
    c: RetryConfig,
    retryable: bool,
    balance_exhausted: bool,
    retry_after_ms: Option<u64>,
)
    requires
        p.provider < providers <= usize::MAX,
        p.attempt < c.max_attempts,
        !retryable || balance_exhausted || p.attempt + 1 == c.max_attempts,
    ensures
        ({
            let s = reliable::after_call(
                p,
                providers,
                c,
                CallOutcome::Failure { retryable, balance_exhausted, retry_after_ms },
            );
            if p.provider + 1 < providers {
                s matches RetryStep::Call { next } && next.provider == p.provider + 1
                    && next.attempt == 0
            } else {
                s == RetryStep::GiveUp
            }
        }),
        reliable::after_call(p, providers, c, CallOutcome::Success) == RetryStep::Return,
        reliable::first_call(providers, c) == (RetryStep::Call {
            next: CallPosition { provider: 0, attempt: 0 },
        }),
{
}

} // verus!
