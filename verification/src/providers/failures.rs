//! What the failure of a request means: whether it is worth another try, and
//! whether the balance of the account is used up.

use crate::text;
use vstd::prelude::*;

verus! {

/// How a request failed.
#[derive(Clone, Copy, Debug, PartialEq, Eq, Structural)]
pub enum FailureKind {
    /// The provider was not reached, or did not answer in time.
    Network,
    /// The provider answered that there were too many requests.
    RateLimited,
    /// The provider answered with another status.
    Status(u16),
    /// There is no telling.
    Unknown,
}

/// The kind of failure that a status stands for.
pub open spec fn status_kind(status: u16) -> FailureKind {
    if status == 429 {
        FailureKind::RateLimited
    } else {
        FailureKind::Status(status)
    }
}

/// A failure of this kind may pass: what keeps a request from being answered is not
/// the request.
pub open spec fn may_pass(kind: FailureKind) -> bool {
    match kind {
        FailureKind::Network => true,
        FailureKind::RateLimited => true,
        FailureKind::Status(status) => status >= 500,
        FailureKind::Unknown => false,
    }
}

impl FailureKind {
    /// The kind of failure that a status stands for.
    pub fn of_status(status: u16) -> (r: Self)
        ensures
            r == status_kind(status),
    {
        if status == 429 {
            FailureKind::RateLimited
        } else {
            FailureKind::Status(status)
        }
    }
}

/// Whether a request that failed in this way is worth another try.
pub fn is_retryable(kind: FailureKind) -> (r: bool)
    ensures
        r == may_pass(kind),
{
    match kind {
        FailureKind::Network => true,
        FailureKind::RateLimited => true,
        FailureKind::Status(status) => status >= 500,
        FailureKind::Unknown => false,
    }
}

/// A message in small letters names a code by which MiniMax says that the balance
/// is used up.
pub open spec fn names_balance_code(message: Seq<char>) -> bool {
    text::occurs_in(message, "code 1113"@) || text::occurs_in(message, "code 1311"@)
}

/// See `names_balance_code`.
pub fn is_minimax_balance_code(message: &str) -> (r: bool)
    ensures
        r == names_balance_code(message@),
{
    text::contains_text(message, "code 1113") || text::contains_text(message, "code 1311")
}

/// A message in small letters says that the balance is used up.
pub open spec fn says_balance_is_exhausted(message: Seq<char>) -> bool {
    text::occurs_in(message, "insufficient_quota"@) || text::occurs_in(message, "out of credits"@)
        || names_balance_code(message)
}

/// See `says_balance_is_exhausted`.
pub fn reads_as_exhausted(message: &str) -> (r: bool)
    ensures
        r == says_balance_is_exhausted(message@),
{
    text::contains_text(message, "insufficient_quota") || text::contains_text(
        message,
        "out of credits",
    ) || is_minimax_balance_code(message)
}

/// Whether the message of a failure says that the balance is used up, in letters of
/// any size.
pub fn is_balance_exhausted(message: &str) -> (r: bool)
    ensures
        r == says_balance_is_exhausted(text::lower_case(message@)),
{
    reads_as_exhausted(text::to_lower_case(message).as_str())
}

} // verus!
