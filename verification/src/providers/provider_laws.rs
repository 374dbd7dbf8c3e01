//! Which failures are worth another try, and where providers are reached.

use crate::message;
use crate::providers::failures::FailureKind;
use crate::providers::failures;
use crate::providers::openai;
use crate::providers::plan::{ManifestProvider, PlannedProvider};
use crate::providers::plan;
use crate::text;
use vstd::prelude::*;
use vstd::utf8::*;

verus! {

/// A provider that is not reached, is asked too often or fails by itself may answer the
/// next time. One that refuses the request will refuse it again.
pub proof fn failures_of_the_provider_may_pass(status: u16)
    ensures
        failures::may_pass(FailureKind::Network),
        !failures::may_pass(FailureKind::Unknown),
        failures::may_pass(failures::status_kind(status)) == (status == 429 || status >= 500),
        failures::status_kind(429) == FailureKind::RateLimited,
{
}

/// `part` stands somewhere in `s`.
pub open spec fn holds(s: Seq<char>, part: Seq<char>) -> bool {
    exists|k: int|
        0 <= k && k + part.len() <= s.len() && #[trigger] s.subrange(k, k + part.len()) == part
}

proof fn lemma_holds(s: Seq<char>, part: Seq<char>)
    ensures
        text::occurs_in(s, part) == holds(s, part),
{
    if text::occurs_in(s, part) {
        let k = choose|k: int| text::stands_at(s, part, k);
        assert(s.subrange(k, k + part.len()) == part);
    }
    if holds(s, part) {
        let k = choose|k: int|
            0 <= k && k + part.len() <= s.len() && #[trigger] s.subrange(k, k + part.len()) == part;
        assert(text::stands_at(s, part, k));
    }
}

/// A failure says that the balance is used up where it names the quota, the credits or one
/// of the two codes for that, and nowhere else.
pub proof fn exhausted_balances_are_known(m: Seq<char>)
    ensures
        failures::says_balance_is_exhausted(m) == (holds(m, "insufficient_quota"@) || holds(
            m,
            "out of credits"@,
        ) || holds(m, "code 1113"@) || holds(m, "code 1311"@)),
{
    lemma_holds(m, "insufficient_quota"@);
    lemma_holds(m, "out of credits"@);
    lemma_holds(m, "code 1113"@);
    lemma_holds(m, "code 1311"@);
}

/// The address of a provider is the one that is given, without slashes at its end; another
/// slash there makes no difference. Where none is given it is the usual one.
pub proof fn slashes_at_the_end_are_dropped(s: Seq<char>) -> (n: int)
    ensures
        openai::without_slashes(s.push('/')) == openai::without_slashes(s),
        0 <= n <= s.len(),
        openai::without_slashes(s) == s.take(n),
        n > 0 ==> s[n - 1] != '/',
        forall|k: int| n <= k < s.len() ==> s[k] == '/',
        openai::base_of(None) == "https://api.openai.com/v1"@,
    decreases s.len(),
{
    assert(s.push('/').drop_last() =~= s);
    if s.len() > 0 && s.last() == '/' {
        let t = s.drop_last();
        let n = slashes_at_the_end_are_dropped(t);
        assert(t.take(n) =~= s.take(n));
        assert forall|k: int| n <= k < s.len() implies s[k] == '/' by {
            if k < t.len() {
                assert(t[k] == s[k]);
            }
        }
        n
    } else {
        assert(s.take(s.len() as int) =~= s);
        s.len() as int
    }
}

/// The bytes of messages are those of their contents, one message after the other.
pub proof fn contents_are_counted(ms: Seq<message::MessageView>, m: message::MessageView)
    ensures
        openai::content_bytes(Seq::empty()) == 0,
        openai::content_bytes(ms.push(m)) == openai::content_bytes(ms) + encode_utf8(
            m.content,
        ).len(),
{
    assert(ms.push(m).drop_last() =~= ms);
}

/// A provider uses its own key and address, and the agent's where it has none.
pub proof fn own_settings_come_first(own: Seq<char>, default: Option<Seq<char>>)
    ensures
        plan::own_or(Some(own), default) == Some(own),
        plan::own_or(None, default) == default,
{
}

/// A provider is set up under its name and with its model, as the manifest says.
pub proof fn providers_are_set_up_as_declared(
    m: ManifestProvider,
    key: Option<Seq<char>>,
    url: Option<Seq<char>>,
    p: PlannedProvider,
)
    requires
        plan::is_planned(m, key, url, p),
    ensures
        p.name@ == m.name@,
        p.model@ == m.model@,
        m.api_key_ref matches Some(k) ==> (p.api_key matches Some(q) && q@ == k@),
        m.api_key_ref is None ==> text::opt_text(p.api_key) == key,
        m.base_url matches Some(u) ==> (p.base_url matches Some(q) && q@ == u@),
        m.base_url is None ==> text::opt_text(p.base_url) == url,
{
}

} // verus!
