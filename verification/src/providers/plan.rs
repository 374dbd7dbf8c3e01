//! The providers that an agent's manifest names.

use crate::message::clone_opt;
use crate::text;
use vstd::prelude::*;

verus! {

/// A provider that a manifest names.
#[derive(Debug, PartialEq, Eq)]
pub struct ManifestProvider {
    pub name: String,
    pub model: String,
    /// The provider's own key.
    pub api_key_ref: Option<String>,
    /// The provider's own address.
    pub base_url: Option<String>,
}

/// A provider to set up.
#[derive(Debug, PartialEq, Eq)]
pub struct PlannedProvider {
    pub name: String,
    pub model: String,
    pub api_key: Option<String>,
    pub base_url: Option<String>,
}

/// `own`, or `default` where there is none.
pub open spec fn own_or(own: Option<Seq<char>>, default: Option<Seq<char>>) -> Option<Seq<char>> {
    if own is Some {
        own
    } else {
        default
    }
}

/// `p` is set up as `m` says, with the agent's key and address where it has none
/// of its own.
pub open spec fn is_planned(
    m: ManifestProvider,
    key: Option<Seq<char>>,
    url: Option<Seq<char>>,
    p: PlannedProvider,
) -> bool {
    &&& p.name@ == m.name@
    &&& p.model@ == m.model@
    &&& text::opt_text(p.api_key) == own_or(text::opt_text(m.api_key_ref), key)
    &&& text::opt_text(p.base_url) == own_or(text::opt_text(m.base_url), url)
}

fn choose_own(own: &Option<String>, default: &Option<String>) -> (r: Option<String>)
    ensures
        text::opt_text(r) == own_or(text::opt_text(*own), text::opt_text(*default)),
{
    if own.is_some() {
        clone_opt(own)
    } else {
        clone_opt(default)
    }
}

/// The providers to set up, in the order of the manifest. The first one is asked
/// first; with none, no model can be asked.
pub fn plan_providers(
    manifest: &Vec<ManifestProvider>,
    default_api_key: &Option<String>,
    default_base_url: &Option<String>,
) -> (r: Vec<PlannedProvider>)
    ensures
        r@.len() == manifest@.len(),
        forall|i: int|
            0 <= i < manifest@.len() ==> is_planned(
                #[trigger] manifest@[i],
                text::opt_text(*default_api_key),
                text::opt_text(*default_base_url),
                r@[i],
            ),
{
    let mut r: Vec<PlannedProvider> = Vec::new();
    let mut i: usize = 0;
    while i < manifest.len()
        invariant
            i <= manifest@.len(),
            r@.len() == i,
            forall|k: int|
                0 <= k < i ==> is_planned(
                    #[trigger] manifest@[k],
                    text::opt_text(*default_api_key),
                    text::opt_text(*default_base_url),
                    r@[k],
                ),
        decreases manifest@.len() - i,
    {
        let m: &ManifestProvider = &manifest[i];
        r.push(
            PlannedProvider {
                name: m.name.clone(),
                model: m.model.clone(),
                api_key: choose_own(&m.api_key_ref, default_api_key),
                base_url: choose_own(&m.base_url, default_base_url),
            },
        );
        i = i + 1;
    }
    r
}

} // verus!
