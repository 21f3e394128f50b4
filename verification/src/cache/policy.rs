//! Which headers take part in a cache key.
use crate::model::views;
use crate::text::{ascii_lowered, is_named, same_text};
use vstd::prelude::*;

verus! {

/// Which headers take part in a cache key. The names are compared in lowercase.
#[derive(Debug, PartialEq)]
pub enum CacheHeaderPolicy {
    /// All but `x-request-id`.
    AllExceptRequestId,
    /// The named ones only.
    Allowlist(Vec<String>),
    /// All but the named ones and `x-request-id`.
    Denylist(Vec<String>),
}

/// The mathematical [`CacheHeaderPolicy`].
pub enum CacheHeaderPolicyModel {
    AllExceptRequestId,
    Allowlist(Seq<Seq<char>>),
    Denylist(Seq<Seq<char>>),
}

impl View for CacheHeaderPolicy {
    type V = CacheHeaderPolicyModel;

    open spec fn view(&self) -> CacheHeaderPolicyModel {
        match *self {
            CacheHeaderPolicy::AllExceptRequestId => CacheHeaderPolicyModel::AllExceptRequestId,
            CacheHeaderPolicy::Allowlist(names) => CacheHeaderPolicyModel::Allowlist(
                views(names@),
            ),
            CacheHeaderPolicy::Denylist(names) => CacheHeaderPolicyModel::Denylist(views(names@)),
        }
    }
}

/// Whether a header is `x-request-id`, in any case.
pub open spec fn is_request_id(name: Seq<char>) -> bool {
    ascii_lowered(name) == "x-request-id"@
}

/// Whether a header is `x-request-id`, in any case.
pub fn names_request_id(name: &str) -> (same: bool)
    ensures
        same == is_request_id(name@),
{
    proof {
        reveal_strlit("x-request-id");
        assert(ascii_lowered("x-request-id"@) =~= "x-request-id"@);
    }
    is_named(name, "x-request-id")
}

impl CacheHeaderPolicyModel {
    /// Whether a header with the given lowercase name takes part.
    pub open spec fn selects(self, name: Seq<char>) -> bool {
        match self {
            CacheHeaderPolicyModel::AllExceptRequestId => !is_request_id(name),
            CacheHeaderPolicyModel::Allowlist(names) => names.contains(name),
            CacheHeaderPolicyModel::Denylist(names) => !is_request_id(name) && !names.contains(
                name,
            ),
        }
    }
}

fn lists(names: &Vec<String>, name: &str) -> (listed: bool)
    ensures
        listed == views(names@).contains(name@),
{
    let mut i: usize = 0;
    while i < names.len()
        invariant
            i <= names@.len(),
            forall|k: int| 0 <= k < i ==> #[trigger] views(names@)[k] != name@,
        decreases names@.len() - i,
    {
        if same_text(names[i].as_str(), name) {
            proof {
                assert(views(names@)[i as int] == name@);
            }
            return true;
        }
        i = i + 1;
    }
    false
}

impl CacheHeaderPolicy {
    /// Whether a header with the given lowercase name takes part.
    pub fn selects(&self, name: &str) -> (selected: bool)
        ensures
            selected == self@.selects(name@),
    {
        match self {
            CacheHeaderPolicy::AllExceptRequestId => !names_request_id(name),
            CacheHeaderPolicy::Allowlist(names) => lists(names, name),
            CacheHeaderPolicy::Denylist(names) => !names_request_id(name) && !lists(names, name),
        }
    }
}

impl Clone for CacheHeaderPolicy {
    fn clone(&self) -> (copy: Self)
        ensures
            copy@ == self@,
    {
        match self {
            CacheHeaderPolicy::AllExceptRequestId => CacheHeaderPolicy::AllExceptRequestId,
            CacheHeaderPolicy::Allowlist(names) => {
                let copies = names.clone();
                proof {
                    assert(views(copies@) =~= views(names@));
                }
                CacheHeaderPolicy::Allowlist(copies)
            },
            CacheHeaderPolicy::Denylist(names) => {
                let copies = names.clone();
                proof {
                    assert(views(copies@) =~= views(names@));
                }
                CacheHeaderPolicy::Denylist(copies)
            },
        }
    }
}

} // verus!
