//! What is read of the remote side: the rate limit of the listing service
//! and the manifest names in a bucket's tree listing.

use vstd::prelude::*;
use vstd::string::StringExecFns;
use crate::errors::SearchError;
use crate::json::{json_document, json_of, member, parse_value, unsigned_of, value_member, Json};
use crate::pattern::{capture_first_groups, first_groups, pattern_compiles};

verus! {

/// The candidates that one known bucket offers, under the bucket's name.
pub type RemoteResult = (String, Vec<String>);

/// How a request to the listing service names its sender.
pub const USER_AGENT: &'static str =
    "Mozilla/5.0 (Windows NT 10.0; Win64; x64; rv:91.0) Gecko/20100101 Firefox/91.0";

/// Where the listing service tells its rate limit.
pub const RATE_LIMIT_URI: &'static str = "https://api.github.com/rate_limit";

// ---------------------------------------------------------------------
// The rate limit

/// The requests that the answer of the rate-limit endpoint leaves: the
/// member `remaining` of its member `rate`, where that is a number within
/// `u64`.
pub open spec fn remaining_of(doc: Json) -> Option<u64> {
    match member(doc, "rate"@) {
        Some(rate) => match member(rate, "remaining"@) {
            Some(remaining) => unsigned_of(remaining),
            None => None,
        },
        None => None,
    }
}

/// The limit is reached unless a number of remaining requests is known and
/// is not zero.
pub open spec fn limit_reached(remaining: Option<u64>) -> bool {
    match remaining {
        Some(left) => left == 0,
        None => true,
    }
}

/// Whether the limit is reached with this many requests remaining.
pub fn quota_exhausted(remaining: Option<u64>) -> (r: bool)
    ensures
        r == limit_reached(remaining),
{
    match remaining {
        Some(left) => left == 0,
        None => true,
    }
}

/// The requests that a parsed answer of the rate-limit endpoint leaves.
pub fn read_remaining(root: &serde_json::Value) -> (r: Option<u64>)
    ensures
        r == remaining_of(json_of(*root)),
{
    match value_member(root, "rate") {
        Some(rate) => match value_member(rate, "remaining") {
            Some(remaining) => remaining.as_u64(),
            None => None,
        },
        None => None,
    }
}

/// Whether the answer of the rate-limit endpoint says that no request is
/// left. An answer that is no JSON document is an error.
pub fn github_ratelimit_reached(body: &[u8]) -> (r: Result<bool, SearchError>)
    ensures
        match r {
            Ok(reached) => json_document(body@) matches Some(doc) && reached == limit_reached(remaining_of(doc)),
            Err(SearchError::RateLimit(_)) => json_document(body@) is None,
            Err(_) => false,
        },
{
    match parse_value(body) {
        Ok(root) => Ok(quota_exhausted(read_remaining(&root))),
        Err(cause) => Err(SearchError::RateLimit(cause)),
    }
}

// ---------------------------------------------------------------------
// Tree listings

/// The pattern that finds manifests whose name holds `query` in a tree
/// listing. The query stands in it as it is, so what it holds of pattern
/// syntax acts as such.
pub open spec fn remote_pattern(query: Seq<char>) -> Seq<char> {
    "\"bucket/(.*"@ + query + ".*)\\.json\""@
}

/// Every match captured a name.
pub open spec fn all_captured(groups: Seq<Option<Seq<char>>>) -> bool {
    forall|i: int| 0 <= i < groups.len() ==> (#[trigger] groups[i]) is Some
}

/// The names that the matches captured.
pub open spec fn captured(groups: Seq<Option<Seq<char>>>) -> Seq<Seq<char>> {
    groups.map_values(|group: Option<Seq<char>>| group->0)
}

/// The position of the first match that captured no name.
pub open spec fn is_first_gap(groups: Seq<Option<Seq<char>>>, index: int) -> bool {
    &&& 0 <= index < groups.len()
    &&& groups[index] is None
    &&& forall|i: int| 0 <= i < index ==> (#[trigger] groups[i]) is Some
}

/// The pattern for `query`.
pub fn pattern_for(query: &str) -> (r: String)
    ensures
        r@ == remote_pattern(query@),
{
    let mut pattern = String::from_str("\"bucket/(.*");
    pattern.append(query);
    pattern.append(".*)\\.json\"");
    pattern
}

/// The position of the first match that captured no name, if there is one.
pub fn first_gap(groups: &Vec<Option<String>>) -> (r: Option<usize>)
    ensures
        match r {
            Some(index) => is_first_gap(groups.deep_view(), index as int),
            None => all_captured(groups.deep_view()),
        },
{
    let mut i: usize = 0;
    while i < groups.len()
        invariant
            i <= groups.len(),
            forall|j: int| 0 <= j < i ==> (#[trigger] groups.deep_view()[j]) is Some,
        decreases groups.len() - i,
    {
        if groups[i].is_none() {
            return Some(i);
        }
        i += 1;
    }
    None
}

/// The names that the matches captured, where each captured one.
pub fn candidates(groups: Vec<Option<String>>) -> (r: Vec<String>)
    requires
        all_captured(groups.deep_view()),
    ensures
        r.deep_view() == captured(groups.deep_view()),
{
    let ghost all = groups.deep_view();
    let mut names: Vec<String> = Vec::new();
    for group in it: groups
        invariant
            all_captured(all),
            it.seq().len() == all.len(),
            forall|j: int| 0 <= j < all.len() ==> (#[trigger] it.seq()[j]).deep_view() == all[j],
            names.len() == it.index(),
            forall|j: int| 0 <= j < it.index() ==> (#[trigger] names@[j])@ == all[j]->0,
    {
        assert(group.deep_view() == all[it.index() as int]);
        match group {
            Some(name) => {
                names.push(name);
            },
            None => {},
        }
    }
    assert(names.deep_view() =~= captured(all));
    names
}

/// The manifest names in the tree listing `body` that hold `query`: what
/// the pattern for the query captures, match by match.
///
/// A query that makes no pattern is an error, and so is a match that
/// captured no name.
pub fn find_remote(body: &str, query: &str) -> (r: Result<Vec<String>, SearchError>)
    ensures
        match r {
            Ok(names) => {
                &&& pattern_compiles(remote_pattern(query@))
                &&& all_captured(first_groups(remote_pattern(query@), body@))
                &&& names.deep_view() == captured(first_groups(remote_pattern(query@), body@))
            },
            Err(SearchError::Pattern(_)) => !pattern_compiles(remote_pattern(query@)),
            Err(SearchError::NoCapture { index }) => {
                &&& pattern_compiles(remote_pattern(query@))
                &&& is_first_gap(first_groups(remote_pattern(query@), body@), index as int)
            },
            Err(_) => false,
        },
{
    let pattern = pattern_for(query);
    let regex = match regex::Regex::new(pattern.as_str()) {
        Ok(regex) => regex,
        Err(cause) => {
            return Err(SearchError::Pattern(cause));
        },
    };
    let groups = capture_first_groups(&regex, body);
    match first_gap(&groups) {
        Some(index) => Err(SearchError::NoCapture { index }),
        None => Ok(candidates(groups)),
    }
}

} // verus!
