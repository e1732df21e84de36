//! The call-interception decision layer: for every intercepted lookup, pick
//! between substituting a configured value, forwarding to the retained
//! native implementation that was displaced, and failing open with the
//! caller's default.

use vstd::prelude::*;
use crate::attrs::{AttributeMap, spec_get};

verus! {

/// What the replacement entry point must do with one intercepted call.
pub enum InterceptOutcome {
    /// Return the caller-supplied default untouched (fail open).
    UseDefault,
    /// Return this substitute value.
    Substitute(String),
    /// Invoke the retained native implementation with the caller's own
    /// arguments and return its result verbatim.
    CallOriginal,
}

/// The decision at specification level, over the substitution table's pairs,
/// whether the original entry point was captured, and the decoded lookup
/// key (`None` when decoding failed).
pub enum SpecOutcome {
    UseDefault,
    Substitute(Seq<char>),
    CallOriginal,
}

pub open spec fn spec_intercept(
    table: Option<Seq<(Seq<char>, Seq<char>)>>,
    original_captured: bool,
    key: Option<Seq<char>>,
) -> SpecOutcome {
    match key {
        None => SpecOutcome::UseDefault,
        Some(k) => {
            let hit = match table {
                Some(t) => spec_get(t, k),
                None => None,
            };
            match hit {
                Some(v) => SpecOutcome::Substitute(v),
                None => if original_captured {
                    SpecOutcome::CallOriginal
                } else {
                    SpecOutcome::UseDefault
                },
            }
        },
    }
}

/// Decides one intercepted lookup. A key that failed to decode falls open to
/// the default; a key in the table is substituted; any other key is
/// forwarded to the displaced native implementation when it was captured,
/// and falls open to the default otherwise.
pub fn intercept_lookup(
    table: &Option<AttributeMap>,
    original_captured: bool,
    decoded_key: &Option<String>,
) -> (r: InterceptOutcome)
    ensures
        ({
            let d = spec_intercept(
                match table {
                    Some(t) => Some(t@),
                    None => None,
                },
                original_captured,
                match decoded_key {
                    Some(k) => Some(k@),
                    None => None,
                },
            );
            match r {
                InterceptOutcome::UseDefault => d is UseDefault,
                InterceptOutcome::Substitute(s) => d matches SpecOutcome::Substitute(v) && v == s@,
                InterceptOutcome::CallOriginal => d is CallOriginal,
            }
        }),
{
    match decoded_key {
        None => InterceptOutcome::UseDefault,
        Some(key) => {
            let hit: Option<&String> = match table {
                Some(t) => t.get(key),
                None => None,
            };
            match hit {
                Some(v) => InterceptOutcome::Substitute(v.clone()),
                None => if original_captured {
                    InterceptOutcome::CallOriginal
                } else {
                    InterceptOutcome::UseDefault
                },
            }
        },
    }
}

/// For every non-empty substitution table without empty values, a lookup of
/// a key in the table is answered with the mapped value, and a lookup of any
/// other key falls through to the retained native implementation.
pub proof fn lemma_substitution_covers(t: AttributeMap, k: Seq<char>)
    requires
        t.wf(),
        t.no_empty_values(),
        t@.len() > 0,
    ensures
        t.as_map().dom().contains(k) ==> spec_intercept(Some(t@), true, Some(k))
            == SpecOutcome::Substitute(t.as_map()[k]),
        !t.as_map().dom().contains(k) ==> spec_intercept(Some(t@), true, Some(k))
            == SpecOutcome::CallOriginal,
{
}

} // verus!
