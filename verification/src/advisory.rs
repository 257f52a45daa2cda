//! The advisory service's own decisions: which column a lookup compares and
//! how a sort on the average severity is rewritten.
use vstd::prelude::*;

use crate::id::Id;

verus! {

/// Errors of the advisory service.
#[derive(Clone, Debug, PartialEq, Eq)]
pub enum Error {
    /// An advisory can only be looked up by UUID or by SHA-256 digest.
    UnsupportedHashAlgorithm,
}

/// The condition that looks up one advisory.
#[derive(Clone, Debug, PartialEq, Eq)]
pub enum AdvisoryKey {
    /// `id = <uuid>`
    Id(u128),
    /// `sha256 = <digest>`
    Sha256(String),
}

/// The condition that `fetch_advisory` puts on the advisory table: a UUID
/// compares the id, a SHA-256 digest the `sha256` column; any other digest is
/// refused.
pub fn advisory_key(hash_key: Id) -> (r: Result<AdvisoryKey, Error>)
    ensures
        match hash_key {
            Id::Uuid(u) => r == Ok::<AdvisoryKey, Error>(AdvisoryKey::Id(u)),
            Id::Sha256(h) => r == Ok::<AdvisoryKey, Error>(AdvisoryKey::Sha256(h)),
            _ => r == Err::<AdvisoryKey, Error>(Error::UnsupportedHashAlgorithm),
        },
{
    match hash_key {
        Id::Uuid(uuid) => Ok(AdvisoryKey::Id(uuid)),
        Id::Sha256(hash) => Ok(AdvisoryKey::Sha256(hash)),
        _ => Err(Error::UnsupportedHashAlgorithm),
    }
}

/// The synthetic column of the average severity.
pub const AVERAGE_SEVERITY: &'static str = "average_severity";

/// What a sort on the average severity sorts by instead, before the operator.
pub const AVERAGE_SCORE_SORT: &'static str = "average_score:";

/// How `fetch_advisories` rewrites a query term: a sort (empty value) on the
/// average severity becomes the same sort on the average score,
/// `average_score:<op>`; every other term is left alone (`None`).
pub fn translate_term(field: &str, op: &str, value: &str) -> (r: Option<String>)
    ensures
        (field@ == AVERAGE_SEVERITY@ && value@.len() == 0) ==> (r matches Some(s) && s@ == AVERAGE_SCORE_SORT@ + op@),
        !(field@ == AVERAGE_SEVERITY@ && value@.len() == 0) ==> r is None,
{
    let field = String::from_str(field);
    let severity = String::from_str(AVERAGE_SEVERITY);
    if field == severity && value.is_empty() {
        let mut s = String::from_str(AVERAGE_SCORE_SORT);
        s.append(op);
        Some(s)
    } else {
        None
    }
}

} // verus!
