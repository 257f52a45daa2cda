//! The advisory entity: how an identifier selects advisories, and how the
//! organization of an advisory is resolved.
use vstd::prelude::*;

use super::organization;
use crate::id::{Id, IdError};

verus! {

/// The column condition that selects advisories by an identifier.
#[derive(Clone, Debug, PartialEq, Eq)]
pub enum IdFilter {
    /// `id = <uuid>`
    Id(u128),
    /// `sha256 = <digest>`
    Sha256(String),
    /// `sha384 = <digest>`
    Sha384(String),
    /// `sha512 = <digest>`
    Sha512(String),
}

/// The advisory table.
pub struct Entity;

impl Entity {
    /// The condition on the advisory table that an identifier stands for:
    /// a UUID compares the id column and a digest compares the column of its
    /// algorithm. Every kind of identifier has a column here.
    pub fn try_filter(id: Id) -> (r: Result<IdFilter, IdError>)
        ensures
            match id {
                Id::Uuid(u) => r == Ok::<IdFilter, IdError>(IdFilter::Id(u)),
                Id::Sha256(h) => r == Ok::<IdFilter, IdError>(IdFilter::Sha256(h)),
                Id::Sha384(h) => r == Ok::<IdFilter, IdError>(IdFilter::Sha384(h)),
                Id::Sha512(h) => r == Ok::<IdFilter, IdError>(IdFilter::Sha512(h)),
            },
    {
        Ok(
            match id {
                Id::Uuid(uuid) => IdFilter::Id(uuid),
                Id::Sha256(hash) => IdFilter::Sha256(hash),
                Id::Sha384(hash) => IdFilter::Sha384(hash),
                Id::Sha512(hash) => IdFilter::Sha512(hash),
            },
        )
    }
}

/// The message when an advisory has no issuing organization.
pub const ORGANIZATION_NOT_FOUND: &'static str = "Organization not found";

/// The organization of an advisory, from the related row that the database
/// found: that row, or an error when there is none.
pub fn organization(found: Option<organization::Model>) -> (r: Result<organization::Model, String>)
    ensures
        match found {
            Some(m) => r == Ok::<organization::Model, String>(m),
            None => r matches Err(e) && e@ == ORGANIZATION_NOT_FOUND@,
        },
{
    match found {
        Some(found) => Ok(found),
        None => Err(String::from_str(ORGANIZATION_NOT_FOUND)),
    }
}

} // verus!
