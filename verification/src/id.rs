//! Identifiers of stored documents: a UUID or a digest of the document.
use vstd::prelude::*;

verus! {

/// How a document is identified: by its UUID (held as its 128-bit value) or
/// by the hex digest of its content.
#[derive(Clone, Debug, PartialEq, Eq)]
pub enum Id {
    Uuid(u128),
    Sha256(String),
    Sha384(String),
    Sha512(String),
}

/// Why an identifier cannot be used: its algorithm (named by its prefix) is
/// not supported.
#[derive(Clone, Debug, PartialEq, Eq)]
pub enum IdError {
    UnsupportedAlgorithm(String),
}

} // verus!
