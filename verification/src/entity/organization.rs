//! The organization entity.
use vstd::prelude::*;

verus! {

/// An organization row.
#[derive(Clone, Debug, PartialEq, Eq)]
pub struct Model {
    pub id: i32,
    pub name: String,
    pub cpe_key: Option<String>,
    pub website: Option<String>,
}

} // verus!
