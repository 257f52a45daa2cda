//! Entities of the database and how they are looked up.
pub mod advisory;
pub mod organization;
