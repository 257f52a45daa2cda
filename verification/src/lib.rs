//! Verified core of the Trustify analysis, advisory and GraphQL logic.
pub mod advisory;
pub mod analysis;
pub mod entity;
pub mod graphql;
pub mod id;
pub mod ingestor;
pub mod migration;
