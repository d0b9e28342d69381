//! Keeping the index of a repository up to date.

pub mod edges;
pub mod events;
pub mod pipeline;
pub mod transaction;
