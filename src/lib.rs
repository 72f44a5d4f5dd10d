//! Retrieval and ranking engine of a reference library of shell commands and
//! usage tips: relevance ranking for free-text search, category browsing over
//! the positioned category hierarchy, command detail assembly, tip selection,
//! schema checks and the uniform response envelope.
//!
//! The engine works on rows already read from the store; reading them is left
//! to the caller.

pub mod catalog;
pub mod detail;
pub mod envelope;
pub mod model;
pub mod order;
pub mod schema;
pub mod search;
pub mod suggest;
pub mod text;
pub mod tips;
