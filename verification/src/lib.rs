//! Searching GitHub's code search for a list of terms: the decisions that the
//! search client takes, as a verified library.
pub mod text;
pub mod json;
pub mod page;
pub mod pagination;
pub mod rate_limit;
pub mod messages;
pub mod searcher;

pub use crate::searcher::{Args, GitHubSearcher};
