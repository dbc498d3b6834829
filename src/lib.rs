//! Candidate generation, region-bounded source patching and diagnostic
//! interpretation for automated proof completion.

pub mod text;
pub mod tree_search;
pub mod config;
pub mod hints;
pub mod arxiv;
pub mod search;

pub use hints::derive_candidates_from_goal_pretty_with_hint_rules;
