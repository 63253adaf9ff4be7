//! Core of a project-management service: projects owned by users and
//! shared through a membership relation, a tiered authorization policy
//! deciding who may read or mutate them, and a commit-aggregation
//! planner that maps free-text repository URLs onto the GitHub API.

pub mod aggregator;
pub mod codec;
pub mod errors;
pub mod matcher;
pub mod membership;
pub mod policy;
pub mod service;
pub mod store;
pub mod text;
