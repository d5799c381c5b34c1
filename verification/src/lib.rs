//! Git hooks manager and commit message linter: configuration model,
//! conventional-commit linting, hook script generation, and the concurrent
//! script execution engine (terminal layout, admission-controlled scheduling,
//! and result aggregation).

pub mod config;
pub mod error;
pub mod git;
pub mod hooks;
pub mod layout;
pub mod lint;
pub mod scheduler;
pub mod scripts;
pub mod text;
