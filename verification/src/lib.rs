//! Release automation helpers: checking version strings, rewriting the
//! package version of a Cargo manifest, dating the unreleased section of a
//! changelog, reading the owner of a fork from its remote URL, and the
//! decision logic of the release workflows that drive `git`, `cargo` and `gh`.

pub mod text;
pub mod error;
pub mod release;
pub mod git;
pub mod workflow;
