//! Repairs the visibility of local Codex conversation history after the
//! active Codex model provider has been switched, and turns exported OpenAI
//! account JSON into cc-switch provider rows.
//!
//! The library holds the decisions: which provider buckets are merged into
//! the target bucket, how each history line is rewritten, how the session
//! index is rebuilt, and how an account export becomes a provider draft.
//! Reading and writing files, SQLite and processes are left to the caller.

pub mod error;
pub mod text;
pub mod paths;
pub mod json;
pub mod provider;
pub mod session;
pub mod index;
pub mod pick;
pub mod import;
pub mod cc_switch;
pub mod repair;
pub mod report;
pub mod restart;
pub mod laws;
pub mod rerun;
pub mod rules;
