//! Conflict-marker parsing, per-hunk resolution and merge-session lifecycle,
//! together with a reader for `git status --porcelain=v1` output.

pub mod conflict;
pub mod headless;
pub mod hunk;
pub mod interactive;
pub mod laws;
pub mod porcelain;
pub mod session;
pub mod text;
