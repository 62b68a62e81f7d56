//! Shanji: a local-first note store with rule-based organizing.
//!
//! The crate holds the note repository's tables and every rule that reads or
//! changes them, the rule organizer that proposes dates, todos, tags,
//! categories and archive hints, and the small decisions of the desktop shell.

pub mod text;
pub mod json;
pub mod dates;
pub mod models;
pub mod seqs;
pub mod tables;
pub mod error;
pub mod repo;
pub mod writes;
pub mod ops;
pub mod ids;
pub mod digest;
pub mod save;
pub mod settings;
pub mod search;
pub mod patterns;
pub mod organizer;
pub mod analyze;
pub mod suggest;
pub mod profiles;
pub mod transfer;
pub mod files;
pub mod shell;
pub mod laws;
pub mod guarantees;
