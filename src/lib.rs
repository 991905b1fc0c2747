//! Numbering of mathematical environments (theorems, lemmas, ...) across the
//! chapters of a book, and resolution of the references made to them.
//!
//! The first pass ([`find_and_replace_envs`]) numbers each chapter's
//! declarations and registers their labels; the second
//! ([`find_and_replace_refs`]) rewrites references into links once every
//! chapter has been through the first. [`NumThmPreprocessor::run`] runs both.

pub mod env;
pub mod grammar;
pub mod labels;
pub mod laws;
pub mod preprocessor;
pub mod refs;
pub mod scan;
pub mod text;

pub use env::{Env, EnvMap};
pub use labels::{Diagnostic, LabelInfo, LabelRegistry};
pub use preprocessor::{Chapter, EnvConfig, NumThmPreprocessor};
pub use refs::{compute_rel_path, find_and_replace_refs};
pub use scan::find_and_replace_envs;
pub use text::decimal_chars;
