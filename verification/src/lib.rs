//! Structure-aware source search: a small query language over syntax trees,
//! compiled per language into tree patterns and evaluated with set algebra.
//!
//! A query such as `and(call(callee=/foo/), not(import(module=/bar/)))` is
//! parsed once ([`parse_query`]). For every file, [`process_file`] parses the
//! bytes under the grammar of the file's language, runs the tree patterns of
//! each term, keeps the matches whose captures satisfy the term's predicates,
//! and combines the terms: `and` intersects, `or` unites and `not` takes the
//! complement within what any term of the query matched. Matches are
//! identified by path and line span. [`merge_results`] puts the events of all
//! files into one order and cuts them at a cap.
//!
//! - [`dsl`], [`grammar`], [`parser`]: the query language, its meaning as a
//!   function on characters, and the parser that is proved against it.
//! - [`adapter`], [`languages`]: what a language contributes, and the
//!   languages at hand.
//! - [`semantics`], [`processor`], [`records`]: what a query matches in a
//!   file, the engine that computes it, and the ordered map of records.
//! - [`report`], [`laws`]: the output of a run, and what holds of every
//!   evaluation and every run.
//! - [`pattern`], [`syntax`]: regular expressions and syntax trees, which
//!   come from the `regex` and `tree-sitter` crates; their behaviour is
//!   assumed as stated there and not proved.
//! - [`source`], [`text`], [`order`], [`fetch`]: bytes and lines, characters,
//!   the order of keys, and the notations of sizes and durations.

pub mod adapter;
pub mod dsl;
pub mod fetch;
pub mod grammar;
pub mod languages;
pub mod laws;
pub mod order;
pub mod parser;
pub mod pattern;
pub mod processor;
pub mod records;
pub mod report;
pub mod semantics;
pub mod source;
pub mod syntax;
pub mod text;

pub use crate::adapter::CaptureBundle;
pub use crate::adapter::LangAdapter;
pub use crate::dsl::Expr;
pub use crate::dsl::InvalidQuery;
pub use crate::dsl::Kind;
pub use crate::dsl::Pred;
pub use crate::languages::get_adapter;
pub use crate::languages::lang_by_ext;
pub use crate::languages::parse_lang_list;
pub use crate::languages::select_language;
pub use crate::languages::LangId;
pub use crate::parser::parse_query;
pub use crate::processor::process_file;
pub use crate::processor::ProcessError;
pub use crate::records::MatchRecord;
pub use crate::report::file_events;
pub use crate::report::merge_results;
pub use crate::report::Event;
