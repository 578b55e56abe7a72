//! Language-agnostic source-code complexity metrics.
//!
//! Source files are parsed into syntax trees; a uniform walk derives
//! per-function cyclomatic and cognitive complexity, nesting depth, size
//! and parameter counts, and a repository-level report rolls the files up
//! into language and complexity distributions, a composite score and the
//! most complex functions. Alongside the analyzer live the small verified
//! pieces of the surrounding tooling: a log buffer, filename handling and
//! the reader of a model's tool-calling turns.

pub mod agent;
pub mod discover;
pub mod extract;
pub mod lang;
pub mod metrics;
pub mod report;
pub mod strutil;
pub mod tree;
