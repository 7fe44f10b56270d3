//! Age-based retention cleanup for relational tables: a parser for compact
//! `name[:column[:days]]` table specifications, an identifier-safety gate for
//! SQL interpolation, the batched delete statement, and a batched cleanup
//! engine with a fixed per-pass cutoff and per-table failure isolation.
pub mod cutoff;
pub mod digits;
pub mod engine;
pub mod ident;
pub mod parse;
pub mod sqlgen;
