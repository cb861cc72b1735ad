//! Decision core of a chorded keyboard: a one-byte event codec, a chord
//! resolver over a bounded event log, and a priority-ordered rule matcher
//! whose actions flatten into output reports.

pub mod lex;
pub mod parse;
pub mod report;
