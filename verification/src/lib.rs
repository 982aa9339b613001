//! A trainer for command-line invocations: patterns written in a compact,
//! docopt-like grammar are compiled to an AST of words, a learner's typed
//! answer is tokenized, and the two are aligned positionally to produce a
//! per-token correctness report.

pub mod cli;
pub mod compare;
pub mod config;
pub mod error;
pub mod explore;
pub mod fuzzy;
pub mod history;
pub mod input_lexer;
pub mod lexer;
pub mod parser;
pub mod prompt;
pub mod rect;
pub mod store;
pub mod text;
pub mod tmux;
