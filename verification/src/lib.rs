//! Log-processing engine of a terminal log viewer: format detection and record
//! parsing, timestamp normalisation and a time index, the filter pipeline, and
//! the inline pattern tokenizer.

pub mod app;
pub mod command;
pub mod filter;
pub mod highlighter;
pub mod input;
pub mod instant;
pub mod json;
pub mod level;
pub mod parser;
pub mod pattern;
pub mod record;
pub mod seqs;
pub mod source;
pub mod style;
pub mod text;
pub mod timeindex;
pub mod timestamp;
pub mod ui;
