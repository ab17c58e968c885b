//! Harvests lyrics from a music library: walks a directory tree, matches each
//! audio file's artist tag against a filter, collects and de-duplicates the
//! lyrics frames of matching files, and renders the results for an append-only
//! output sink, together with a run report of counters and skipped paths.

pub mod cli;
pub mod codec;
pub mod config;
pub mod metadata;
pub mod report;
pub mod run;
pub mod scanner;
pub mod text;
pub mod writer;
