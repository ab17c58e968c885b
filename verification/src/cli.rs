//! The configuration surface the core consumes: the options exactly as they
//! arrive from the command line, before normalization.

use vstd::prelude::*;

verus! {

/// The two formats of the output sink.
#[derive(Debug, Clone, Copy, PartialEq, Eq, Structural)]
pub enum OutputFormat {
    Text,
    Json,
}

/// The command-line options, as plain values; reading them off the actual
/// command line happens outside the core.
#[derive(Debug, Clone)]
pub struct CliArgs {
    /// Root directory to scan; defaults to the current working directory.
    pub root: Option<String>,
    /// Output file to append lyrics to; defaults to lyrics.txt under the root.
    pub output: Option<String>,
    /// When set, perform the scan without writing to the output file.
    pub dry_run: bool,
    /// Case-insensitive substring to look for within the artist name.
    pub artist_filter: String,
    /// Comma-separated list of file extensions to scan (case-insensitive).
    pub extensions: String,
    /// Output formatting strategy for matched tracks.
    pub format: OutputFormat,
    /// Limit recursion depth when scanning (0 means root only).
    pub max_depth: Option<usize>,
    /// Follow directory symlinks while scanning.
    pub follow_symlinks: bool,
    /// Write a JSON summary report to the specified file.
    pub summary_json: Option<String>,
    /// Reduce log verbosity to errors only.
    pub quiet: bool,
}

} // verus!
