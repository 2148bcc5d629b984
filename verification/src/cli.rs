//! The options of the command line, as plain values.

use vstd::prelude::*;

verus! {

/// The options given without a subcommand, and the subcommand if there is one.
#[derive(Debug, PartialEq, Eq)]
pub struct Args {
    /// Search pattern, used when no subcommand is given.
    pub pattern: Option<String>,
    /// Files or directories to search, used when no subcommand is given.
    pub paths: Vec<String>,
    /// Skip parsing and list the files only.
    pub files_only: bool,
    /// Patterns to ignore, beside the usual ones.
    pub ignore: Vec<String>,
    /// Leave out files whose names match query words.
    pub exclude_filenames: bool,
    /// The ranking of the results.
    pub reranker: String,
    /// Search by term frequency, with stemming and stop words.
    pub frequency_search: bool,
    /// Search for the exact pattern, without tokenisation.
    pub exact: bool,
    /// The largest number of results.
    pub max_results: Option<usize>,
    /// The largest number of bytes of code.
    pub max_bytes: Option<usize>,
    /// The largest number of tokens of code.
    pub max_tokens: Option<usize>,
    /// Let test files and test code into the results.
    pub allow_tests: bool,
    /// Do not merge blocks that lie close together.
    pub no_merge: bool,
    /// The number of lines up to which blocks are merged.
    pub merge_threshold: Option<usize>,
    /// Show file names and line numbers only.
    pub dry_run: bool,
    /// The output format.
    pub format: String,
    /// The session that caches results.
    pub session: Option<String>,
    /// The time limit of a search, in seconds.
    pub timeout: u64,
    pub command: Option<Commands>,
}

/// The subcommands.
#[derive(Debug, PartialEq, Eq)]
pub enum Commands {
    /// Search code by pattern, with ranking.
    Search {
        pattern: String,
        paths: Vec<String>,
        files_only: bool,
        ignore: Vec<String>,
        exclude_filenames: bool,
        reranker: String,
        frequency_search: bool,
        exact: bool,
        language: Option<String>,
        max_results: Option<usize>,
        max_bytes: Option<usize>,
        max_tokens: Option<usize>,
        allow_tests: bool,
        no_merge: bool,
        merge_threshold: Option<usize>,
        dry_run: bool,
        format: String,
        session: Option<String>,
        timeout: u64,
    },
    /// Extract code blocks from files.
    Extract {
        files: Vec<String>,
        ignore: Vec<String>,
        context_lines: usize,
        format: String,
        from_clipboard: bool,
        input_file: Option<String>,
        to_clipboard: bool,
        dry_run: bool,
        diff: bool,
        allow_tests: bool,
        keep_input: bool,
        prompt: Option<String>,
        instructions: Option<String>,
    },
    /// Search code by a pattern over the syntax tree.
    Query {
        pattern: String,
        path: String,
        language: Option<String>,
        ignore: Vec<String>,
        allow_tests: bool,
        max_results: Option<usize>,
        format: String,
    },
    /// Run the benchmarks.
    Benchmark {
        bench: Option<String>,
        sample_size: Option<usize>,
        format: String,
        output: Option<String>,
        compare: bool,
        baseline: Option<String>,
        fast: bool,
    },
}

} // verus!
