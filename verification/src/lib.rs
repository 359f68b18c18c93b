//! A minimal line-based text search library.
//!
//! Given a pattern and the full text of a file, the library returns every
//! line of the text that contains the pattern as a substring, in original
//! order, either case-sensitively or after lowercasing both sides.
//! Reading the file and printing the matches are left to the caller; the
//! library works on plain strings and is verified end to end.

mod config;
mod lines;
mod matching;
mod search;

pub use config::Config;
pub use config::RunError;
pub use config::lemma_run_deterministic;
pub use config::message_spec;
pub use config::run;
pub use config::run_spec;
pub use lines::first_newline;
pub use lines::lines_spec;
pub use lines::split_lines;
pub use lines::strip_cr;
pub use matching::contains_seq;
pub use matching::contains_substring;
pub use matching::lemma_contains_at;
pub use matching::lower_char;
pub use matching::lower_seq;
pub use matching::normalize;
pub use search::lemma_case_insensitive_superset;
pub use search::lemma_empty_pattern;
pub use search::lemma_search_len;
pub use search::search;
pub use search::search_case_insensitive;
pub use search::search_ci_spec;
pub use search::search_spec;
