//! Configuration of one search run, and the errors a run can report.

use vstd::prelude::*;
use crate::matching::contains_seq;
use crate::matching::lemma_contains_at;
use crate::search::search;
use crate::search::search_case_insensitive;
use crate::search::search_ci_spec;
use crate::search::search_spec;

verus! {

/// What one search run needs: the pattern to look for, the path of the file
/// whose text is searched, and whether matching respects case.
#[derive(Debug)]
pub struct Config {
    /// the pattern
    pub pattern: String,
    /// the path
    pub path: String,
    /// case sensitive
    pub is_case_sensitive: bool,
}

/// What a run can fail with. No failure is silent: each carries enough to
/// name what went wrong, and a read failure names the path it tried.
#[derive(Debug)]
pub enum RunError {
    /// the pattern or the path argument was absent
    MissingArgument,
    /// the file at `path` could not be read
    ReadError { path: String },
}

impl Config {
    /// Builds a configuration from a positional argument list: the program
    /// name first, then the pattern, then the path. Matching is
    /// case-sensitive unless `case_insensitive` is set (the caller folds its
    /// environment or flags into that one explicit toggle).
    pub fn from_args(args: &Vec<String>, case_insensitive: bool) -> (r: Result<Config, RunError>)
        ensures
            args@.len() >= 3 ==> (r matches Ok(c) && c.pattern@ == args@[1]@ && c.path@
                == args@[2]@ && c.is_case_sensitive == !case_insensitive),
            args@.len() < 3 ==> r == Result::<Config, RunError>::Err(RunError::MissingArgument),
    {
        if args.len() < 3 {
            Err(RunError::MissingArgument)
        } else {
            Ok(
                Config {
                    pattern: args[1].clone(),
                    path: args[2].clone(),
                    is_case_sensitive: !case_insensitive,
                },
            )
        }
    }
}

/// The lines that the configured search returns on the given text: exact
/// matching when the configuration is case-sensitive, lowercased matching
/// otherwise.
pub open spec fn run_spec(config: Config, content: Seq<char>) -> Seq<Seq<char>> {
    if config.is_case_sensitive {
        search_spec(config.pattern@, content)
    } else {
        search_ci_spec(config.pattern@, content)
    }
}

/// Runs the configured search over the full text of the file. Reading the
/// file is the caller's part; a failure there is reported as
/// `RunError::ReadError` carrying the path.
pub fn run(config: &Config, content: &str) -> (matches: Vec<String>)
    ensures
        matches.deep_view() == run_spec(*config, content@),
{
    if config.is_case_sensitive {
        search(config.pattern.as_str(), content)
    } else {
        search_case_insensitive(config.pattern.as_str(), content)
    }
}

/// Running the search twice with identical inputs yields identical output:
/// the result is a function of the configuration and the text alone.
pub proof fn lemma_run_deterministic(
    config: Config,
    content: Seq<char>,
    first: Seq<Seq<char>>,
    second: Seq<Seq<char>>,
)
    requires
        first == run_spec(config, content),
        second == run_spec(config, content),
    ensures
        first == second,
{
}

/// The diagnostic message of each error.
pub open spec fn message_spec(e: RunError) -> Seq<char> {
    match e {
        RunError::MissingArgument => "missing pattern or path argument"@,
        RunError::ReadError { path } => "error reading `"@ + path@ + "`"@,
    }
}

impl RunError {
    /// A human-readable description of the failure; for a read failure it
    /// contains the path that could not be read.
    pub fn message(&self) -> (m: String)
        ensures
            m@ == message_spec(*self),
            *self matches RunError::ReadError { path } ==> contains_seq(m@, path@),
    {
        match self {
            RunError::MissingArgument => "missing pattern or path argument".to_owned(),
            RunError::ReadError { path } => {
                let mut m = "error reading `".to_owned();
                m.append(path.as_str());
                m.append("`");
                proof {
                    reveal_strlit("error reading `");
                    assert(m@.subrange(15, 15 + path@.len() as int) =~= path@);
                    lemma_contains_at(m@, path@, 15);
                }
                m
            },
        }
    }
}

} // verus!
