//! The configuration of a search, as a command line gives it.

use vstd::prelude::*;
use crate::lines::texts;
use crate::search::{matching_lines, search, search_case_insensitive};

verus! {

/// What to search for, where, and how.
pub struct Config {
    pub query: String,
    pub file_path: String,
    pub ignore_case: bool,
}

impl Config {
    /// Reads a configuration off the arguments of a command line: the name of
    /// the program, the query, and the path of the file to search.
    /// Arguments after these three are ignored.
    pub fn build(args: &[String], ignore_case: bool) -> (built: Result<Config, &'static str>)
        ensures
            args@.len() < 2 ==> built is Err && built->Err_0@ == "Didn't get a query string"@,
            args@.len() == 2 ==> built is Err && built->Err_0@ == "Didn't get a file path"@,
            args@.len() > 2 ==> built is Ok && built->Ok_0.query@ == args@[1]@
                && built->Ok_0.file_path@ == args@[2]@ && built->Ok_0.ignore_case == ignore_case,
    {
        if args.len() < 2 {
            return Err("Didn't get a query string");
        }
        if args.len() < 3 {
            return Err("Didn't get a file path");
        }
        Ok(Config { query: args[1].clone(), file_path: args[2].clone(), ignore_case })
    }
}

/// The lines of `contents` that match the query of `config`, under the case
/// policy of `config`.
pub fn run<'a>(config: &Config, contents: &'a str) -> (found: Vec<&'a str>)
    ensures
        texts(found@) == matching_lines(config.query@, contents@, config.ignore_case),
{
    if config.ignore_case {
        search_case_insensitive(config.query.as_str(), contents)
    } else {
        search(config.query.as_str(), contents)
    }
}

} // verus!
