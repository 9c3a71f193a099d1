//! The resolved configuration of one search run: what to look for, where,
//! and under which case policy.
//!
//! Resolving the policy itself (for instance from an environment flag) is the
//! caller's business; this module only validates the positional arguments.

use vstd::prelude::*;

verus! {

/// A validated search configuration.
pub struct Config {
    pub query: String,
    pub filename: String,
    pub case_sensitive: bool,
}

impl Config {
    /// Builds a configuration from the positional arguments of a run.  The
    /// first argument is the program name and is ignored; the second is the
    /// query and the third the filename.  A missing query or filename is
    /// reported as an error naming the missing argument.
    pub fn new(args: Vec<String>, case_sensitive: bool) -> (result: Result<Config, &'static str>)
        ensures
            args@.len() >= 3 ==> (match result {
                Ok(config) => config.query@ == args@[1]@ && config.filename@ == args@[2]@
                    && config.case_sensitive == case_sensitive,
                Err(_) => false,
            }),
            args@.len() < 2 ==> (match result {
                Ok(_) => false,
                Err(message) => message@ == "Did not get a query string"@,
            }),
            args@.len() == 2 ==> (match result {
                Ok(_) => false,
                Err(message) => message@ == "Did not get a filename string"@,
            }),
    {
        if args.len() < 2 {
            return Err("Did not get a query string");
        }
        if args.len() < 3 {
            return Err("Did not get a filename string");
        }
        let query = args[1].clone();
        let filename = args[2].clone();
        Ok(Config { query, filename, case_sensitive })
    }
}

} // verus!
