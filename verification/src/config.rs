use vstd::prelude::*;

use crate::ascii::eq_ignore_ascii;
use crate::ascii::lower_seq;

verus! {

/// What one invocation searches: the query, the file to search in,
/// and whether matching ignores ASCII case.
pub struct Config {
    pub query: String,
    pub file_path: String,
    pub ignore_case: bool,
}

/// The case mode an environment override resolves to: matching
/// ignores case unless the override is set to "false", compared
/// without regard to ASCII case.
pub open spec fn spec_ignore_case(env_value: Option<Seq<char>>) -> bool {
    match env_value {
        Option::Some(v) => lower_seq(v) != "false"@,
        Option::None => true,
    }
}

impl Config {
    /// Build a configuration from the raw argument list (the first
    /// entry is the program name) and the optional environment
    /// override for the case mode.
    pub fn build(args: Vec<String>, ignore_case_env: Option<String>) -> (r: Result<
        Config,
        &'static str,
    >)
        ensures
            match r {
                Ok(c) => {
                    &&& args@.len() >= 3
                    &&& c.query@ == args@[1]@
                    &&& c.file_path@ == args@[2]@
                    &&& c.ignore_case == spec_ignore_case(
                        match ignore_case_env {
                            Option::Some(v) => Option::Some(v@),
                            Option::None => Option::None,
                        },
                    )
                },
                Err(e) => args@.len() < 3 && e@ == "not enough arguments"@,
            },
    {
        if args.len() < 3 {
            return Err("not enough arguments");
        }
        let query = args[1].clone();
        let file_path = args[2].clone();
        let ignore_case = match &ignore_case_env {
            Option::Some(v) => {
                let disabled = eq_ignore_ascii(v.as_str(), "false");
                proof {
                    reveal_strlit("false");
                    assert(lower_seq("false"@) =~= "false"@);
                }
                !disabled
            },
            Option::None => true,
        };
        Ok(Config { query, file_path, ignore_case })
    }
}

} // verus!
