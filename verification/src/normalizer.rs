//! The program-output normalizer's own surface: the command-line arguments
//! it runs with, and the error record it reports a failed run as.

use vstd::prelude::*;
use crate::numerals::spec_parse_u32;
use crate::numerals::parse_u32_range;
use crate::version::Version;

verus! {

use vstd::string::StrSliceExecFns;

/// The normalizer's arguments: the config version, the config type, and the
/// command whose output is normalized.
#[derive(Debug, Clone)]
pub struct Program {
    /// Version of config file.
    pub version: Version,
    /// Config type.
    pub config: String,
    /// Command to normalize the output.
    pub command: String,
}

/// A failed run: the config version it ran under and the error text.
#[derive(Clone, Debug)]
pub struct Error {
    pub version: Version,
    pub error: String,
}

impl Error {
    /// Record an error under the version it occurred with.
    pub fn new(version: Version, error: String) -> (e: Error)
        ensures
            e.version == version,
            e.error == error,
    {
        Error { version, error }
    }
}

/// What the flags from position `i` on parse to, given what was already
/// collected: pairs of a flag and its value, where `-v`/`--version` takes a
/// decimal version, `--config` the config type, and `-c`/`--command` the
/// command; a later flag overrides an earlier one, and in the end all three
/// must be present.
pub open spec fn spec_parse_flags(
    args: Seq<Seq<char>>,
    i: int,
    v: Option<u32>,
    c: Option<Seq<char>>,
    m: Option<Seq<char>>,
) -> Option<(u32, Seq<char>, Seq<char>)>
    decreases args.len() - i,
{
    if i >= args.len() {
        if v is Some && c is Some && m is Some {
            Some((v.unwrap(), c.unwrap(), m.unwrap()))
        } else {
            None
        }
    } else if i + 1 >= args.len() {
        None
    } else {
        let f = args[i];
        let val = args[i + 1];
        if f == "-v"@ || f == "--version"@ {
            match spec_parse_u32(val) {
                Some(n) => spec_parse_flags(args, i + 2, Some(n), c, m),
                None => None,
            }
        } else if f == "--config"@ {
            spec_parse_flags(args, i + 2, v, Some(val), m)
        } else if f == "-c"@ || f == "--command"@ {
            spec_parse_flags(args, i + 2, v, c, Some(val))
        } else {
            None
        }
    }
}

/// What an argument list parses to: the program name, then flag and value
/// pairs.
pub open spec fn spec_parse_args(args: Seq<Seq<char>>) -> Option<(u32, Seq<char>, Seq<char>)> {
    if args.len() < 1 {
        None
    } else {
        spec_parse_flags(args, 1, None, None, None)
    }
}

/// The views of an argument list.
pub open spec fn arg_views(args: Seq<String>) -> Seq<Seq<char>> {
    args.map_values(|s: String| s@)
}

impl Program {
    /// Parse an argument list: the program name, then `-v`/`--version` with
    /// a decimal version, `--config` with the config type, and
    /// `-c`/`--command` with the command, in any order; every flag needs its
    /// value and all three must appear.
    #[verifier::loop_isolation(false)]
    pub fn parse_args(args: &Vec<String>) -> (r: Option<Program>)
        ensures
            match r {
                Some(p) => spec_parse_args(arg_views(args@)) == Some(
                    (p.version.0, p.config@, p.command@),
                ),
                None => spec_parse_args(arg_views(args@)) is None,
            },
    {
        let n = args.len();
        if n < 1 {
            return None;
        }
        let f_v: String = "-v".to_owned();
        let f_version: String = "--version".to_owned();
        let f_config: String = "--config".to_owned();
        let f_c: String = "-c".to_owned();
        let f_command: String = "--command".to_owned();
        let mut v: Option<u32> = None;
        let mut c: Option<String> = None;
        let mut m: Option<String> = None;
        let mut i: usize = 1;
        while i < n
            invariant
                1 <= i,
                spec_parse_args(arg_views(args@)) == spec_parse_flags(
                    arg_views(args@),
                    i as int,
                    v,
                    opt_view(c),
                    opt_view(m),
                ),
            decreases n + 2 - i,
        {
            if i + 1 >= n {
                return None;
            }
            let flag = &args[i];
            let val = &args[i + 1];
            if *flag == f_v || *flag == f_version {
                let parsed = parse_u32_range(val.as_str(), 0, val.as_str().unicode_len());
                proof {
                    assert(val@.subrange(0, val@.len() as int) =~= val@);
                }
                match parsed {
                    Some(nv) => {
                        v = Some(nv);
                    }
                    None => {
                        return None;
                    }
                }
            } else if *flag == f_config {
                c = Some(val.clone());
            } else if *flag == f_c || *flag == f_command {
                m = Some(val.clone());
            } else {
                return None;
            }
            i = i + 2;
        }
        match (v, c, m) {
            (Some(vv), Some(cc), Some(mm)) => Some(
                Program { version: Version(vv), config: cc, command: mm },
            ),
            _ => None,
        }
    }
}

/// The view of an optional name.
pub open spec fn opt_view(s: Option<String>) -> Option<Seq<char>> {
    match s {
        Some(x) => Some(x@),
        None => None,
    }
}

} // verus!
