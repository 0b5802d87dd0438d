//! Start-up settings taken from the command line.
use vstd::prelude::*;

use crate::text::str_eq;

verus! {

pub open spec fn directory_flag() -> Seq<char> {
    seq!['-', '-', 'd', 'i', 'r', 'e', 'c', 't', 'o', 'r', 'y']
}

/// The value of the last `--directory` among the first `pairs` flag/value pairs
/// that follow the program name.
pub open spec fn spec_directory(args: Seq<Seq<char>>, pairs: int) -> Option<Seq<char>>
    decreases pairs,
{
    if pairs <= 0 {
        None
    } else if args[2 * pairs - 1] == directory_flag() {
        Some(args[2 * pairs])
    } else {
        spec_directory(args, pairs - 1)
    }
}

pub open spec fn arg_texts(args: Seq<String>) -> Seq<Seq<char>> {
    args.map_values(|s: String| s@)
}

/// The server's settings.
pub struct Config {
    /// Where the file routes read and write.
    pub directory: Option<String>,
}

impl Config {
    /// Reads the flag/value pairs that follow the program name; a last flag
    /// without a value is ignored.
    pub fn from_args(args: &Vec<String>) -> (r: Config)
        ensures
            match spec_directory(arg_texts(args@), if args@.len() == 0 {
                0
            } else {
                (args@.len() - 1) / 2
            }) {
                Some(d) => r.directory matches Some(s) && s@ == d,
                None => r.directory is None,
            },
    {
        proof {
            reveal_strlit("--directory");
            assert("--directory"@ =~= directory_flag());
        }
        let pairs: usize = if args.len() == 0 {
            0
        } else {
            (args.len() - 1) / 2
        };
        assert(args.len() == 0 || 2 * pairs + 1 <= args.len()) by (nonlinear_arith)
            requires
                pairs == (if args.len() == 0 {
                    0
                } else {
                    (args.len() - 1) / 2
                }),
        ;
        let mut directory: Option<String> = None;
        let mut p: usize = 0;
        while p < pairs
            invariant
                p <= pairs,
                args.len() == 0 || 2 * pairs + 1 <= args.len(),
                pairs == (if args@.len() == 0 {
                    0
                } else {
                    (args@.len() - 1) / 2
                }),
                "--directory"@ == directory_flag(),
                match spec_directory(arg_texts(args@), p as int) {
                    Some(d) => directory matches Some(s) && s@ == d,
                    None => directory is None,
                },
            decreases pairs - p,
        {
            let flag = 2 * p + 1;
            if str_eq(args[flag].as_str(), "--directory") {
                directory = Some(args[flag + 1].clone());
            }
            p = p + 1;
        }
        Config { directory }
    }
}

} // verus!
