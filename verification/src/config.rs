//! The resolved configuration of one search.

use crate::lines::chars_of;
use vstd::prelude::*;

verus! {

/// What to search for, where, and how to compare.
pub struct Config {
    /// The substring to look for.
    pub query: String,
    /// The path of the file whose contents are searched.
    pub file_path: String,
    /// Whether lines and query are compared in lower case.
    pub ignore_case: bool,
}

/// Whether the value of the case switch, where one is set, turns it on:
/// the values `1` and `true` do, and no other.
pub open spec fn switch_on(value: Option<Seq<char>>) -> bool {
    match value {
        Some(v) => v == seq!['1'] || v == seq!['t', 'r', 'u', 'e'],
        None => false,
    }
}

/// Whether two string slices hold the same characters.
fn same_text(a: &str, b: &str) -> (same: bool)
    ensures
        same == (a@ == b@),
{
    let left = chars_of(a);
    let right = chars_of(b);
    if left.len() != right.len() {
        return false;
    }
    let mut i: usize = 0;
    while i < left.len()
        invariant
            left.len() == right.len(),
            i <= left.len(),
            left@ == a@,
            right@ == b@,
            forall|k: int| 0 <= k < i ==> left@[k] == right@[k],
        decreases left.len() - i,
    {
        if left[i] != right[i] {
            return false;
        }
        i = i + 1;
    }
    proof {
        assert(a@ =~= b@);
    }
    true
}

impl Config {
    /// Reads a configuration from positional arguments: the program's name,
    /// the query and the file path, in this order. `ignore_case` is the
    /// value of the case switch, where one is set.
    pub fn build(args: Vec<String>, ignore_case: Option<&str>) -> (built: Result<
        Config,
        &'static str,
    >)
        ensures
            args@.len() < 2 ==> built is Err && built->Err_0@ == "Didn't get a query string"@,
            args@.len() == 2 ==> built is Err && built->Err_0@ == "Didn't get a file path"@,
            args@.len() > 2 ==> built is Ok && built->Ok_0.query@ == args@[1]@
                && built->Ok_0.file_path@ == args@[2]@ && built->Ok_0.ignore_case == switch_on(
                match ignore_case {
                    Some(v) => Some(v@),
                    None => None,
                },
            ),
    {
        if args.len() < 2 {
            return Err("Didn't get a query string");
        }
        if args.len() < 3 {
            return Err("Didn't get a file path");
        }
        let on: bool = match ignore_case {
            Some(v) => {
                proof {
                    reveal_strlit("1");
                    reveal_strlit("true");
                    assert("1"@ =~= seq!['1']);
                    assert("true"@ =~= seq!['t', 'r', 'u', 'e']);
                }
                same_text(v, "1") || same_text(v, "true")
            },
            None => false,
        };
        Ok(Config { query: args[1].clone(), file_path: args[2].clone(), ignore_case: on })
    }

    /// Makes a configuration from the values of a parsed command line. Case
    /// is ignored where `ignore_case` is `1`.
    pub fn build_with_cli(keyword: String, file_path: String, ignore_case: u8) -> (built: Result<
        Config,
        &'static str,
    >)
        ensures
            built is Ok,
            built->Ok_0.query == keyword,
            built->Ok_0.file_path == file_path,
            built->Ok_0.ignore_case == (ignore_case == 1),
    {
        Ok(Config { query: keyword, file_path, ignore_case: ignore_case == 1 })
    }
}

} // verus!
