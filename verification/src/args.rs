//! Small helpers for resolving a configuration from an argument list:
//! comparing an argument against a flag, spotting a flag by its leading
//! dash, and the abstract reasons a parse can fail.

use vstd::prelude::*;
use vstd::string::StrSliceExecFns;

verus! {

/// Why an argument list fails to resolve into a configuration. Each
/// carried index names the offending argument.
pub enum ParseIssue {
    /// A dash-led token that no tool recognises.
    UnknownArg(usize),
    /// Help was asked for; no configuration is built.
    Help,
    /// The cipher tool was given no file to work on.
    NoFiles,
    /// The cipher keyword at this position is empty or not purely
    /// alphabetic.
    InvalidKey(usize),
    /// The cipher tool was given no keyword at all.
    MissingKey,
    /// The filter tool was given no pattern.
    NoPattern,
    /// `-o` or `--output` stood last, with no file name after it.
    NoOutFile,
}

/// The characters of an optional argument.
pub open spec fn opt_view(o: Option<String>) -> Option<Seq<char>> {
    match o {
        Option::None => Option::None,
        Option::Some(s) => Option::Some(s@),
    }
}

/// Character-for-character equality of an argument and a flag.
pub fn str_eq(a: &String, lit: &str) -> (r: bool)
    ensures
        r == (a@ == lit@),
{
    let o: String = lit.to_owned();
    a.eq(&o)
}

/// The argument begins with a dash, so it is read as a flag.
pub fn starts_dash(a: &String) -> (r: bool)
    ensures
        r == (a@.len() > 0 && a@[0] == '-'),
{
    let s = a.as_str();
    if s.is_empty() {
        false
    } else {
        s.get_char(0) == '-'
    }
}

} // verus!
