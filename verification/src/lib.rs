//! Lexical scanner for a small, dynamically-typed, C-like scripting language.
//!
//! The scanner turns raw source text into an ordered sequence of classified
//! tokens, collecting recoverable diagnostics along the way.  Every function
//! is verified against a mathematical model of the scan (`scan::scan_rest`).
use vstd::prelude::*;

pub mod laws;
pub mod scan;
pub mod scanner;
pub mod strutil;
pub mod token;
pub mod value;

verus! {

/// Full diagnostic text for a lexical error: `[line <N>] Error<loc>: <msg>`.
pub open spec fn report_text(line: nat, loc: Seq<char>, msg: Seq<char>) -> Seq<char> {
    "[line "@ + crate::strutil::dec_rep(line) + "] Error"@ + loc + ": "@ + msg
}

/// Formats a diagnostic with a location tag, as `[line <N>] Error<loc>: <msg>`.
fn report(line: usize, loc: &str, message: &str) -> (r: String)
    ensures
        r@ == report_text(line as nat, loc@, message@),
{
    let mut r = String::from_str("[line ");
    let digits = crate::strutil::usize_to_string(line);
    r.append(digits.as_str());
    r.append("] Error");
    r.append(loc);
    r.append(": ");
    r.append(message);
    r
}

/// Formats a diagnostic without a location tag, as `[line <N>] Error: <msg>`.
pub fn error_line(line: usize, message: &str) -> (r: String)
    ensures
        r@ == report_text(line as nat, Seq::<char>::empty(), message@),
{
    let r = report(line, "", message);
    proof {
        reveal_strlit("");
        assert(""@ =~= Seq::<char>::empty());
    }
    r
}

} // verus!
