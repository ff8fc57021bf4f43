//! Trimming of observed and supplied text. Every rule of the system speaks
//! of text with leading and trailing whitespace removed.

use vstd::prelude::*;

verus! {

/// What `str::trim` returns for a given string value.
pub uninterp spec fn trim_of(s: Seq<char>) -> Seq<char>;

/// Relies on str::trim: removes leading and trailing whitespace. The result
/// depends on the characters alone, and carries no leading or trailing
/// whitespace itself, so trimming it again changes nothing.
#[verifier::external_body]
pub(crate) fn trim_in(s: &str) -> (r: String)
    ensures
        r@ == trim_of(s@),
        trim_of(r@) == r@,
{
    s.trim().to_string()
}

} // verus!
