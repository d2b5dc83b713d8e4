//! Small helpers on strings and vectors of strings.
use vstd::prelude::*;

verus! {

/// Whether a string equals a literal.
pub fn str_is(s: &String, lit: &str) -> (r: bool)
    ensures
        r == (s@ == lit@),
{
    let t = lit.to_string();
    proof {
        vstd::string::to_string_from_display_ensures_for_str(lit, t);
    }
    *s == t
}

/// An owned copy of a string slice.
pub fn owned(s: &str) -> (r: String)
    ensures
        r@ == s@,
{
    let t = s.to_string();
    proof {
        vstd::string::to_string_from_display_ensures_for_str(s, t);
    }
    t
}

} // verus!
