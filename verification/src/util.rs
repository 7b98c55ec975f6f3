//! Small shared helpers for query code.

use vstd::prelude::*;

verus! {

/// Returns the string held by `opt`, or `fallback` when `opt` is empty.
pub fn str_coalesce<'a>(opt: &'a Option<String>, fallback: &'a str) -> (r: &'a str)
    ensures
        match opt {
            Some(s) => r@ == s@,
            None => r@ == fallback@,
        },
{
    match opt {
        Some(s) => s.as_str(),
        None => fallback,
    }
}

} // verus!
