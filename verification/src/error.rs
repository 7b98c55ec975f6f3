//! The library's terminal failure: an operation that had to give up
//! after telling the operator why.

use vstd::prelude::*;

verus! {

/// A run that ends early on purpose: the cause was already shown to the
/// operator, so the value itself carries no further detail.
#[derive(Debug, Clone)]
pub struct MixxxkitExit;

impl MixxxkitExit {
    /// The one-line description a caller may print.
    pub fn message(&self) -> (r: String)
        ensures
            r@ == "Mixxxkit error"@,
    {
        String::from_str("Mixxxkit error")
    }
}

} // verus!
