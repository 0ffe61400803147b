//! What the user's answers to questions mean.

use vstd::prelude::*;

use crate::text::str_eq;

verus! {

/// An answer to a yes-or-no question counts as yes only where it is `Y` or `y`.
pub fn is_yes(answer: &str) -> (yes: bool)
    ensures
        yes == (answer@ == "Y"@ || answer@ == "y"@),
{
    str_eq(answer, "Y") || str_eq(answer, "y")
}

} // verus!
