//! Small string helpers shared by the modules.

use vstd::prelude::*;

verus! {

/// Compares two string slices by their characters (`<str as PartialEq>::eq`).
/// Trusted: std documents `==` on `str` as equality of the two character sequences.
#[verifier::external_body]
pub(crate) fn str_eq(a: &str, b: &str) -> (r: bool)
    ensures
        r == (a@ == b@),
{
    a == b
}

} // verus!
