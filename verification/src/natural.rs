//! Natural ("human") ordering of names, as the `natord` crate defines it.
use std::cmp::Ordering;
use vstd::prelude::*;

verus! {

/// The result of `natord::compare` on two strings: -1 (less), 0 (equal) or
/// 1 (greater).
pub uninterp spec fn natural_order(a: Seq<char>, b: Seq<char>) -> i8;

/// Calls `natord::compare`, which orders strings character by character,
/// case-sensitively, skipping white space and comparing runs of ASCII digits
/// as numbers (a run that starts with `0` digit by digit). The
/// contract names its result (a function of the two strings alone) as
/// `natural_order`, mapped to -1, 0 or 1, and states that swapping the two
/// strings reverses it: the comparison reads both strings in lockstep and
/// treats them alike at every step.
#[verifier::external_body]
pub(crate) fn natural_compare(a: &str, b: &str) -> (r: i8)
    ensures
        r == natural_order(a@, b@),
        -1 <= r <= 1,
        natural_order(b@, a@) == -r,
{
    match natord::compare(a, b) {
        Ordering::Less => -1,
        Ordering::Equal => 0,
        Ordering::Greater => 1,
    }
}

} // verus!
