//! A personal structured-journal tracker: free-text entries carry inline
//! tags, a store keeps them ordered by time, a small query language filters
//! them, and an integer-scaled lookup table grades two-sample comparisons.
use vstd::prelude::*;

pub mod clock;
pub mod datapoint;
pub mod datastore;
pub mod datetime;
pub mod laws;
pub mod parsedquery;
pub mod queryresult;
pub mod text;
pub mod ttable;

verus! {

/// Sum of two machine words; the inputs must not overflow.
pub fn add(left: usize, right: usize) -> (r: usize)
    requires
        left + right <= usize::MAX,
    ensures
        r == left + right,
{
    left + right
}

/// A fixed greeting, kept for callers that probe the crate.
pub fn get_str() -> (r: &'static str)
    ensures
        r@ == "This string came from the domain"@,
{
    "This string came from the domain"
}

} // verus!
