//! Two tiny documented functions kept as the crate's simplest examples.

use vstd::prelude::*;

verus! {

/// Always produces the value one hundred.
pub fn my_func() -> (r: Option<u32>)
    ensures
        r == Some(100u32),
{
    Some(100)
}

/// The number one before `n`; zero has none.
pub fn pred(n: u32) -> (r: Option<u32>)
    ensures
        n == 0 ==> r is None,
        n > 0 ==> r == Some((n - 1) as u32),
{
    if n == 0 {
        None
    } else {
        Some(n - 1)
    }
}

} // verus!
