use vstd::prelude::*;

verus! {

/// Always one hundred.
pub fn f() -> (r: Option<u32>)
    ensures
        r == Some(100u32),
{
    Some(100)
}

/// The predecessor of `n`, or `None` for zero.
pub fn pred(n: u32) -> (r: Option<u32>)
    ensures
        n == 0 ==> r is None,
        n > 0 ==> r == Some((n - 1) as u32),
{
    if n == 0 {
        None
    } else {
        Some(n - 1)
    }
}

} // verus!
