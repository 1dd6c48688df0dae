//! The one source of randomness the library uses, behind a trusted
//! specification, and a verified helper that narrows a draw to a range.

use vstd::prelude::*;

verus! {

/// Relies on rand::random: draws one value of the type from the thread-local
/// generator. Nothing can be promised of the value itself.
pub assume_specification<T>[ rand::random::<T> ]() -> (r: T)
    where
        rand::distributions::Standard: rand::distributions::Distribution<T>,
;

/// A uniformly-drawn index below `n`, for picking spawn cells and for the
/// enemies' wander perturbation.
pub fn random_below(n: u32) -> (r: u32)
    requires
        n >= 1,
    ensures
        r < n,
{
    let v: u32 = rand::random::<u32>();
    v % n
}

} // verus!
