//! Trusted interface to the prime enumerator of the `primal` crate.
//!
//! `nth_prime` names the ascending enumeration of all primes that
//! `primal::Primes::all()` yields; `primes_yielded` is an enumerator's
//! position in it.

use vstd::prelude::*;
use crate::arith::is_prime;

verus! {

#[verifier::external_type_specification]
#[verifier::external_body]
pub struct ExPrimes(primal::Primes);

/// The value at position `i` (0-based) of primal's ascending enumeration of
/// the primes: 2, 3, 5, 7, ...
pub uninterp spec fn nth_prime(i: int) -> int;

/// How many primes an enumerator has yielded so far.
pub uninterp spec fn primes_yielded(it: primal::Primes) -> nat;

/// Relies on primal's `Primes::all`: a fresh enumerator over the sequence
/// 2, 3, 5, 7, 11, ...
#[verifier::external_body]
pub(crate) fn primes_new() -> (it: primal::Primes)
    ensures
        primes_yielded(it) == 0,
{
    primal::Primes::all()
}

/// Relies on primal's `Primes` iterator: it yields every prime exactly once,
/// in ascending order, indefinitely (bits in `usize` permitting, which the
/// position bound below keeps far out of reach).  Each value it hands out is
/// therefore a prime, larger than all earlier ones, and no prime below it is
/// skipped.
#[verifier::external_body]
pub(crate) fn primes_next(it: &mut primal::Primes) -> (p: u64)
    requires
        primes_yielded(*old(it)) < 100000000,
    ensures
        primes_yielded(*final(it)) == primes_yielded(*old(it)) + 1,
        p as int == nth_prime(primes_yielded(*old(it)) as int),
        is_prime(p as int),
        forall|j: int| 0 <= j < primes_yielded(*old(it)) ==> #[trigger] nth_prime(j) < p as int,
        forall|q: int|
            #[trigger] is_prime(q) && q < p as int ==> exists|j: int|
                0 <= j < primes_yielded(*old(it)) && q == nth_prime(j),
{
    it.next().unwrap() as u64
}

} // verus!
