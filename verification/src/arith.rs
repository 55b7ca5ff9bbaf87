//! Number-theoretic specifications shared by the attacks, and the lemmas
//! about modular inverses that the key reconstruction rests on.

use vstd::prelude::*;
use vstd::arithmetic::div_mod::{
    lemma_fundamental_div_mod_converse, lemma_mul_mod_noop_left, lemma_mul_mod_noop_right,
    lemma_small_mod,
};
use vstd::arithmetic::mul::lemma_mul_is_associative;

verus! {

/// `p` is a prime number.
pub open spec fn is_prime(p: int) -> bool {
    2 <= p && forall|d: int| 2 <= d < p ==> #[trigger] (p % d) != 0
}

/// `d` is the canonical inverse of `x` modulo `m`: the representative in
/// [0, m) whose product with `x` is congruent to 1.
pub open spec fn is_mod_inverse(x: int, d: int, m: int) -> bool {
    0 <= d < m && (x * d) % m == 1int % m
}

/// An inverse of `x` modulo `m` exists.
pub open spec fn inverse_exists(x: int, m: int) -> bool {
    exists|d: int| is_mod_inverse(x, d, m)
}

/// The inverse of `x` modulo `m` is unique: there is at most one
/// representative of it in [0, m).
pub proof fn lemma_mod_inverse_unique(x: int, d1: int, d2: int, m: int)
    requires
        1 <= m,
        is_mod_inverse(x, d1, m),
        is_mod_inverse(x, d2, m),
    ensures
        d1 == d2,
{
    if m == 1 {
        assert(d1 == 0 && d2 == 0);
    } else {
        lemma_small_mod(1nat, m as nat);
        lemma_small_mod(d1 as nat, m as nat);
        lemma_small_mod(d2 as nat, m as nat);
        assert((x * d1) % m == 1);
        assert((x * d2) % m == 1);
        lemma_mul_mod_noop_right(d1, x * d2, m);
        assert((d1 * (x * d2)) % m == (d1 * 1) % m);
        lemma_mul_is_associative(d1, x, d2);
        lemma_mul_mod_noop_left(d1 * x, d2, m);
        assert(((d1 * x) * d2) % m == (((d1 * x) % m) * d2) % m);
        assert(d1 * x == x * d1);
        assert((((d1 * x) % m) * d2) % m == (1 * d2) % m);
        assert(d1 == d2);
    }
}

/// When `n` is the product of `p` and `q` with `p` positive, `q` is the
/// quotient of `n` by `p`, and the division is exact.
pub proof fn lemma_quotient_of_product(n: int, p: int, q: int)
    requires
        1 <= p,
        n == p * q,
    ensures
        n % p == 0,
        q == n / p,
{
    assert(p * q == q * p);
    lemma_fundamental_div_mod_converse(n, p, q, 0);
}

} // verus!
