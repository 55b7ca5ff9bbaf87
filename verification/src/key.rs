//! Private-key reconstruction: the shared final step of every
//! factor-producing attack.

use vstd::prelude::*;
use crate::arith::{inverse_exists, is_mod_inverse};
use crate::bigint::{int_of, integer_from_u64, integer_modinv, integer_mul, integer_sub_one,
    u64_ge_integer};
use crate::Error;

verus! {

/// The secret material of a two-prime RSA key: the factors, the public
/// exponent, and the private exponent derived from them.
pub struct PrivateKey {
    /// First prime factor.
    pub p: num_bigint::BigInt,
    /// Second prime factor.
    pub q: num_bigint::BigInt,
    /// Public exponent.
    pub e: num_bigint::BigInt,
    /// Private exponent: the inverse of `e` modulo `(p-1)*(q-1)`.
    pub d: num_bigint::BigInt,
}

impl PrivateKey {
    /// Euler's totient of the key's factorization: `(p-1)*(q-1)`.
    pub open spec fn phi(self) -> int {
        (int_of(self.p) - 1) * (int_of(self.q) - 1)
    }

    /// The key is consistent: `d` is the canonical inverse of `e` modulo
    /// `phi`.
    pub open spec fn wf(self) -> bool {
        is_mod_inverse(int_of(self.e), int_of(self.d), self.phi())
    }

    /// Reconstruct the key from two discovered factors and the public
    /// exponent.  `d` is the modular inverse of `e` modulo `(p-1)*(q-1)`;
    /// when no inverse exists, the factor pair yields no usable key and the
    /// reconstruction fails with `NotFound`, exactly then.
    pub fn from_p_q(p: num_bigint::BigInt, q: num_bigint::BigInt, e: num_bigint::BigInt) -> (r: Result<
        PrivateKey,
        Error,
    >)
        requires
            int_of(p) >= 2,
            int_of(q) >= 2,
        ensures
            (r is Ok) == inverse_exists(int_of(e), (int_of(p) - 1) * (int_of(q) - 1)),
            r matches Ok(key) ==> int_of(key.p) == int_of(p) && int_of(key.q) == int_of(q)
                && int_of(key.e) == int_of(e) && key.wf(),
            r is Err ==> r == Err::<PrivateKey, Error>(Error::NotFound),
    {
        let p1 = integer_sub_one(&p);
        let q1 = integer_sub_one(&q);
        let phi = integer_mul(&p1, &q1);
        proof {
            assert(int_of(phi) >= 1) by (nonlinear_arith)
                requires
                    int_of(phi) == (int_of(p) - 1) * (int_of(q) - 1),
                    int_of(p) >= 2,
                    int_of(q) >= 2,
            ;
        }
        if u64_ge_integer(1, &phi) {
            // phi is 1: everything is congruent modulo 1, so the canonical
            // inverse is 0 and the reconstruction always succeeds.
            proof {
                assert((int_of(e) * 0) % 1int == 1int % 1int);
                assert(is_mod_inverse(int_of(e), 0, 1));
            }
            return Ok(PrivateKey { p, q, e, d: integer_from_u64(0) });
        }
        match integer_modinv(&e, &phi) {
            Some(d) => Ok(PrivateKey { p, q, e, d }),
            None => Err(Error::NotFound),
        }
    }
}

} // verus!
