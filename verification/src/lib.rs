//! A pluggable cryptanalysis framework for RSA public-key parameters.
//!
//! Given a public modulus and exponent, an [`Attack`] tries to recover the
//! private key by exploiting a specific weakness.  The crate fixes the
//! attack contract, the parameter and result data model, and the
//! private-key reconstruction from two factors, and ships one concrete
//! attack: bounded small-prime trial division.

use vstd::prelude::*;

pub mod arith;
pub mod attack;
pub mod bigint;
pub mod key;
pub mod primes;
pub mod progress;

use crate::bigint::{int_of, integer_from_u64};

verus! {

/// Why an attack produced no key.
#[derive(Debug, Clone, Copy, PartialEq, Eq, Structural)]
pub enum Error {
    /// A field this attack needs is absent from the [`Parameters`].
    MissingParameters,
    /// The attack's search space was exhausted — or a discovered factor
    /// pair yielded no usable key — without success.
    NotFound,
}

/// The public/known values of one RSA instance under attack.  Read-only for
/// the duration of an attack.
pub struct Parameters {
    /// Public exponent; always present.
    pub e: num_bigint::BigInt,
    /// Modulus, when known.
    pub n: Option<num_bigint::BigInt>,
}

impl Parameters {
    /// The modulus as a mathematical value, when present.
    pub open spec fn n_val(self) -> Option<int> {
        match self.n {
            Some(n) => Some(int_of(n)),
            None => None,
        }
    }
}

impl Default for Parameters {
    /// The exponent defaults to 65537, the usual RSA public exponent;
    /// everything else is unknown.
    fn default() -> (r: Parameters)
        ensures
            int_of(r.e) == 65537,
            r.n is None,
    {
        Parameters { e: integer_from_u64(65537), n: None }
    }
}

/// What a successful attack recovered: a private key, a plaintext, or both.
/// At least one of the two is present on success.
pub type SolvedRsa = (Option<key::PrivateKey>, Option<num_bigint::BigInt>);

/// One cryptanalytic method, as a uniform, stateless unit of work.
pub trait Attack {
    /// The attack's stable, human-readable name, for reporting.
    fn name(&self) -> &'static str;

    /// Attempt the attack once, synchronously, to completion or to the
    /// exhaustion of its own search space.  On success the result carries a
    /// key or a plaintext; a key is consistent — `d` inverts `e` modulo
    /// `(p-1)*(q-1)` — and its factors multiply to the given modulus.
    fn run(&self, params: &Parameters, progress: &mut progress::Progress) -> (r: Result<
        SolvedRsa,
        Error,
    >)
        ensures
            r matches Ok(sol) ==> sol.0 is Some || sol.1 is Some,
            r matches Ok(sol) ==> (sol.0 matches Some(k) ==> k.wf() && int_of(k.e) == int_of(
                params.e,
            ) && (params.n matches Some(n) ==> int_of(k.p) * int_of(k.q) == int_of(n))),
    ;
}

} // verus!
