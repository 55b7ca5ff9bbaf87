//! Bounded small-prime trial division: cheap and narrow, meant to be tried
//! early in a larger attack sequence.
//!
//! The modulus is divided by each of the first [`CANDIDATE_BOUND`] primes in
//! ascending order.  The search stops at the first candidate that reaches
//! the modulus, succeeds at the first that divides it, and gives up when the
//! bound is exhausted.

use vstd::prelude::*;
use crate::arith::{inverse_exists, is_mod_inverse, is_prime, lemma_mod_inverse_unique,
    lemma_quotient_of_product};
use crate::bigint::{int_of, integer_clone, integer_div_exact_u64, integer_divisible_u64,
    integer_from_u64, u64_ge_integer};
use crate::key::PrivateKey;
use crate::primes::{nth_prime, primes_new, primes_next, primes_yielded};
use crate::progress::{observations_bounded, Progress};
use crate::{Attack, Error, Parameters, SolvedRsa};

verus! {

/// How many candidate primes the search examines before giving up.
pub const CANDIDATE_BOUND: u64 = 1000000;

/// How many candidates pass between two progress reports.
pub const REPORT_STEP: u64 = 10000;

/// Candidate `j` was examined and passed: it stayed below the modulus and
/// did not divide it.
pub open spec fn candidate_passed(n: int, j: int) -> bool {
    nth_prime(j) < n && n % nth_prime(j) != 0
}

/// Every candidate before `i` passed.
pub open spec fn all_passed(n: int, i: int) -> bool {
    forall|j: int| 0 <= j < i ==> #[trigger] candidate_passed(n, j)
}

/// `p` is the factor this search finds for modulus `n`: the least prime
/// factor of `n`, a proper divisor, and one of the first
/// [`CANDIDATE_BOUND`] primes.
pub open spec fn found_factor(n: int, p: int) -> bool {
    &&& is_prime(p)
    &&& p < n
    &&& n % p == 0
    &&& forall|r: int| #[trigger] is_prime(r) && r < p ==> n % r != 0
    &&& exists|i: int| 0 <= i < CANDIDATE_BOUND && p == #[trigger] nth_prime(i)
}

/// The search succeeds on exponent `e` and modulus `n`: a factor is found
/// and the exponent is invertible under the factorization it gives.
pub open spec fn attack_succeeds(e: int, n: int) -> bool {
    exists|p: int| #[trigger] found_factor(n, p) && inverse_exists(e, (p - 1) * (n / p - 1))
}

/// Everything the attack returns, as a function of the exponent and the
/// optional modulus alone.
pub open spec fn run_post(e: int, n: Option<int>, r: Result<SolvedRsa, Error>) -> bool {
    &&& (n is None) == (r == Err::<SolvedRsa, Error>(Error::MissingParameters))
    &&& (n matches Some(nv) ==> {
        &&& (r is Ok) == attack_succeeds(e, nv)
        &&& (r matches Ok(sol) ==> sol.1 is None && (sol.0 matches Some(key)
            && found_factor(nv, int_of(key.p))
            && int_of(key.p) * int_of(key.q) == nv
            && int_of(key.e) == e
            && key.wf()))
        &&& (!attack_succeeds(e, nv) ==> r == Err::<SolvedRsa, Error>(Error::NotFound))
    })
}

/// Small prime attack
pub struct SmallPrimeAttack;

impl SmallPrimeAttack {
    /// The attack's stable name, for reporting and deduplication by a
    /// driver.
    pub fn name(&self) -> (r: &'static str)
        ensures
            r@ == "small_prime"@,
    {
        "small_prime"
    }

    /// Test whether the modulus has a factor among the first
    /// [`CANDIDATE_BOUND`] primes, by direct division, and reconstruct the
    /// private key from the first factor found.  When a sink is attached,
    /// the target length is announced once up front and every
    /// [`REPORT_STEP`] candidates the sink advances by [`REPORT_STEP`];
    /// reporting never affects the outcome.
    pub fn run(&self, params: &Parameters, progress: &mut Progress) -> (r: Result<
        SolvedRsa,
        Error,
    >)
        ensures
            run_post(int_of(params.e), params.n_val(), r),
            params.n is Some ==> final(progress).length == CANDIDATE_BOUND
                && final(progress).advanced <= CANDIDATE_BOUND
                && observations_bounded(final(progress).observed@, CANDIDATE_BOUND),
            params.n is Some ==> forall|k: int|
                0 <= k < final(progress).observed@.len() ==> final(progress).observed@[k] as int
                    == (k + 1) * (REPORT_STEP as int),
            params.n matches Some(m) && all_passed(int_of(m), CANDIDATE_BOUND as int)
                ==> final(progress).advanced == CANDIDATE_BOUND,
            params.n is None ==> *final(progress) == *old(progress),
            final(progress).bar == old(progress).bar,
    {
        let ghost e_val: int = int_of(params.e);
        let n = match &params.n {
            Some(n) => n,
            None => {
                return Err(Error::MissingParameters);
            },
        };
        let ghost nv: int = int_of(*n);
        progress.begin(CANDIDATE_BOUND);
        let mut it = primes_new();
        let mut i: u64 = 0;
        let mut until_report: u64 = 0;
        let ghost mut reports: int = 0;
        while i < CANDIDATE_BOUND
            invariant
                params.n matches Some(m) && int_of(m) == nv,
                int_of(*n) == nv,
                int_of(params.e) == e_val,
                primes_yielded(it) == i as nat,
                0 <= i <= CANDIDATE_BOUND,
                all_passed(nv, i as int),
                forall|j: int| 0 <= j < i ==> is_prime(#[trigger] nth_prime(j)),
                forall|q: int, j: int|
                    0 <= j < i && #[trigger] is_prime(q) && q < #[trigger] nth_prime(j)
                        ==> exists|j2: int| 0 <= j2 < j && q == nth_prime(j2),
                progress.length == CANDIDATE_BOUND,
                progress.advanced as int == REPORT_STEP * reports,
                i as int + until_report as int == REPORT_STEP * reports,
                until_report < REPORT_STEP,
                observations_bounded(progress.observed@, CANDIDATE_BOUND),
                forall|k: int|
                    0 <= k < progress.observed@.len() ==> #[trigger] progress.observed@[k]
                        <= progress.advanced,
                progress.observed@.len() as int == reports,
                forall|k: int|
                    0 <= k < progress.observed@.len() ==> #[trigger] progress.observed@[k] as int
                        == (k + 1) * (REPORT_STEP as int),
                progress.bar == old(progress).bar,
            decreases CANDIDATE_BOUND - i,
        {
            let p = primes_next(&mut it);
            if u64_ge_integer(p, n) {
                proof {
                    if attack_succeeds(e_val, nv) {
                        let pp = choose|pp: int|
                            #[trigger] found_factor(nv, pp) && inverse_exists(
                                e_val,
                                (pp - 1) * (nv / pp - 1),
                            );
                        assert(is_prime(pp) && pp < nv && nv % pp == 0);
                        assert(pp < p as int);
                        let j = choose|j: int| 0 <= j < i && pp == nth_prime(j);
                        assert(candidate_passed(nv, j));
                        assert(false);
                    }
                    assert(!candidate_passed(nv, i as int));
                    assert(!all_passed(nv, CANDIDATE_BOUND as int));
                }
                return Err(Error::NotFound);
            }
            if integer_divisible_u64(n, p) {
                let q = integer_div_exact_u64(n, p);
                let p_int = integer_from_u64(p);
                proof {
                    assert(int_of(q) >= 2) by (nonlinear_arith)
                        requires
                            int_of(q) * (p as int) == nv,
                            p as int >= 2,
                            nv > p as int,
                    ;
                    assert forall|r: int| #[trigger] is_prime(r) && r < p as int implies nv % r
                        != 0 by {
                        let j = choose|j: int| 0 <= j < i && r == nth_prime(j);
                        assert(candidate_passed(nv, j));
                    }
                    assert(found_factor(nv, p as int));
                    lemma_quotient_of_product(nv, p as int, int_of(q));
                    assert(!candidate_passed(nv, i as int));
                    assert(!all_passed(nv, CANDIDATE_BOUND as int));
                }
                match PrivateKey::from_p_q(p_int, q, integer_clone(&params.e)) {
                    Ok(key) => {
                        proof {
                            assert(found_factor(nv, p as int) && inverse_exists(
                                e_val,
                                ((p as int) - 1) * (nv / (p as int) - 1),
                            ));
                        }
                        return Ok((Some(key), None));
                    },
                    Err(err) => {
                        proof {
                            if attack_succeeds(e_val, nv) {
                                let pp = choose|pp: int|
                                    #[trigger] found_factor(nv, pp) && inverse_exists(
                                        e_val,
                                        (pp - 1) * (nv / pp - 1),
                                    );
                                lemma_found_factor_unique(nv, pp, p as int);
                                assert(false);
                            }
                        }
                        return Err(err);
                    },
                }
            }
            if until_report == 0 {
                proof {
                    assert(REPORT_STEP * reports < CANDIDATE_BOUND);
                    assert(REPORT_STEP * (reports + 1) <= CANDIDATE_BOUND);
                }
                progress.advance(REPORT_STEP);
                until_report = REPORT_STEP - 1;
                proof {
                    reports = reports + 1;
                }
            } else {
                until_report = until_report - 1;
            }
            i = i + 1;
        }
        proof {
            if attack_succeeds(e_val, nv) {
                let pp = choose|pp: int|
                    #[trigger] found_factor(nv, pp) && inverse_exists(
                        e_val,
                        (pp - 1) * (nv / pp - 1),
                    );
                let idx = choose|idx: int| 0 <= idx < CANDIDATE_BOUND && pp == nth_prime(idx);
                assert(candidate_passed(nv, idx));
                assert(false);
            }
            // The bound is exhausted: the 100th report has been made and
            // the countdown sits at zero, so advancement reached the bound.
            assert(reports >= 100);
            assert(reports <= 100);
            assert(progress.advanced == CANDIDATE_BOUND);
        }
        Err(Error::NotFound)
    }
}

impl Attack for SmallPrimeAttack {
    fn name(&self) -> &'static str {
        SmallPrimeAttack::name(self)
    }

    fn run(&self, params: &Parameters, progress: &mut Progress) -> (r: Result<SolvedRsa, Error>) {
        SmallPrimeAttack::run(self, params, progress)
    }
}

/// The factor the search is specified to find is unique: two least prime
/// factors of the same modulus are equal.
pub proof fn lemma_found_factor_unique(n: int, p1: int, p2: int)
    requires
        found_factor(n, p1),
        found_factor(n, p2),
    ensures
        p1 == p2,
{
    assert(is_prime(p1) && is_prime(p2));
    if p1 < p2 {
        assert(n % p1 != 0);
    }
    if p2 < p1 {
        assert(n % p2 != 0);
    }
}

/// When the modulus has a factor the search is after — its least prime
/// factor `p` is a proper divisor and one of the first
/// [`CANDIDATE_BOUND`] primes — and the exponent is invertible modulo
/// `(p-1)*(n/p-1)`, every result that meets the attack's contract is a key,
/// with no recovered plaintext, holding exactly `p`, the cofactor `n/p`,
/// and the inverse of `e` under that factorization.
pub proof fn lemma_small_factor_yields_key(
    e: int,
    n: int,
    p: int,
    r: Result<SolvedRsa, Error>,
)
    requires
        found_factor(n, p),
        inverse_exists(e, (p - 1) * (n / p - 1)),
        run_post(e, Some(n), r),
    ensures
        r is Ok,
        r matches Ok(sol) ==> sol.1 is None && (sol.0 matches Some(key) && int_of(key.p) == p
            && int_of(key.q) == n / p && int_of(key.e) == e && is_mod_inverse(
            e,
            int_of(key.d),
            (p - 1) * (n / p - 1),
        )),
{
    assert(attack_succeeds(e, n));
    if let Ok(sol) = r {
        if let Some(key) = sol.0 {
            lemma_found_factor_unique(n, int_of(key.p), p);
            lemma_quotient_of_product(n, p, int_of(key.q));
        }
    }
}

/// No candidate divides the modulus: none of the first
/// [`CANDIDATE_BOUND`] primes is a factor of `n`.
pub open spec fn no_candidate_divides(n: int) -> bool {
    forall|i: int| 0 <= i < CANDIDATE_BOUND ==> n % #[trigger] nth_prime(i) != 0
}

/// When no prime factor of the modulus lies within the first
/// [`CANDIDATE_BOUND`] primes, every result that meets the attack's
/// contract is `NotFound`.
pub proof fn lemma_no_small_factor_not_found(e: int, n: int, r: Result<SolvedRsa, Error>)
    requires
        run_post(e, Some(n), r),
        no_candidate_divides(n),
    ensures
        r == Err::<SolvedRsa, Error>(Error::NotFound),
{
    if attack_succeeds(e, n) {
        let pp = choose|pp: int|
            #[trigger] found_factor(n, pp) && inverse_exists(e, (pp - 1) * (n / pp - 1));
        let idx = choose|idx: int| 0 <= idx < CANDIDATE_BOUND && pp == nth_prime(idx);
        assert(n % nth_prime(idx) != 0);
        assert(false);
    }
}

/// Idempotence: the attack's contract pins its result down, so two runs on
/// the same parameters agree — the same outcome, the same error, and, on
/// success, the same factors and exponents.
pub proof fn lemma_run_idempotent(
    e: int,
    n: Option<int>,
    r1: Result<SolvedRsa, Error>,
    r2: Result<SolvedRsa, Error>,
)
    requires
        run_post(e, n, r1),
        run_post(e, n, r2),
    ensures
        (r1 is Ok) == (r2 is Ok),
        r1 matches Err(err1) ==> (r2 matches Err(err2) && err1 == err2),
        r1 matches Ok(s1) ==> (r2 matches Ok(s2) ==> s1.1 is None && s2.1 is None && (
        s1.0 matches Some(k1) && (s2.0 matches Some(k2) && int_of(k1.p) == int_of(k2.p)
            && int_of(k1.q) == int_of(k2.q) && int_of(k1.e) == int_of(k2.e) && int_of(k1.d)
            == int_of(k2.d)))),
{
    if let (Ok(s1), Ok(s2)) = (r1, r2) {
        let nv = n.unwrap();
        if let (Some(k1), Some(k2)) = (s1.0, s2.0) {
            lemma_found_factor_unique(nv, int_of(k1.p), int_of(k2.p));
            let p = int_of(k1.p);
            lemma_quotient_of_product(nv, p, int_of(k1.q));
            lemma_quotient_of_product(nv, p, int_of(k2.q));
            let q = int_of(k1.q);
            assert(q >= 2) by (nonlinear_arith)
                requires
                    p * q == nv,
                    p >= 2,
                    nv > p,
            ;
            assert((p - 1) * (q - 1) >= 1) by (nonlinear_arith)
                requires
                    p >= 2,
                    q >= 2,
            ;
            lemma_mod_inverse_unique(e, int_of(k1.d), int_of(k2.d), (p - 1) * (q - 1));
        }
    }
}

/// For a semiprime modulus `n = p*q` with `p < q` both prime, `p` among the
/// first [`CANDIDATE_BOUND`] primes, and the exponent invertible modulo
/// `(p-1)*(q-1)`, every result that meets the attack's contract is a key,
/// with no recovered plaintext, holding exactly `p`, `q`, and the inverse
/// of `e` under that factorization.  That no prime below `p` divides `p*q`
/// follows from Euclid's lemma, which is taken here as a premise rather
/// than proved.
pub proof fn lemma_semiprime_coprime_yields_key(
    e: int,
    n: int,
    p: int,
    q: int,
    r: Result<SolvedRsa, Error>,
)
    requires
        is_prime(p),
        is_prime(q),
        p < q,
        n == p * q,
        forall|t: int| #[trigger] is_prime(t) && t < p ==> n % t != 0,
        exists|i: int| 0 <= i < CANDIDATE_BOUND && p == #[trigger] nth_prime(i),
        inverse_exists(e, (p - 1) * (q - 1)),
        run_post(e, Some(n), r),
    ensures
        r is Ok,
        r matches Ok(sol) ==> sol.1 is None && (sol.0 matches Some(key) && int_of(key.p) == p
            && int_of(key.q) == q && int_of(key.e) == e && is_mod_inverse(
            e,
            int_of(key.d),
            (p - 1) * (q - 1),
        )),
{
    lemma_quotient_of_product(n, p, q);
    assert(p < n) by (nonlinear_arith)
        requires
            p >= 2,
            q >= 2,
            n == p * q,
    ;
    assert(found_factor(n, p));
    lemma_small_factor_yields_key(e, n, p, r);
}

/// For the same semiprime modulus but an exponent with no inverse modulo
/// `(p-1)*(q-1)`, every result that meets the attack's contract is
/// `NotFound`: a discovered factor pair whose exponent is not invertible is
/// treated exactly like no factor found.  As above, that no prime below `p`
/// divides `p*q` is Euclid's lemma, taken as a premise.
pub proof fn lemma_semiprime_non_coprime_not_found(
    e: int,
    n: int,
    p: int,
    q: int,
    r: Result<SolvedRsa, Error>,
)
    requires
        is_prime(p),
        is_prime(q),
        p < q,
        n == p * q,
        forall|t: int| #[trigger] is_prime(t) && t < p ==> n % t != 0,
        exists|i: int| 0 <= i < CANDIDATE_BOUND && p == #[trigger] nth_prime(i),
        !inverse_exists(e, (p - 1) * (q - 1)),
        run_post(e, Some(n), r),
    ensures
        r == Err::<SolvedRsa, Error>(Error::NotFound),
{
    lemma_quotient_of_product(n, p, q);
    assert(p < n) by (nonlinear_arith)
        requires
            p >= 2,
            q >= 2,
            n == p * q,
    ;
    assert(found_factor(n, p));
    if attack_succeeds(e, n) {
        let pp = choose|pp: int|
            #[trigger] found_factor(n, pp) && inverse_exists(e, (pp - 1) * (n / pp - 1));
        lemma_found_factor_unique(n, pp, p);
        assert(false);
    }
}

} // verus!
