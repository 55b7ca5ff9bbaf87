use std::str::FromStr;

use num_bigint::BigInt;
use rsacracker::attack::small_prime::SmallPrimeAttack;
use rsacracker::progress::Progress;
use rsacracker::{Error, Parameters};

#[test]
fn test_small_prime() {
    let params = Parameters { n: Some(BigInt::from(5051846941u64)), ..Default::default() };

    let mut progress = Progress::none();
    let (private_key, m) = SmallPrimeAttack.run(&params, &mut progress).unwrap();
    let private_key = private_key.unwrap();

    assert_eq!(private_key.p, BigInt::from(54269));
    assert_eq!(private_key.q, BigInt::from(93089));
    assert!(m.is_none());
}

#[test]
fn test_found_key_is_consistent() {
    let params = Parameters { n: Some(BigInt::from(5051846941u64)), ..Default::default() };

    let mut progress = Progress::none();
    let (private_key, _) = SmallPrimeAttack.run(&params, &mut progress).unwrap();
    let key = private_key.unwrap();

    assert_eq!(&key.p * &key.q, BigInt::from(5051846941u64));
    assert_eq!(key.e, BigInt::from(65537));
    let phi = (&key.p - 1) * (&key.q - 1);
    assert_eq!((&key.d * &key.e) % &phi, BigInt::from(1));
    assert!(key.d >= BigInt::from(0) && key.d < phi);
}

#[test]
fn test_exact_key_for_small_modulus() {
    // 35 = 5 * 7; the inverse of 65537 modulo 24 is 17.
    let params = Parameters { n: Some(BigInt::from(35)), ..Default::default() };

    let mut progress = Progress::none();
    let (private_key, m) = SmallPrimeAttack.run(&params, &mut progress).unwrap();
    let key = private_key.unwrap();

    assert_eq!(key.p, BigInt::from(5));
    assert_eq!(key.q, BigInt::from(7));
    assert_eq!(key.d, BigInt::from(17));
    assert!(m.is_none());
}

#[test]
fn test_even_modulus() {
    let params = Parameters { n: Some(BigInt::from(6)), ..Default::default() };

    let mut progress = Progress::none();
    let (private_key, _) = SmallPrimeAttack.run(&params, &mut progress).unwrap();
    let key = private_key.unwrap();

    assert_eq!(key.p, BigInt::from(2));
    assert_eq!(key.q, BigInt::from(3));
    assert_eq!(key.d, BigInt::from(1));
}

#[test]
fn test_missing_parameters() {
    let params = Parameters::default();

    let mut progress = Progress::none();
    let result = SmallPrimeAttack.run(&params, &mut progress);

    assert!(matches!(result, Err(Error::MissingParameters)));
    // The sink was never consulted.
    assert_eq!(progress.length, 0);
    assert_eq!(progress.advanced, 0);
}

#[test]
fn test_prime_modulus_not_found() {
    // 101 is prime: the search stops as soon as a candidate reaches the
    // modulus, so no proper factor can be reported.
    let params = Parameters { n: Some(BigInt::from(101)), ..Default::default() };

    let mut progress = Progress::none();
    let result = SmallPrimeAttack.run(&params, &mut progress);

    assert!(matches!(result, Err(Error::NotFound)));
}

#[test]
fn test_unusable_exponent_is_not_found() {
    // 393225 = 3 * 131075, and (3-1)*(131075-1) = 4*65537, so the default
    // exponent 65537 has no inverse under the discovered factor pair.
    let params = Parameters { n: Some(BigInt::from(393225)), ..Default::default() };

    let mut progress = Progress::none();
    let result = SmallPrimeAttack.run(&params, &mut progress);

    assert!(matches!(result, Err(Error::NotFound)));
}

#[test]
fn test_large_semiprime_exhausts_candidates() {
    // A 90-digit semiprime whose factors lie far above the millionth prime:
    // the attack examines its full candidate bound, then gives up.
    let n = BigInt::from_str(
        "900000000000000000000000000000000000000000278700000000000000000000000000000000000000001729",
    )
    .unwrap();
    let params = Parameters { n: Some(n), ..Default::default() };

    let mut progress = Progress::none();
    let result = SmallPrimeAttack.run(&params, &mut progress);

    assert!(matches!(result, Err(Error::NotFound)));
    assert_eq!(progress.length, 1000000);
    assert_eq!(progress.advanced, 1000000);
}

#[test]
fn test_idempotent() {
    let params = Parameters { n: Some(BigInt::from(5051846941u64)), ..Default::default() };

    let mut progress = Progress::none();
    let (k1, m1) = SmallPrimeAttack.run(&params, &mut progress).unwrap();
    let (k2, m2) = SmallPrimeAttack.run(&params, &mut progress).unwrap();
    let k1 = k1.unwrap();
    let k2 = k2.unwrap();

    assert_eq!(k1.p, k2.p);
    assert_eq!(k1.q, k2.q);
    assert_eq!(k1.e, k2.e);
    assert_eq!(k1.d, k2.d);
    assert!(m1.is_none() && m2.is_none());
}

#[test]
fn test_progress_with_bar() {
    let bar = indicatif::ProgressBar::hidden();
    let mut progress = Progress::with_bar(bar);
    let params = Parameters { n: Some(BigInt::from(5051846941u64)), ..Default::default() };

    let result = SmallPrimeAttack.run(&params, &mut progress);

    assert!(result.is_ok());
    assert_eq!(progress.length, 1000000);
    assert!(progress.advanced <= progress.length);
    // Advancement comes in whole reporting steps.
    assert_eq!(progress.advanced % 10000, 0);
}

#[test]
fn test_attack_name() {
    assert_eq!(SmallPrimeAttack.name(), "small_prime");
}

#[test]
fn test_default_parameters() {
    let params = Parameters::default();
    assert_eq!(params.e, BigInt::from(65537));
    assert!(params.n.is_none());
}

#[test]
fn test_modulus_four_trivial_totient() {
    // 4 = 2 * 2, phi = 1: the key is still produced, with d = 0.
    let params = Parameters { n: Some(BigInt::from(4)), ..Default::default() };

    let mut progress = Progress::none();
    let (private_key, _) = SmallPrimeAttack.run(&params, &mut progress).unwrap();
    let key = private_key.unwrap();

    assert_eq!(key.p, BigInt::from(2));
    assert_eq!(key.q, BigInt::from(2));
    assert_eq!(key.d, BigInt::from(0));
}
