use num_bigint::BigInt;
use rsacracker::key::PrivateKey;
use rsacracker::Error;

#[test]
fn test_reconstruction_coprime_exponent() {
    // p = 3, q = 5, phi = 8; the inverse of 3 modulo 8 is 3.
    let key = PrivateKey::from_p_q(BigInt::from(3), BigInt::from(5), BigInt::from(3)).unwrap();

    assert_eq!(key.p, BigInt::from(3));
    assert_eq!(key.q, BigInt::from(5));
    assert_eq!(key.e, BigInt::from(3));
    assert_eq!(key.d, BigInt::from(3));
    assert_eq!((&key.e * &key.d) % BigInt::from(8), BigInt::from(1));
}

#[test]
fn test_reconstruction_large_primes() {
    let p = BigInt::from(54269);
    let q = BigInt::from(93089);
    let e = BigInt::from(65537);
    let key = PrivateKey::from_p_q(p.clone(), q.clone(), e.clone()).unwrap();

    let phi = (&p - 1) * (&q - 1);
    assert_eq!((&key.d * &e) % &phi, BigInt::from(1));
    assert!(key.d >= BigInt::from(0) && key.d < phi);
}

#[test]
fn test_reconstruction_non_coprime_exponent_fails() {
    // p = 3, q = 5, phi = 8; 2 shares a factor with 8, so no inverse exists.
    let result = PrivateKey::from_p_q(BigInt::from(3), BigInt::from(5), BigInt::from(2));

    assert!(matches!(result, Err(Error::NotFound)));
}

#[test]
fn test_reconstruction_trivial_totient() {
    // p = q = 2 gives phi = 1: everything is congruent modulo 1, so the
    // canonical inverse is 0 even for a negative exponent.
    let key = PrivateKey::from_p_q(BigInt::from(2), BigInt::from(2), BigInt::from(-7)).unwrap();

    assert_eq!(key.d, BigInt::from(0));
}
