use ark_std::rand::rngs::StdRng;
use ark_std::rand::SeedableRng;
use threshold_encryption::group::G1Point;
use threshold_encryption::key_generation::{derive_keys, evaluate, generate_keys};
use threshold_encryption::scalar::Scalar;
use threshold_encryption::ThresholdEncryptionError;

fn scalars(values: &[u64]) -> Vec<Scalar> {
    values.iter().map(|&v| Scalar::from_u64(v)).collect()
}

#[test]
fn polynomial_values() {
    // f(x) = 5 + 3 x + 2 x^2
    let f = scalars(&[5, 3, 2]);
    let expected = [5u64, 10, 19, 32, 49, 70];
    for (x, value) in expected.iter().enumerate() {
        assert_eq!(evaluate(&f, &Scalar::from_u64(x as u64)).to_limbs(), [*value, 0, 0, 0]);
    }
}

#[test]
fn polynomial_values_wrap_at_the_modulus() {
    // f(x) = -1 + x
    let minus_one = Scalar::zero().sub(&Scalar::one());
    let f = vec![minus_one, Scalar::one()];
    assert!(evaluate(&f, &Scalar::one()).is_zero());
    assert_eq!(evaluate(&f, &Scalar::from_u64(3)).to_limbs(), [2, 0, 0, 0]);
}

#[test]
fn the_empty_polynomial_is_zero() {
    assert!(evaluate(&Vec::new(), &Scalar::from_u64(17)).is_zero());
}

#[test]
fn keys_of_a_known_polynomial() {
    let g = G1Point::generator();
    let (epk, svp, shares) = derive_keys(&scalars(&[5, 3, 2]), 5).unwrap();
    assert_eq!(epk.key, g.mul(&Scalar::from_u64(5)));
    assert_eq!(shares.len(), 5);
    assert_eq!(svp.decryptor_pubkeys.len(), 5);
    let expected = [10u64, 19, 32, 49, 70];
    for (i, value) in expected.iter().enumerate() {
        assert_eq!(shares[i].index, i);
        assert_eq!(shares[i].privkey.to_limbs(), [*value, 0, 0, 0]);
        assert_eq!(shares[i].pubkey, g.mul(&Scalar::from_u64(*value)));
        assert_eq!(svp.decryptor_pubkeys[i], shares[i].pubkey);
    }
}

#[test]
fn no_coefficients_or_too_many_are_invalid() {
    assert!(matches!(
        derive_keys(&Vec::new(), 3),
        Err(ThresholdEncryptionError::InvalidParameters)
    ));
    assert!(matches!(
        derive_keys(&scalars(&[1, 2, 3]), 2),
        Err(ThresholdEncryptionError::InvalidParameters)
    ));
    assert!(derive_keys(&scalars(&[1, 2, 3]), 3).is_ok());
}

#[test]
fn a_zero_secret_is_unusable() {
    assert!(matches!(
        derive_keys(&scalars(&[0, 1]), 3),
        Err(ThresholdEncryptionError::RandomnessError)
    ));
}

#[test]
fn a_zero_leading_coefficient_is_unusable() {
    assert!(matches!(
        derive_keys(&scalars(&[4, 1, 0]), 3),
        Err(ThresholdEncryptionError::RandomnessError)
    ));
}

#[test]
fn a_zero_private_scalar_is_unusable() {
    // f(x) = -2 + x vanishes at the point of the second holder
    let minus_two = Scalar::zero().sub(&Scalar::from_u64(2));
    let f = vec![minus_two, Scalar::one()];
    assert!(matches!(derive_keys(&f, 3), Err(ThresholdEncryptionError::RandomnessError)));
    // f(x) = -4 + x vanishes at the point of a fourth holder only
    let minus_four = Scalar::zero().sub(&Scalar::from_u64(4));
    let f = vec![minus_four, Scalar::one()];
    assert!(derive_keys(&f, 3).is_ok());
    assert!(matches!(derive_keys(&f, 4), Err(ThresholdEncryptionError::RandomnessError)));
}

#[test]
fn invalid_thresholds_are_refused() {
    let mut rng = StdRng::seed_from_u64(1);
    assert!(matches!(
        generate_keys(0, 5, &mut rng),
        Err(ThresholdEncryptionError::InvalidParameters)
    ));
    assert!(matches!(
        generate_keys(6, 5, &mut rng),
        Err(ThresholdEncryptionError::InvalidParameters)
    ));
    assert!(matches!(
        generate_keys(0, 0, &mut rng),
        Err(ThresholdEncryptionError::InvalidParameters)
    ));
    assert!(matches!(
        generate_keys(1, 0, &mut rng),
        Err(ThresholdEncryptionError::InvalidParameters)
    ));
    assert!(generate_keys(5, 5, &mut rng).is_ok());
    assert!(generate_keys(1, 1, &mut rng).is_ok());
}

#[test]
fn generated_keys_are_consistent() {
    let mut rng = StdRng::seed_from_u64(2);
    let g = G1Point::generator();
    let (epk, svp, shares) = generate_keys(3, 5, &mut rng).unwrap();
    assert_eq!(shares.len(), 5);
    assert_eq!(svp.decryptor_pubkeys.len(), 5);
    for (i, share) in shares.iter().enumerate() {
        assert_eq!(share.index, i);
        assert!(!share.privkey.is_zero());
        assert_eq!(share.pubkey, g.mul(&share.privkey));
        assert_eq!(svp.decryptor_pubkeys[i], share.pubkey);
        assert_ne!(share.pubkey, epk.key);
    }
    assert!(!shares[0].privkey.equals(&shares[1].privkey));
}

#[test]
fn different_randomness_gives_different_keys() {
    let (first, _, _) = generate_keys(2, 3, &mut StdRng::seed_from_u64(3)).unwrap();
    let (second, _, _) = generate_keys(2, 3, &mut StdRng::seed_from_u64(4)).unwrap();
    assert_ne!(first.key, second.key);
}
