use threshold_encryption::group::{G1Point, G2Point};
use threshold_encryption::key_generation::derive_keys;
use threshold_encryption::scalar::Scalar;
use threshold_encryption::symmetric::{apply_stream, derive_key};
use threshold_encryption::{construct_tag_hash, mock_hash, share_combine, ThresholdEncryptionError};

fn scalars(values: &[u64]) -> Vec<Scalar> {
    values.iter().map(|&v| Scalar::from_u64(v)).collect()
}

#[test]
fn encryption_with_a_known_scalar() {
    let g = G1Point::generator();
    let (epk, _, _) = derive_keys(&scalars(&[5, 3, 2]), 5).unwrap();
    let r = Scalar::from_u64(9);
    let c = epk.encrypt_with_scalar(b"abc", b"ad", &r).unwrap();

    // U = r G
    assert_eq!(c.nonce, g.mul(&r));
    // V = msg under the key of r Y = 45 G
    let key = derive_key(&g.mul(&Scalar::from_u64(45)).to_bytes());
    assert_eq!(Some(c.ciphertext.clone()), apply_stream(&key, b"abc"));
    // W = r H(U, V, ad)
    let mut input = c.nonce.to_bytes().to_vec();
    input.extend_from_slice(&c.ciphertext);
    input.extend_from_slice(b"ad");
    let h = G2Point::hash(b"auth_tag", &input).unwrap();
    assert_eq!(c.auth_tag, h.mul(&r));
    assert!(c.check_ciphertext_validity(b"ad"));
}

#[test]
fn encryption_with_the_scalar_one_has_the_generator_as_nonce() {
    let (epk, _, _) = derive_keys(&scalars(&[5, 3, 2]), 5).unwrap();
    let c = epk.encrypt_with_scalar(b"abc", b"", &Scalar::one()).unwrap();
    assert_eq!(c.nonce, G1Point::generator());
    let key = derive_key(&epk.key.to_bytes());
    assert_eq!(Some(c.ciphertext.clone()), apply_stream(&key, b"abc"));
    assert_eq!(Ok(c.auth_tag), construct_tag_hash(&c.nonce, &c.ciphertext, b""));
}

#[test]
fn encryption_is_determined_by_the_scalar() {
    let (epk, _, _) = derive_keys(&scalars(&[5, 3, 2]), 5).unwrap();
    let r = Scalar::from_u64(1234567);
    let first = epk.encrypt_with_scalar(b"abc", b"ad", &r).unwrap();
    let second = epk.encrypt_with_scalar(b"abc", b"ad", &r).unwrap();
    assert_eq!(first, second);
    let third = epk.encrypt_with_scalar(b"abc", b"ad", &Scalar::from_u64(1234568)).unwrap();
    assert_ne!(first, third);
}

#[test]
fn a_zero_scalar_is_refused() {
    let (epk, _, _) = derive_keys(&scalars(&[5, 3, 2]), 5).unwrap();
    assert_eq!(
        epk.encrypt_with_scalar(b"abc", b"", &Scalar::zero()),
        Err(ThresholdEncryptionError::RandomnessError)
    );
}

#[test]
fn known_keys_and_scalar_round_trip() {
    let (epk, svp, privkeys) = derive_keys(&scalars(&[5, 3, 2]), 5).unwrap();
    let c = epk.encrypt_with_scalar(b"abc", b"", &Scalar::from_u64(9)).unwrap();
    let g = G1Point::generator();
    let mut shares = Vec::new();
    for holder in [4usize, 0, 2] {
        let share = privkeys[holder].create_share(&c, b"").unwrap();
        // U_i = x_i U = x_i r G
        let x = [10u64, 19, 32, 49, 70][holder];
        assert_eq!(share.decryptor_index, holder);
        assert_eq!(share.decryption_share, g.mul(&Scalar::from_u64(9 * x)));
        assert!(share.verify_share(&c, b"", &svp));
        shares.push(share);
    }
    assert_eq!(share_combine(&c, b"", &shares, 3), Ok(b"abc".to_vec()));
}

#[test]
fn fewer_shares_than_the_degree_needs_give_another_plaintext() {
    // Two shares interpolate a line, not the parabola that the keys lie on.
    let (epk, _, privkeys) = derive_keys(&scalars(&[5, 3, 2]), 5).unwrap();
    let c = epk.encrypt_with_scalar(b"abc", b"", &Scalar::from_u64(9)).unwrap();
    let shares = vec![
        privkeys[0].create_share(&c, b"").unwrap(),
        privkeys[1].create_share(&c, b"").unwrap(),
    ];
    let recovered = share_combine(&c, b"", &shares, 2).unwrap();
    assert_eq!(recovered.len(), 3);
    assert_ne!(recovered, b"abc".to_vec());
}

#[test]
fn tag_hash_covers_nonce_body_and_associated_data() {
    let g = G1Point::generator();
    let base = construct_tag_hash(&g, b"body", b"ad").unwrap();
    let mut input = g.to_bytes().to_vec();
    input.extend_from_slice(b"bodyad");
    assert_eq!(Ok(base), mock_hash(&input));
    assert_ne!(Ok(base), construct_tag_hash(&g, b"bodz", b"ad"));
    assert_ne!(Ok(base), construct_tag_hash(&g, b"body", b"ae"));
    assert_ne!(Ok(base), construct_tag_hash(&g.mul(&Scalar::from_u64(2)), b"body", b"ad"));
}

#[test]
fn hash_uses_the_scheme_domain() {
    assert_eq!(mock_hash(b"message"), G2Point::hash(b"auth_tag", b"message"));
    assert_ne!(mock_hash(b"message"), G2Point::hash(b"auth_tah", b"message"));
}
