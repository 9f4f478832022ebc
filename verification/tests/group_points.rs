use threshold_encryption::group::{pairing_product_is_identity, G1Point, G2Point};
use threshold_encryption::scalar::Scalar;

const GENERATOR: [u8; 48] = [
    0x97, 0xf1, 0xd3, 0xa7, 0x31, 0x97, 0xd7, 0x94, 0x26, 0x95, 0x63, 0x8c, 0x4f, 0xa9, 0xac, 0x0f,
    0xc3, 0x68, 0x8c, 0x4f, 0x97, 0x74, 0xb9, 0x05, 0xa1, 0x4e, 0x3a, 0x3f, 0x17, 0x1b, 0xac, 0x58,
    0x6c, 0x55, 0xe8, 0x3f, 0xf9, 0x7a, 0x1a, 0xef, 0xfb, 0x3a, 0xf0, 0x0a, 0xdb, 0x22, 0xc6, 0xbb,
];

#[test]
fn generator_has_the_standard_encoding() {
    assert_eq!(G1Point::generator().to_bytes(), GENERATOR);
}

#[test]
fn generator_encoding_decodes() {
    let point = G1Point::from_bytes(GENERATOR).unwrap();
    assert_eq!(point, G1Point::generator());
}

#[test]
fn garbage_does_not_decode() {
    assert!(G1Point::from_bytes([0u8; 48]).is_none());
    assert!(G2Point::from_bytes([0u8; 96]).is_none());
    let mut off_curve = GENERATOR;
    off_curve[47] ^= 1;
    assert!(G1Point::from_bytes(off_curve).is_none());
    let mut uncompressed = GENERATOR;
    uncompressed[0] &= 0x7f;
    assert!(G1Point::from_bytes(uncompressed).is_none());
}

#[test]
fn scalar_multiplication_agrees_with_addition() {
    let g = G1Point::generator();
    let two = g.mul(&Scalar::from_u64(2));
    assert_eq!(two, g.add(&g));
    assert_ne!(two, g);
    let three = g.mul(&Scalar::from_u64(3));
    assert_eq!(three, two.add(&g));
    assert_eq!(g.mul(&Scalar::one()), g);
}

#[test]
fn negation_cancels() {
    let g = G1Point::generator();
    let zero = g.add(&g.neg());
    assert_eq!(zero, g.mul(&Scalar::zero()));
    assert_eq!(g.neg().neg(), g);
    assert_ne!(g.neg(), g);
}

#[test]
fn hash_is_deterministic_and_separates_domains() {
    let a = G2Point::hash(b"auth_tag", b"message").unwrap();
    let b = G2Point::hash(b"auth_tag", b"message").unwrap();
    let c = G2Point::hash(b"auth_tag", b"messagf").unwrap();
    let d = G2Point::hash(b"other", b"message").unwrap();
    assert_eq!(a, b);
    assert_ne!(a, c);
    assert_ne!(a, d);
    assert_eq!(G2Point::from_bytes(a.to_bytes()), Some(a));
}

#[test]
fn pairing_is_bilinear_on_samples() {
    let g = G1Point::generator();
    let h = G2Point::hash(b"auth_tag", b"sample").unwrap();
    let k = Scalar::from_u64(7);
    // e(k g, h) * e(-g, k h) = 1
    assert!(pairing_product_is_identity(&g.mul(&k), &h, &g.neg(), &h.mul(&k)));
    // e(k g, h) * e(-g, h) != 1
    assert!(!pairing_product_is_identity(&g.mul(&k), &h, &g.neg(), &h));
}

#[test]
fn the_identity_decodes_and_is_neutral() {
    let g = G1Point::generator();
    let zero = g.mul(&Scalar::zero());
    assert_eq!(G1Point::from_bytes(zero.to_bytes()), Some(zero));
    assert_eq!(zero.add(&g), g);
    assert_eq!(zero.neg(), zero);
    assert_eq!(zero.mul(&Scalar::from_u64(5)), zero);
}

#[test]
fn scaling_twice_multiplies_the_scalars() {
    let g = G1Point::generator();
    let a = Scalar::from_u64(123456789);
    let b = Scalar::from_u64(987654321);
    assert_eq!(g.mul(&a).mul(&b), g.mul(&a.mul(&b)));
    assert_eq!(g.mul(&a).mul(&b), g.mul(&b).mul(&a));
    assert_eq!(g.mul(&a).add(&g.mul(&b)), g.mul(&a.add(&b)));
}

#[test]
fn scaling_in_the_second_group() {
    let h = G2Point::hash(b"auth_tag", b"sample").unwrap();
    let two = h.mul(&Scalar::from_u64(2));
    assert_ne!(two, h);
    assert_eq!(h.mul(&Scalar::one()), h);
    assert_eq!(two.mul(&Scalar::from_u64(3)), h.mul(&Scalar::from_u64(6)));
    assert_eq!(G2Point::from_bytes(two.to_bytes()), Some(two));
}

#[test]
fn pairing_tells_the_scalars_apart() {
    let g = G1Point::generator();
    let h = G2Point::hash(b"auth_tag", b"sample").unwrap();
    let a = Scalar::from_u64(11);
    let r = Scalar::from_u64(13);
    // e(a r G, H) = e(a G, r H)
    assert!(pairing_product_is_identity(&g.mul(&a.mul(&r)), &h, &g.mul(&a).neg(), &h.mul(&r)));
    assert!(!pairing_product_is_identity(&g.mul(&a.mul(&r)), &h, &g.mul(&r).neg(), &h.mul(&r)));
}

#[test]
fn hashed_points_decode() {
    for i in 0..16u8 {
        let message = vec![i; i as usize];
        let point = G2Point::hash(b"auth_tag", &message).unwrap();
        assert_eq!(G2Point::from_bytes(point.to_bytes()), Some(point));
    }
    let long = vec![0xabu8; 5000];
    let point = G2Point::hash(&[0x55u8; 300], &long).unwrap();
    assert_eq!(G2Point::from_bytes(point.to_bytes()), Some(point));
}
