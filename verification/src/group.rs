//! The two source groups of the BLS12-381 pairing, as their encodings.
//!
//! A [`G1Point`] or [`G2Point`] holds the compressed encoding of a point of
//! the prime-order subgroup; its view is that byte sequence. The group law,
//! the pairing and the hash onto the curve are computed by `ark-ec` and
//! `ark-bls12-381`. Contracts name their results by the uninterpreted
//! functions below, each a function of the encodings alone.

use crate::error::ThresholdEncryptionError;
use crate::scalar::{limbs_value, modulus, Scalar};
use ark_bls12_381::{g2, Bls12_381, Fr, G1Affine, G2Affine, G2Projective};
use ark_ec::hashing::curve_maps::wb::WBMap;
use ark_ec::hashing::map_to_curve_hasher::MapToCurveBasedHasher;
use ark_ec::hashing::{HashToCurve, HashToCurveError};
use ark_ec::pairing::Pairing;
use ark_ec::{AffineRepr, CurveGroup};
use ark_ff::field_hashers::DefaultFieldHasher;
use ark_ff::{BigInt, PrimeField, Zero};
use ark_serialize::{CanonicalDeserialize, CanonicalSerialize};
use sha2::Sha256;
use vstd::prelude::*;

verus! {

/// Whether 48 bytes are the compressed encoding of a point of the first group.
pub uninterp spec fn g1_decodes(encoding: Seq<u8>) -> bool;

/// The encoding of the product of an encoded point of the first group and a scalar.
pub uninterp spec fn g1_scalar_product(point: Seq<u8>, scalar: nat) -> Seq<u8>;

/// The encoding of the sum of two encoded points of the first group.
pub uninterp spec fn g1_sum(left: Seq<u8>, right: Seq<u8>) -> Seq<u8>;

/// The encoding of the inverse of an encoded point of the first group.
pub uninterp spec fn g1_negation(point: Seq<u8>) -> Seq<u8>;

/// Whether 96 bytes are the compressed encoding of a point of the second group.
pub uninterp spec fn g2_decodes(encoding: Seq<u8>) -> bool;

/// The encoding of the product of an encoded point of the second group and a scalar.
pub uninterp spec fn g2_scalar_product(point: Seq<u8>, scalar: nat) -> Seq<u8>;

/// The encoding of the point of the second group that a message hashes to
/// under a domain label, or `None` where the map onto the curve fails.
pub uninterp spec fn hash_to_g2(domain: Seq<u8>, message: Seq<u8>) -> Option<Seq<u8>>;

/// Whether `e(a, b) * e(c, d)` is the identity of the target group, for
/// encoded points `a`, `c` of the first group and `b`, `d` of the second.
pub uninterp spec fn pairing_product_is_one(a: Seq<u8>, b: Seq<u8>, c: Seq<u8>, d: Seq<u8>) -> bool;

/// The compressed encoding of the generator of the first group.
pub open spec fn g1_generator_encoding() -> Seq<u8> {
    seq![
        0x97u8, 0xf1, 0xd3, 0xa7, 0x31, 0x97, 0xd7, 0x94, 0x26, 0x95, 0x63, 0x8c,
        0x4f, 0xa9, 0xac, 0x0f, 0xc3, 0x68, 0x8c, 0x4f, 0x97, 0x74, 0xb9, 0x05,
        0xa1, 0x4e, 0x3a, 0x3f, 0x17, 0x1b, 0xac, 0x58, 0x6c, 0x55, 0xe8, 0x3f,
        0xf9, 0x7a, 0x1a, 0xef, 0xfb, 0x3a, 0xf0, 0x0a, 0xdb, 0x22, 0xc6, 0xbb,
    ]
}

/// The error of the hash onto the curve.
#[verifier::external_type_specification]
#[verifier::external_body]
pub struct ExHashToCurveError(HashToCurveError);

/// Calls `CanonicalDeserialize::deserialize_compressed` for `G1Affine`, which
/// accepts exactly the encodings of points of the prime-order subgroup.
#[verifier::external_body]
fn g1_check(encoding: &[u8; 48]) -> (valid: bool)
    ensures
        valid == g1_decodes(encoding@),
{
    G1Affine::deserialize_compressed(&encoding[..]).is_ok()
}

/// Calls `AffineRepr::generator` for `G1Affine` and encodes the point: a
/// constant of the curve, which decodes.
#[verifier::external_body]
fn g1_generator() -> (encoding: [u8; 48])
    ensures
        encoding@ == g1_generator_encoding(),
        g1_decodes(encoding@),
{
    let mut encoding = [0u8; 48];
    G1Affine::generator().serialize_compressed(&mut encoding[..]).unwrap();
    encoding
}

/// Calls the scalar multiplication of `G1Affine`: the result is a point of
/// the group again, determined by the point and the scalar.
#[verifier::external_body]
fn g1_mul(point: &[u8; 48], scalar: &[u64; 4]) -> (product: [u8; 48])
    requires
        g1_decodes(point@),
        limbs_value(scalar@) < modulus(),
    ensures
        product@ == g1_scalar_product(point@, limbs_value(scalar@)),
        g1_decodes(product@),
{
    let p = G1Affine::deserialize_compressed(&point[..]).unwrap();
    let k = Fr::from_bigint(BigInt::new(*scalar)).unwrap();
    let mut product = [0u8; 48];
    (p * k).into_affine().serialize_compressed(&mut product[..]).unwrap();
    product
}

/// Calls the addition of `G1Affine`: the result is a point of the group
/// again, determined by the two points.
#[verifier::external_body]
fn g1_add(left: &[u8; 48], right: &[u8; 48]) -> (sum: [u8; 48])
    requires
        g1_decodes(left@),
        g1_decodes(right@),
    ensures
        sum@ == g1_sum(left@, right@),
        g1_decodes(sum@),
{
    let p = G1Affine::deserialize_compressed(&left[..]).unwrap();
    let q = G1Affine::deserialize_compressed(&right[..]).unwrap();
    let mut sum = [0u8; 48];
    (p + q).into_affine().serialize_compressed(&mut sum[..]).unwrap();
    sum
}

/// Calls `Neg::neg` of `G1Affine`: the result is a point of the group again,
/// determined by the point.
#[verifier::external_body]
fn g1_neg(point: &[u8; 48]) -> (negation: [u8; 48])
    requires
        g1_decodes(point@),
    ensures
        negation@ == g1_negation(point@),
        g1_decodes(negation@),
{
    let p = G1Affine::deserialize_compressed(&point[..]).unwrap();
    let mut negation = [0u8; 48];
    (-p).serialize_compressed(&mut negation[..]).unwrap();
    negation
}

/// Calls `CanonicalDeserialize::deserialize_compressed` for `G2Affine`, which
/// accepts exactly the encodings of points of the prime-order subgroup.
#[verifier::external_body]
fn g2_check(encoding: &[u8; 96]) -> (valid: bool)
    ensures
        valid == g2_decodes(encoding@),
{
    G2Affine::deserialize_compressed(&encoding[..]).is_ok()
}

/// Calls the scalar multiplication of `G2Affine`: the result is a point of
/// the group again, determined by the point and the scalar.
#[verifier::external_body]
fn g2_mul(point: &[u8; 96], scalar: &[u64; 4]) -> (product: [u8; 96])
    requires
        g2_decodes(point@),
        limbs_value(scalar@) < modulus(),
    ensures
        product@ == g2_scalar_product(point@, limbs_value(scalar@)),
        g2_decodes(product@),
{
    let p = G2Affine::deserialize_compressed(&point[..]).unwrap();
    let k = Fr::from_bigint(BigInt::new(*scalar)).unwrap();
    let mut product = [0u8; 96];
    (p * k).into_affine().serialize_compressed(&mut product[..]).unwrap();
    product
}

/// Calls `HashToCurve::new` and `HashToCurve::hash` of `ark-ec`, with the
/// Wahby-Boneh map onto the second group and SHA-256 as the field hasher.
/// The outcome is determined by the domain label and the message; a point
/// that comes out lies in the prime-order subgroup.
#[verifier::external_body]
fn g2_hash(domain: &[u8], message: &[u8]) -> (hashed: Result<[u8; 96], HashToCurveError>)
    ensures
        hashed matches Ok(point) ==> hash_to_g2(domain@, message@) == Some(point@) && g2_decodes(
            point@,
        ),
        hashed is Err ==> hash_to_g2(domain@, message@) is None,
{
    let hasher = MapToCurveBasedHasher::<
        G2Projective,
        DefaultFieldHasher<Sha256, 128>,
        WBMap<g2::Config>,
    >::new(domain)?;
    let point = hasher.hash(message)?;
    let mut encoding = [0u8; 96];
    point.serialize_compressed(&mut encoding[..]).unwrap();
    Ok(encoding)
}

/// Calls `Pairing::multi_pairing` of `Bls12_381` on the two pairs and tests
/// the product for the identity of the target group.
#[verifier::external_body]
fn pairing_check(a: &[u8; 48], b: &[u8; 96], c: &[u8; 48], d: &[u8; 96]) -> (one: bool)
    requires
        g1_decodes(a@),
        g2_decodes(b@),
        g1_decodes(c@),
        g2_decodes(d@),
    ensures
        one == pairing_product_is_one(a@, b@, c@, d@),
{
    let left = G1Affine::deserialize_compressed(&a[..]).unwrap();
    let left_pair = G2Affine::deserialize_compressed(&b[..]).unwrap();
    let right = G1Affine::deserialize_compressed(&c[..]).unwrap();
    let right_pair = G2Affine::deserialize_compressed(&d[..]).unwrap();
    Bls12_381::multi_pairing([left, right], [left_pair, right_pair]).is_zero()
}

/// A point of the first group.
#[derive(Clone, Copy, Debug, PartialEq, Eq)]
pub struct G1Point {
    bytes: [u8; 48],
}

/// A point of the second group.
#[derive(Clone, Copy, Debug, PartialEq, Eq)]
pub struct G2Point {
    bytes: [u8; 96],
}

impl View for G1Point {
    type V = Seq<u8>;

    closed spec fn view(&self) -> Seq<u8> {
        self.bytes@
    }
}

impl View for G2Point {
    type V = Seq<u8>;

    closed spec fn view(&self) -> Seq<u8> {
        self.bytes@
    }
}

impl G1Point {
    #[verifier::type_invariant]
    spec fn decodable(self) -> bool {
        g1_decodes(self.bytes@)
    }

    /// The generator of the group.
    pub fn generator() -> (g: G1Point)
        ensures
            g@ == g1_generator_encoding(),
    {
        let bytes = g1_generator();
        G1Point { bytes }
    }

    /// The point with the given compressed encoding, if it is one.
    pub fn from_bytes(bytes: [u8; 48]) -> (point: Option<G1Point>)
        ensures
            point is Some <==> g1_decodes(bytes@),
            point matches Some(p) ==> p@ == bytes@,
    {
        if g1_check(&bytes) {
            Some(G1Point { bytes })
        } else {
            None
        }
    }

    /// The compressed encoding of the point.
    pub fn to_bytes(&self) -> (bytes: [u8; 48])
        ensures
            bytes@ == self@,
            self@.len() == 48,
            g1_decodes(self@),
    {
        proof {
            use_type_invariant(self);
        }
        self.bytes
    }

    /// The point multiplied by a scalar.
    pub fn mul(&self, scalar: &Scalar) -> (product: G1Point)
        ensures
            product@ == g1_scalar_product(self@, scalar@),
    {
        proof {
            use_type_invariant(self);
        }
        let limbs = scalar.to_limbs();
        let bytes = g1_mul(&self.bytes, &limbs);
        G1Point { bytes }
    }

    /// The sum of two points.
    pub fn add(&self, other: &G1Point) -> (sum: G1Point)
        ensures
            sum@ == g1_sum(self@, other@),
    {
        proof {
            use_type_invariant(self);
            use_type_invariant(other);
        }
        let bytes = g1_add(&self.bytes, &other.bytes);
        G1Point { bytes }
    }

    /// The inverse of the point.
    pub fn neg(&self) -> (negation: G1Point)
        ensures
            negation@ == g1_negation(self@),
    {
        proof {
            use_type_invariant(self);
        }
        let bytes = g1_neg(&self.bytes);
        G1Point { bytes }
    }
}

impl G2Point {
    #[verifier::type_invariant]
    spec fn decodable(self) -> bool {
        g2_decodes(self.bytes@)
    }

    /// The point with the given compressed encoding, if it is one.
    pub fn from_bytes(bytes: [u8; 96]) -> (point: Option<G2Point>)
        ensures
            point is Some <==> g2_decodes(bytes@),
            point matches Some(p) ==> p@ == bytes@,
    {
        if g2_check(&bytes) {
            Some(G2Point { bytes })
        } else {
            None
        }
    }

    /// The compressed encoding of the point.
    pub fn to_bytes(&self) -> (bytes: [u8; 96])
        ensures
            bytes@ == self@,
            self@.len() == 96,
            g2_decodes(self@),
    {
        proof {
            use_type_invariant(self);
        }
        self.bytes
    }

    /// The point multiplied by a scalar.
    pub fn mul(&self, scalar: &Scalar) -> (product: G2Point)
        ensures
            product@ == g2_scalar_product(self@, scalar@),
    {
        proof {
            use_type_invariant(self);
        }
        let limbs = scalar.to_limbs();
        let bytes = g2_mul(&self.bytes, &limbs);
        G2Point { bytes }
    }

    /// The point that a message hashes to under a domain label.
    pub fn hash(domain: &[u8], message: &[u8]) -> (hashed: Result<
        G2Point,
        ThresholdEncryptionError,
    >)
        ensures
            hashed matches Ok(point) ==> hash_to_g2(domain@, message@) == Some(point@),
            hashed matches Err(e) ==> e == ThresholdEncryptionError::HashToCurveError
                && hash_to_g2(domain@, message@) is None,
    {
        match g2_hash(domain, message) {
            Ok(bytes) => Ok(G2Point { bytes }),
            Err(_) => Err(ThresholdEncryptionError::HashToCurveError),
        }
    }
}

/// Whether `e(a, b) * e(c, d)` is the identity of the target group.
pub fn pairing_product_is_identity(a: &G1Point, b: &G2Point, c: &G1Point, d: &G2Point) -> (one:
    bool)
    ensures
        one == pairing_product_is_one(a@, b@, c@, d@),
{
    let left = a.to_bytes();
    let left_pair = b.to_bytes();
    let right = c.to_bytes();
    let right_pair = d.to_bytes();
    pairing_check(&left, &left_pair, &right, &right_pair)
}

} // verus!
