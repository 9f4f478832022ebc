//! Key generation by a trusted dealer.
//!
//! The dealer draws the coefficients of the secret polynomial, derives the
//! keys from them and forgets them: neither the polynomial nor the master
//! secret outlives the call.

use crate::error::{fails_with, ThresholdEncryptionError};
use crate::group::{g1_generator_encoding, g1_scalar_product, G1Point};
use crate::scalar::{field_add, field_mul, scalar_values, Scalar};
use crate::scheme::{EncryptionPubkey, PrivkeyShare, ShareVerificationPubkey};
use ark_std::rand::rngs::StdRng;
use vstd::prelude::*;

verus! {

/// The value at `x` of the polynomial with the given coefficients, the
/// constant term first.
pub open spec fn poly_eval(coefficients: Seq<nat>, x: nat) -> nat
    decreases coefficients.len(),
{
    if coefficients.len() == 0 {
        0
    } else {
        field_add(coefficients[0], field_mul(x, poly_eval(coefficients.drop_first(), x)))
    }
}

/// The point at which the polynomial is evaluated for the holder at
/// position `index`.
pub open spec fn holder_point(index: int) -> nat {
    (index + 1) as nat
}

/// Whether the polynomial can serve `num_keys` holders: its constant term,
/// the master secret, is not zero; its leading coefficient is not zero, so
/// that its degree is one less than the number of its coefficients; and no
/// holder's private scalar is zero.
pub open spec fn polynomial_is_usable(coefficients: Seq<nat>, num_keys: nat) -> bool {
    &&& coefficients.len() >= 1
    &&& coefficients[0] != 0
    &&& coefficients.last() != 0
    &&& forall|i: int|
        0 <= i < num_keys ==> #[trigger] poly_eval(coefficients, holder_point(i)) != 0
}

/// Whether the keys are those that the polynomial gives to `num_keys` holders.
pub open spec fn keys_match(
    coefficients: Seq<nat>,
    num_keys: nat,
    encryption_key: EncryptionPubkey,
    verification_key: ShareVerificationPubkey,
    shares: Seq<PrivkeyShare>,
) -> bool {
    &&& encryption_key.key@ == g1_scalar_product(g1_generator_encoding(), coefficients[0])
    &&& shares.len() == num_keys
    &&& verification_key.decryptor_pubkeys@.len() == num_keys
    &&& forall|i: int|
        0 <= i < num_keys ==> {
            &&& (#[trigger] shares[i]).index == i
            &&& shares[i].privkey@ == poly_eval(coefficients, holder_point(i))
            &&& shares[i].pubkey@ == g1_scalar_product(
                g1_generator_encoding(),
                poly_eval(coefficients, holder_point(i)),
            )
        }
    &&& forall|i: int|
        0 <= i < num_keys ==> (#[trigger] verification_key.decryptor_pubkeys@[i])@
            == g1_scalar_product(g1_generator_encoding(), poly_eval(coefficients, holder_point(i)))
}

/// The value of a polynomial at a point, by Horner's rule.
pub fn evaluate(coefficients: &Vec<Scalar>, x: &Scalar) -> (value: Scalar)
    ensures
        value@ == poly_eval(scalar_values(coefficients@), x@),
{
    let ghost values = scalar_values(coefficients@);
    let n = coefficients.len();
    let mut value = Scalar::zero();
    let mut i = n;
    proof {
        assert(values.subrange(n as int, n as int).len() == 0);
    }
    while i > 0
        invariant
            n == coefficients.len(),
            values == scalar_values(coefficients@),
            i <= n,
            value@ == poly_eval(values.subrange(i as int, n as int), x@),
        decreases i,
    {
        i -= 1;
        let ghost tail = values.subrange(i as int, n as int);
        proof {
            assert(tail.drop_first() =~= values.subrange(i + 1, n as int));
            assert(tail[0] == values[i as int]);
        }
        let scaled = x.mul(&value);
        value = coefficients[i].add(&scaled);
    }
    proof {
        assert(values.subrange(0, n as int) =~= values);
    }
    value
}

/// The keys that a given polynomial gives to `num_keys` holders. The
/// threshold is the number of the coefficients.
pub fn derive_keys(coefficients: &Vec<Scalar>, num_keys: usize) -> (keys: Result<
    (EncryptionPubkey, ShareVerificationPubkey, Vec<PrivkeyShare>),
    ThresholdEncryptionError,
>)
    ensures
        coefficients.len() == 0 || coefficients.len() > num_keys ==> fails_with(
            keys,
            ThresholdEncryptionError::InvalidParameters,
        ),
        1 <= coefficients.len() <= num_keys && !polynomial_is_usable(
            scalar_values(coefficients@),
            num_keys as nat,
        ) ==> fails_with(keys, ThresholdEncryptionError::RandomnessError),
        1 <= coefficients.len() <= num_keys && polynomial_is_usable(
            scalar_values(coefficients@),
            num_keys as nat,
        ) ==> keys is Ok,
        keys matches Ok(k) ==> keys_match(
            scalar_values(coefficients@),
            num_keys as nat,
            k.0,
            k.1,
            k.2@,
        ),
{
    let ghost values = scalar_values(coefficients@);
    let threshold = coefficients.len();
    if threshold == 0 || threshold > num_keys {
        return Err(ThresholdEncryptionError::InvalidParameters);
    }
    if coefficients[0].is_zero() || coefficients[threshold - 1].is_zero() {
        return Err(ThresholdEncryptionError::RandomnessError);
    }
    let generator = G1Point::generator();
    let key = generator.mul(&coefficients[0]);
    let mut shares: Vec<PrivkeyShare> = Vec::new();
    let mut decryptor_pubkeys: Vec<G1Point> = Vec::new();
    let mut index: usize = 0;
    while index < num_keys
        invariant
            values == scalar_values(coefficients@),
            1 <= coefficients.len() <= num_keys,
            values[0] != 0,
            values.last() != 0,
            generator@ == g1_generator_encoding(),
            key@ == g1_scalar_product(g1_generator_encoding(), values[0]),
            index <= num_keys,
            shares.len() == index,
            decryptor_pubkeys.len() == index,
            forall|i: int|
                0 <= i < index ==> #[trigger] poly_eval(values, holder_point(i)) != 0,
            forall|i: int|
                0 <= i < index ==> {
                    &&& (#[trigger] shares[i]).index == i
                    &&& shares[i].privkey@ == poly_eval(values, holder_point(i))
                    &&& shares[i].pubkey@ == g1_scalar_product(
                        g1_generator_encoding(),
                        poly_eval(values, holder_point(i)),
                    )
                },
            forall|i: int|
                0 <= i < index ==> (#[trigger] decryptor_pubkeys[i])@ == g1_scalar_product(
                    g1_generator_encoding(),
                    poly_eval(values, holder_point(i)),
                ),
        decreases num_keys - index,
    {
        let point = Scalar::from_index(index);
        let privkey = evaluate(coefficients, &point);
        if privkey.is_zero() {
            proof {
                assert(poly_eval(values, holder_point(index as int)) == 0);
            }
            return Err(ThresholdEncryptionError::RandomnessError);
        }
        let pubkey = generator.mul(&privkey);
        shares.push(PrivkeyShare { index, privkey, pubkey });
        decryptor_pubkeys.push(pubkey);
        index += 1;
    }
    Ok((EncryptionPubkey { key }, ShareVerificationPubkey { decryptor_pubkeys }, shares))
}

/// Fresh keys for `num_keys` holders, any `threshold` of whom can decrypt.
///
/// The coefficients of the secret polynomial are drawn from `rng`. A draw
/// that gives an unusable polynomial counts as a failure of the randomness
/// source.
pub fn generate_keys(threshold: usize, num_keys: usize, rng: &mut StdRng) -> (keys: Result<
    (EncryptionPubkey, ShareVerificationPubkey, Vec<PrivkeyShare>),
    ThresholdEncryptionError,
>)
    ensures
        threshold == 0 || threshold > num_keys ==> fails_with(
            keys,
            ThresholdEncryptionError::InvalidParameters,
        ),
        1 <= threshold <= num_keys ==> keys is Ok || fails_with(
            keys,
            ThresholdEncryptionError::RandomnessError,
        ),
        keys matches Ok(k) ==> exists|coefficients: Seq<nat>|
            {
                &&& coefficients.len() == threshold
                &&& polynomial_is_usable(coefficients, num_keys as nat)
                &&& #[trigger] keys_match(coefficients, num_keys as nat, k.0, k.1, k.2@)
            },
{
    if threshold == 0 || threshold > num_keys {
        return Err(ThresholdEncryptionError::InvalidParameters);
    }
    let mut coefficients: Vec<Scalar> = Vec::new();
    let mut drawn: usize = 0;
    while drawn < threshold
        invariant
            drawn <= threshold,
            coefficients.len() == drawn,
        decreases threshold - drawn,
    {
        coefficients.push(Scalar::random(rng));
        drawn += 1;
    }
    derive_keys(&coefficients, num_keys)
}

} // verus!
