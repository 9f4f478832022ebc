//! Completeness of the scheme: honest shares of any quorum decrypt an honest
//! ciphertext to the message that was encrypted.
//!
//! The contracts of the scheme name what the curve library computes; they
//! do not say that the first group is a group. The laws below therefore take
//! as hypotheses the algebra that the scheme rests on: that the scalars form
//! a field, that the multiples of the generator add and scale as multiples
//! do, and that the pairing is bilinear. Everything else about them is
//! proved.

use crate::congruence::{
    lemma_congruent_add, lemma_congruent_mul, lemma_congruent_residues, lemma_field_operations,
};
use crate::group::{
    g1_generator_encoding, g1_negation, g1_scalar_product, g1_sum, g2_scalar_product, hash_to_g2,
    pairing_product_is_one,
};
use crate::interpolation::{
    difference_invertible, differences_invertible, interpolate_at_zero, lagrange_coefficient,
    lagrange_factor, lagrange_partial, lagrange_weights, weighted_values,
};
use crate::key_generation::{holder_point, keys_match, poly_eval};
use crate::reconstruction::{lemma_interpolation_recovers_secret, values_at};
use crate::scalar::{field_add, field_mul, field_sub, inverse_of, is_inverse_of, modulus};
use crate::scheme::{
    combined_element, combined_plaintext, first_occurrences, is_first_occurrence,
    lemma_combination_recovers_message, lemma_first_occurrences, selected_elements,
    selected_points, selected_positions,
    share_indices, tag_domain, tag_hash, weighted_sum, Ciphertext, DecryptionShare,
    EncryptionPubkey, PrivkeyShare, ShareVerificationPubkey,
};
use vstd::prelude::*;

verus! {

/// The scalars form a field: every residue but zero has an inverse.
pub open spec fn scalars_form_field() -> bool {
    forall|a: nat| 0 < a < modulus() ==> is_inverse_of(a, #[trigger] inverse_of(a))
}

/// The multiple of the generator by a scalar.
pub open spec fn multiple(scalar: nat) -> Seq<u8> {
    g1_scalar_product(g1_generator_encoding(), scalar)
}

/// Scaling a multiple of the generator multiplies the scalars.
#[verifier::opaque]
pub open spec fn multiples_scale() -> bool {
    forall|a: nat, b: nat|
        a < modulus() && b < modulus() ==> #[trigger] g1_scalar_product(multiple(a), b)
            == multiple(field_mul(a, b))
}

/// Adding two multiples of the generator adds the scalars.
#[verifier::opaque]
pub open spec fn multiples_add() -> bool {
    forall|a: nat, b: nat|
        a < modulus() && b < modulus() ==> #[trigger] g1_sum(multiple(a), multiple(b))
            == multiple(field_add(a, b))
}

/// The multiples of the generator add and scale as multiples do, and the
/// generator is its own multiple by one.
pub open spec fn multiples_form_module() -> bool {
    &&& multiple(1) == g1_generator_encoding()
    &&& multiples_scale()
    &&& multiples_add()
}

/// One use of the hypothesis on scaling.
proof fn lemma_scale(a: nat, b: nat)
    requires
        multiples_scale(),
        a < modulus(),
        b < modulus(),
    ensures
        g1_scalar_product(multiple(a), b) == multiple(field_mul(a, b)),
{
    reveal(multiples_scale);
}

/// One use of the hypothesis on addition.
proof fn lemma_add(a: nat, b: nat)
    requires
        multiples_add(),
        a < modulus(),
        b < modulus(),
    ensures
        g1_sum(multiple(a), multiple(b)) == multiple(field_add(a, b)),
{
    reveal(multiples_add);
}

/// The pairing is bilinear: `e(a r G, H) = e(a G, r H)` for all scalars `a`
/// and `r` and every point `H` that a message hashes to.
pub open spec fn pairing_is_bilinear() -> bool {
    forall|a: nat, r: nat, domain: Seq<u8>, message: Seq<u8>|
        a < modulus() && r < modulus() && hash_to_g2(domain, message) is Some
            ==> #[trigger] pairing_product_is_one(
            multiple(field_mul(a, r)),
            hash_to_g2(domain, message)->Some_0,
            g1_negation(multiple(a)),
            g2_scalar_product(hash_to_g2(domain, message)->Some_0, r),
        )
}

/// Whether each share is the one that the holder at its index issues for a
/// ciphertext with the nonce `nonce`.
pub open spec fn honestly_issued(
    shares: Seq<DecryptionShare>,
    privkeys: Seq<PrivkeyShare>,
    nonce: Seq<u8>,
) -> bool {
    forall|j: int|
        0 <= j < shares.len() ==> (#[trigger] shares[j]).decryptor_index < privkeys.len()
            && shares[j].decryption_share@ == g1_scalar_product(
            nonce,
            privkeys[shares[j].decryptor_index as int].privkey@,
        )
}

/// Whether all the coefficients are residues.
pub open spec fn are_residues(coefficients: Seq<nat>) -> bool {
    forall|i: int| 0 <= i < coefficients.len() ==> #[trigger] coefficients[i] < modulus()
}

/// The differences of the points of the selected shares have inverses.
proof fn lemma_selected_points_invertible(shares: Seq<DecryptionShare>, threshold: nat)
    requires
        scalars_form_field(),
        threshold <= first_occurrences(share_indices(shares)).len(),
    ensures
        differences_invertible(selected_points(shares, threshold), 0, threshold as int),
        selected_points(shares, threshold).len() == threshold,
{
    let indices = share_indices(shares);
    let positions = selected_positions(shares, threshold);
    let points = selected_points(shares, threshold);
    lemma_first_occurrences(indices);
    assert forall|a: int, b: int|
        0 <= a < threshold && 0 <= b < threshold && a != b implies #[trigger] difference_invertible(
        points,
        a,
        b,
    ) by {
        let pa = positions[a];
        let pb = positions[b];
        assert(pa == first_occurrences(indices)[a]);
        assert(pb == first_occurrences(indices)[b]);
        assert(indices[pa] == shares[pa].decryptor_index);
        assert(indices[pb] == shares[pb].decryptor_index);
        if a < b {
            assert(pa < pb);
            assert(is_first_occurrence(indices, pb));
        } else {
            assert(pb < pa);
            assert(is_first_occurrence(indices, pa));
        }
        assert(points[a] != points[b]);
        assert(points[a] < modulus() && points[b] < modulus());
        let d = field_sub(points[a], points[b]);
        assert(0 < d < modulus());
    }
}

/// The weighted sum of multiples of the generator is the multiple by the
/// weighted sum of the scalars.
proof fn lemma_weighted_sum(
    elements: Seq<Seq<u8>>,
    weights: Seq<nat>,
    values: Seq<nat>,
    r: nat,
    count: int,
)
    requires
        multiples_form_module(),
        1 <= count,
        r < modulus(),
        forall|k: int|
            0 <= k < count ==> #[trigger] elements[k] == multiple(field_mul(r, values[k])),
        forall|k: int| 0 <= k < count ==> #[trigger] weights[k] < modulus(),
    ensures
        weighted_sum(elements, weights, count) == multiple(
            field_mul(r, weighted_values(weights, values, count)),
        ),
    decreases count,
{
    let k = count - 1;
    let v = values[k];
    let w = weights[k];
    let scaled = field_mul(field_mul(r, v), w);
    let before = weighted_values(weights, values, count - 1);
    let after = weighted_values(weights, values, count);
    // the last term: (r v G) w = (r v w) G
    assert(elements[k] == multiple(field_mul(r, v)));
    assert(weights[k] < modulus());
    lemma_field_operations(r, v);
    lemma_scale(field_mul(r, v), w);
    // r (before + w v) = r before + (r v) w
    let ri = r as int;
    let vi = v as int;
    let wi = w as int;
    let bi = before as int;
    lemma_field_operations(w, v);
    lemma_field_operations(before, field_mul(w, v));
    lemma_field_operations(r, after);
    lemma_field_operations(field_mul(r, v), w);
    lemma_field_operations(r, before);
    lemma_congruent_add(bi, bi, field_mul(w, v) as int, wi * vi);
    lemma_congruent_mul(ri, ri, after as int, bi + wi * vi);
    lemma_congruent_mul(field_mul(r, v) as int, ri * vi, wi, wi);
    assert(ri * (bi + wi * vi) == ri * bi + (ri * vi) * wi) by (nonlinear_arith);
    if count == 1 {
        assert(before == 0);
        assert(ri * 0 + (ri * vi) * wi == (ri * vi) * wi) by (nonlinear_arith);
        lemma_congruent_residues(field_mul(r, after) as int, scaled as int);
    } else {
        lemma_weighted_sum(elements, weights, values, r, count - 1);
        let left = field_mul(r, before);
        lemma_field_operations(left, scaled);
        lemma_add(left, scaled);
        lemma_congruent_add(left as int, ri * bi, scaled as int, (ri * vi) * wi);
        lemma_congruent_residues(field_mul(r, after) as int, field_add(left, scaled) as int);
    }
}

/// Honest shares of a quorum decrypt an honest ciphertext to its message,
/// provided that the scalars form a field, the multiples of the generator
/// form a module over it and the pairing is bilinear.
///
/// Let the keys be those of a polynomial with no more coefficients than the
/// threshold, the ciphertext the encryption of `msg` to the encryption key
/// with a scalar `r`, and every share the one that the holder at its index
/// issues for the ciphertext. If the shares come from at least `threshold`
/// different holders, then the ciphertext is valid and the combination of
/// the shares is `msg`.
pub proof fn lemma_algebra_implies_completeness(
    coefficients: Seq<nat>,
    encryption_key: EncryptionPubkey,
    verification_key: ShareVerificationPubkey,
    privkeys: Seq<PrivkeyShare>,
    msg: Seq<u8>,
    additional_data: Seq<u8>,
    r: nat,
    c: Ciphertext,
    shares: Seq<DecryptionShare>,
    threshold: nat,
)
    requires
        scalars_form_field(),
        multiples_form_module(),
        pairing_is_bilinear(),
        are_residues(coefficients),
        1 <= coefficients.len() <= threshold,
        keys_match(coefficients, privkeys.len(), encryption_key, verification_key, privkeys),
        r < modulus(),
        encryption_key.encrypts_to(msg, additional_data, r, c),
        honestly_issued(shares, privkeys, c.nonce@),
        threshold <= first_occurrences(share_indices(shares)).len(),
    ensures
        c.valid(additional_data),
        combined_plaintext(c.ciphertext@, shares, threshold) == msg,
{
    let secret = coefficients[0];
    assert(secret < modulus());
    // The ciphertext satisfies its pairing equation.
    let hashed = c.nonce@ + c.ciphertext@ + additional_data;
    assert(tag_hash(c.nonce@, c.ciphertext@, additional_data) == hash_to_g2(tag_domain(), hashed));
    assert(field_mul(1, r) == r) by {
        vstd::arithmetic::div_mod::lemma_small_mod(r, modulus());
        assert(1 * r == r);
    }
    assert(pairing_product_is_one(
        multiple(field_mul(1, r)),
        hash_to_g2(tag_domain(), hashed)->Some_0,
        g1_negation(multiple(1)),
        g2_scalar_product(hash_to_g2(tag_domain(), hashed)->Some_0, r),
    ));
    assert(c.valid(additional_data));

    // The selected shares are multiples of the generator by r f(point).
    let indices = share_indices(shares);
    let positions = selected_positions(shares, threshold);
    let points = selected_points(shares, threshold);
    let elements = selected_elements(shares, threshold);
    let weights = lagrange_weights(points);
    let values = values_at(coefficients, points);
    let count = threshold as int;
    lemma_first_occurrences(indices);
    lemma_selected_points_invertible(shares, threshold);
    assert forall|k: int| 0 <= k < count implies #[trigger] elements[k] == multiple(
        field_mul(r, values[k]),
    ) by {
        let position = positions[k];
        assert(position == first_occurrences(indices)[k]);
        let share = shares[position];
        let holder = share.decryptor_index as int;
        assert(holder < privkeys.len());
        assert(privkeys[holder].privkey@ == poly_eval(coefficients, holder_point(holder)));
        assert(points[k] == holder_point(holder));
        assert(values[k] == poly_eval(coefficients, points[k]));
        lemma_field_operations(
            coefficients[0],
            field_mul(points[k], poly_eval(coefficients.drop_first(), points[k])),
        );
        assert(values[k] < modulus());
        assert(elements[k] == g1_scalar_product(multiple(r), values[k]));
        lemma_scale(r, values[k]);
    }
    assert forall|k: int| 0 <= k < count implies #[trigger] weights[k] < modulus() by {
        lemma_coefficient_is_residue(points, k);
    }
    lemma_weighted_sum(elements, weights, values, r, count);

    // The weighted values are the secret.
    lemma_interpolation_recovers_secret(coefficients, points);
    assert(interpolate_at_zero(points, values) == weighted_values(weights, values, count));
    let inner = poly_eval(coefficients.drop_first(), 0);
    assert(0 * inner == 0) by (nonlinear_arith);
    assert(field_mul(0, inner) == 0);
    vstd::arithmetic::div_mod::lemma_small_mod(secret, modulus());
    assert(poly_eval(coefficients, 0) == secret);
    assert(combined_element(shares, threshold) == multiple(field_mul(r, secret)));

    // So is the element that the key of the encryption was derived from.
    lemma_scale(secret, r);
    assert(field_mul(r, secret) == field_mul(secret, r)) by {
        assert(r * secret == secret * r) by (nonlinear_arith);
    }
    lemma_combination_recovers_message(
        encryption_key,
        msg,
        additional_data,
        r,
        c,
        shares,
        threshold,
    );
}

/// The share that a holder issues for an honest ciphertext is accepted,
/// provided that the multiples of the generator form a module over the
/// scalars and the pairing is bilinear.
///
/// Let the keys be those of a polynomial, the ciphertext the encryption of
/// `msg` to the encryption key with a scalar `r`, and the share the one that
/// the holder at its index issues for the ciphertext. Then the share
/// satisfies its pairing equation under the holders' public keys.
pub proof fn lemma_algebra_implies_share_verifies(
    coefficients: Seq<nat>,
    encryption_key: EncryptionPubkey,
    verification_key: ShareVerificationPubkey,
    privkeys: Seq<PrivkeyShare>,
    msg: Seq<u8>,
    additional_data: Seq<u8>,
    r: nat,
    c: Ciphertext,
    share: DecryptionShare,
)
    requires
        multiples_form_module(),
        pairing_is_bilinear(),
        1 <= coefficients.len(),
        keys_match(coefficients, privkeys.len(), encryption_key, verification_key, privkeys),
        r < modulus(),
        encryption_key.encrypts_to(msg, additional_data, r, c),
        honestly_issued(seq![share], privkeys, c.nonce@),
    ensures
        share.satisfies_equation(c, additional_data, verification_key),
{
    let hashed = c.nonce@ + c.ciphertext@ + additional_data;
    assert(tag_hash(c.nonce@, c.ciphertext@, additional_data) == hash_to_g2(tag_domain(), hashed));
    assert(seq![share][0] == share);
    let holder = share.decryptor_index as int;
    let x = poly_eval(coefficients, holder_point(holder));
    assert(privkeys[holder].privkey@ == x);
    assert(verification_key.decryptor_pubkeys@[holder]@ == multiple(x));
    lemma_field_operations(
        coefficients[0],
        field_mul(holder_point(holder), poly_eval(coefficients.drop_first(), holder_point(holder))),
    );
    assert(x < modulus());
    // x (r G) = (x r) G
    lemma_scale(r, x);
    assert(field_mul(r, x) == field_mul(x, r)) by {
        assert(r * x == x * r) by (nonlinear_arith);
    }
    assert(share.decryption_share@ == multiple(field_mul(x, r)));
    assert(pairing_product_is_one(
        multiple(field_mul(x, r)),
        hash_to_g2(tag_domain(), hashed)->Some_0,
        g1_negation(multiple(x)),
        g2_scalar_product(hash_to_g2(tag_domain(), hashed)->Some_0, r),
    ));
}

/// A Lagrange coefficient is a residue.
proof fn lemma_coefficient_is_residue(points: Seq<nat>, k: int)
    ensures
        lagrange_coefficient(points, k) < modulus(),
{
    let to = points.len() as int;
    if to > 0 && to - 1 != k {
        lemma_field_operations(
            lagrange_partial(points, k, 0, to - 1),
            lagrange_factor(points, k, to - 1),
        );
    } else if to > 0 {
        lemma_partial_is_residue(points, k, 0, to - 1);
    }
}

/// A partial product of a Lagrange coefficient is a residue.
proof fn lemma_partial_is_residue(points: Seq<nat>, k: int, from: int, to: int)
    ensures
        lagrange_partial(points, k, from, to) < modulus(),
    decreases to - from,
{
    if to > from {
        if to - 1 == k {
            lemma_partial_is_residue(points, k, from, to - 1);
        } else {
            lemma_field_operations(
                lagrange_partial(points, k, from, to - 1),
                lagrange_factor(points, k, to - 1),
            );
        }
    }
}

/// Any two quorums decrypt an honest ciphertext alike, under the same
/// provisions.
///
/// Under the conditions of `lemma_algebra_implies_completeness`, two
/// collections of honest shares, each from at least `threshold` different
/// holders, combine to the same plaintext.
pub proof fn lemma_algebra_implies_quorums_agree(
    coefficients: Seq<nat>,
    encryption_key: EncryptionPubkey,
    verification_key: ShareVerificationPubkey,
    privkeys: Seq<PrivkeyShare>,
    msg: Seq<u8>,
    additional_data: Seq<u8>,
    r: nat,
    c: Ciphertext,
    first: Seq<DecryptionShare>,
    second: Seq<DecryptionShare>,
    threshold: nat,
)
    requires
        scalars_form_field(),
        multiples_form_module(),
        pairing_is_bilinear(),
        are_residues(coefficients),
        1 <= coefficients.len() <= threshold,
        keys_match(coefficients, privkeys.len(), encryption_key, verification_key, privkeys),
        r < modulus(),
        encryption_key.encrypts_to(msg, additional_data, r, c),
        honestly_issued(first, privkeys, c.nonce@),
        honestly_issued(second, privkeys, c.nonce@),
        threshold <= first_occurrences(share_indices(first)).len(),
        threshold <= first_occurrences(share_indices(second)).len(),
    ensures
        combined_plaintext(c.ciphertext@, first, threshold) == combined_plaintext(
            c.ciphertext@,
            second,
            threshold,
        ),
{
    lemma_algebra_implies_completeness(
        coefficients,
        encryption_key,
        verification_key,
        privkeys,
        msg,
        additional_data,
        r,
        c,
        first,
        threshold,
    );
    lemma_algebra_implies_completeness(
        coefficients,
        encryption_key,
        verification_key,
        privkeys,
        msg,
        additional_data,
        r,
        c,
        second,
        threshold,
    );
}

} // verus!
