//! Why interpolation at zero reconstructs a shared secret.
//!
//! The holders' private scalars are the values of one polynomial of degree
//! below the threshold. Weighted by the Lagrange coefficients of any
//! threshold many distinct holders, they sum to the value of the polynomial
//! at zero: the master secret, whichever holders take part.

use crate::congruence::{
    congruent, lemma_cancel_unit, lemma_congruent_add, lemma_congruent_mul,
    lemma_congruent_residues, lemma_congruent_sub, lemma_field_operations,
};
use crate::interpolation::{
    difference_invertible, differences_invertible, interpolate_at_zero, lagrange_coefficient,
    lagrange_factor, lagrange_partial, lagrange_weights, weighted_values,
};
use crate::key_generation::poly_eval;
use crate::scalar::{field_mul, field_sub, inverse_of, modulus};
use vstd::prelude::*;

verus! {

/// The point at a position, as an integer.
pub open spec fn point(points: Seq<nat>, k: int) -> int {
    points[k] as int
}

/// `base` to the power of `exponent`.
pub open spec fn power(base: int, exponent: nat) -> int
    decreases exponent,
{
    if exponent == 0 {
        1
    } else {
        base * power(base, (exponent - 1) as nat)
    }
}

/// The Lagrange coefficient of the point at position `k` among the points
/// at the positions from `from` up to `to`, as an integer.
pub open spec fn weight(points: Seq<nat>, k: int, from: int, to: int) -> int {
    lagrange_partial(points, k, from, to) as int
}

/// The sum, over the positions `k` from `from` up to `upto`, of the
/// coefficient of the point at `k` among the points from `from` up to `to`,
/// times that point to the power of `exponent`.
pub open spec fn weighted_power_sum(
    points: Seq<nat>,
    from: int,
    to: int,
    upto: int,
    exponent: nat,
) -> int
    decreases upto - from,
{
    if upto <= from {
        0
    } else {
        weighted_power_sum(points, from, to, upto - 1, exponent) + weight(
            points,
            upto - 1,
            from,
            to,
        ) * power(point(points, upto - 1), exponent)
    }
}

/// A factor of a coefficient, times the difference that it divides by, is
/// the negated point that it multiplies by.
proof fn lemma_factor(points: Seq<nat>, k: int, j: int)
    requires
        difference_invertible(points, k, j),
    ensures
        congruent(
            lagrange_factor(points, k, j) * (point(points, k) - point(points, j)),
            -point(points, j),
        ),
{
    let pk = point(points, k);
    let pj = point(points, j);
    let d = field_sub(points[k], points[j]) as int;
    let e = inverse_of(field_sub(points[k], points[j])) as int;
    let negated = field_sub(0, points[j]) as int;
    let factor = lagrange_factor(points, k, j) as int;
    lemma_field_operations(points[k], points[j]);
    lemma_field_operations(0, points[j]);
    lemma_field_operations(field_sub(0, points[j]), inverse_of(field_sub(points[k], points[j])));
    assert(congruent(d, pk - pj));
    assert(congruent(negated, -pj));
    assert(congruent(factor, negated * e));
    assert(congruent(d * e, 1));
    lemma_congruent_mul(factor, negated * e, pk - pj, d);
    assert((negated * e) * d == negated * (d * e)) by (nonlinear_arith);
    lemma_congruent_mul(negated, -pj, d * e, 1);
    assert((-pj) * 1 == -pj);
}

/// How a coefficient changes when the last point leaves.
proof fn lemma_peel_last(points: Seq<nat>, k: int, from: int, to: int)
    requires
        from < to,
        k != to - 1,
        difference_invertible(points, k, to - 1),
    ensures
        congruent(
            (point(points, k) - point(points, to - 1)) * weight(points, k, from, to),
            (-point(points, to - 1)) * weight(points, k, from, to - 1),
        ),
{
    let pk = point(points, k);
    let pl = point(points, to - 1);
    let shorter = weight(points, k, from, to - 1);
    let factor = lagrange_factor(points, k, to - 1) as int;
    lemma_field_operations(
        lagrange_partial(points, k, from, to - 1),
        lagrange_factor(points, k, to - 1),
    );
    assert(congruent(weight(points, k, from, to), shorter * factor));
    lemma_congruent_mul(pk - pl, pk - pl, weight(points, k, from, to), shorter * factor);
    assert((pk - pl) * (shorter * factor) == shorter * (factor * (pk - pl))) by (nonlinear_arith);
    lemma_factor(points, k, to - 1);
    lemma_congruent_mul(shorter, shorter, factor * (pk - pl), -pl);
    assert(shorter * (-pl) == (-pl) * shorter) by (nonlinear_arith);
}

/// How a coefficient changes when the first point leaves.
proof fn lemma_peel_first(points: Seq<nat>, k: int, from: int, to: int)
    requires
        from < to,
        k != from,
        difference_invertible(points, k, from),
    ensures
        congruent(
            (point(points, k) - point(points, from)) * weight(points, k, from, to),
            (-point(points, from)) * weight(points, k, from + 1, to),
        ),
    decreases to - from,
{
    let pk = point(points, k);
    let pf = point(points, from);
    if to == from + 1 {
        let factor = lagrange_factor(points, k, from) as int;
        assert(lagrange_partial(points, k, from, from) == 1);
        assert(lagrange_partial(points, k, from + 1, from + 1) == 1);
        lemma_field_operations(1, lagrange_factor(points, k, from));
        assert(congruent(weight(points, k, from, to), 1 * factor));
        lemma_congruent_mul(pk - pf, pk - pf, weight(points, k, from, to), 1 * factor);
        assert((pk - pf) * (1 * factor) == factor * (pk - pf)) by (nonlinear_arith);
        lemma_factor(points, k, from);
        assert((-pf) * 1 == -pf);
    } else if to - 1 == k {
        lemma_peel_first(points, k, from, to - 1);
    } else {
        let factor = lagrange_factor(points, k, to - 1) as int;
        let long = weight(points, k, from, to - 1);
        let short = weight(points, k, from + 1, to - 1);
        lemma_peel_first(points, k, from, to - 1);
        lemma_field_operations(
            lagrange_partial(points, k, from, to - 1),
            lagrange_factor(points, k, to - 1),
        );
        lemma_field_operations(
            lagrange_partial(points, k, from + 1, to - 1),
            lagrange_factor(points, k, to - 1),
        );
        assert(congruent(weight(points, k, from, to), long * factor));
        assert(congruent(weight(points, k, from + 1, to), short * factor));
        // (pk - pf) * w = ((pk - pf) * long) * factor = ((-pf) * short) * factor
        lemma_congruent_mul(pk - pf, pk - pf, weight(points, k, from, to), long * factor);
        assert((pk - pf) * (long * factor) == ((pk - pf) * long) * factor) by (nonlinear_arith);
        lemma_congruent_mul((pk - pf) * long, (-pf) * short, factor, factor);
        assert(((-pf) * short) * factor == (-pf) * (short * factor)) by (nonlinear_arith);
        lemma_congruent_mul(-pf, -pf, short * factor, weight(points, k, from + 1, to));
    }
}

/// The part that the point at position `k` has in the sum of the
/// coefficients of the points from `from + 1` up to `to`, scaled by the
/// negated first point.
spec fn without_first(points: Seq<nat>, k: int, from: int, to: int) -> int {
    if k > from {
        (-point(points, from)) * weight(points, k, from + 1, to)
    } else {
        0
    }
}

/// The part that the point at position `k` has in the sum of the
/// coefficients of the points from `from` up to `to - 1`, scaled by the
/// last point.
spec fn without_last(points: Seq<nat>, k: int, from: int, to: int) -> int {
    if k < to - 1 {
        point(points, to - 1) * weight(points, k, from, to - 1)
    } else {
        0
    }
}

/// A coefficient among all the points, in terms of the coefficients of the
/// same point among all but the first and among all but the last.
proof fn lemma_neville_term(points: Seq<nat>, k: int, from: int, to: int)
    requires
        from <= k < to,
        to - from >= 2,
        differences_invertible(points, from, to),
    ensures
        congruent(
            (point(points, to - 1) - point(points, from)) * weight(points, k, from, to),
            without_first(points, k, from, to) + without_last(points, k, from, to),
        ),
{
    let pk = point(points, k);
    let pf = point(points, from);
    let pl = point(points, to - 1);
    let w = weight(points, k, from, to);
    let w1 = weight(points, k, from + 1, to);
    let w2 = weight(points, k, from, to - 1);
    if k > from {
        assert(difference_invertible(points, k, from));
        lemma_peel_first(points, k, from, to);
    }
    if k < to - 1 {
        assert(difference_invertible(points, k, to - 1));
        lemma_peel_last(points, k, from, to);
    }
    if from < k < to - 1 {
        lemma_congruent_sub((pk - pf) * w, (-pf) * w1, (pk - pl) * w, (-pl) * w2);
        assert((pl - pf) * w == (pk - pf) * w - (pk - pl) * w) by (nonlinear_arith);
        assert((-pf) * w1 - (-pl) * w2 == (-pf) * w1 + pl * w2) by (nonlinear_arith);
    } else if k == from {
        lemma_congruent_sub(0, 0, (pk - pl) * w, (-pl) * w2);
        assert((pl - pf) * w == 0 - (pk - pl) * w) by (nonlinear_arith)
            requires
                pk == pf,
        ;
        assert(0 - (-pl) * w2 == 0 + pl * w2) by (nonlinear_arith);
    } else {
        assert(pk == pl);
    }
}

/// The position up to which the sum over all but the last point runs when
/// the sum over all points runs up to `upto`.
spec fn capped(upto: int, to: int) -> int {
    if upto < to {
        upto
    } else {
        to - 1
    }
}

/// The sum of the coefficients among all the points, in terms of the sums
/// among all but the first and among all but the last.
proof fn lemma_neville_partial(points: Seq<nat>, from: int, to: int, upto: int)
    requires
        to - from >= 2,
        from + 1 <= upto <= to,
        differences_invertible(points, from, to),
    ensures
        congruent(
            (point(points, to - 1) - point(points, from)) * weighted_power_sum(
                points,
                from,
                to,
                upto,
                0,
            ),
            (-point(points, from)) * weighted_power_sum(points, from + 1, to, upto, 0) + point(
                points,
                to - 1,
            ) * weighted_power_sum(points, from, to - 1, capped(upto, to), 0),
        ),
    decreases upto - from,
{
    let d = point(points, to - 1) - point(points, from);
    let pf = point(points, from);
    let pl = point(points, to - 1);
    let k = upto - 1;
    let w = weight(points, k, from, to);
    let w1 = weight(points, k, from + 1, to);
    let w2 = weight(points, k, from, to - 1);
    lemma_neville_term(points, k, from, to);
    assert(power(point(points, k), 0) == 1);
    if upto == from + 1 {
        assert(weighted_power_sum(points, from, to, from, 0) == 0);
        assert(weighted_power_sum(points, from, to - 1, from, 0) == 0);
        assert(weighted_power_sum(points, from, to, upto, 0) == w) by (nonlinear_arith)
            requires
                weighted_power_sum(points, from, to, upto, 0) == 0 + w * 1,
        ;
        assert(weighted_power_sum(points, from, to - 1, upto, 0) == w2) by (nonlinear_arith)
            requires
                weighted_power_sum(points, from, to - 1, upto, 0) == 0 + w2 * 1,
        ;
        assert(weighted_power_sum(points, from + 1, to, upto, 0) == 0);
        assert((-pf) * 0 + pl * w2 == 0 + pl * w2) by (nonlinear_arith);
    } else {
        lemma_neville_partial(points, from, to, upto - 1);
        let s = weighted_power_sum(points, from, to, upto - 1, 0);
        let s1 = weighted_power_sum(points, from + 1, to, upto - 1, 0);
        let s2 = weighted_power_sum(points, from, to - 1, capped(upto - 1, to), 0);
        assert(capped(upto - 1, to) == upto - 1);
        assert(weighted_power_sum(points, from, to, upto, 0) == s + w * 1);
        assert(weighted_power_sum(points, from + 1, to, upto, 0) == s1 + w1 * 1);
        lemma_congruent_add(
            d * s,
            (-pf) * s1 + pl * s2,
            d * w,
            without_first(points, k, from, to) + without_last(points, k, from, to),
        );
        assert(d * (s + w * 1) == d * s + d * w) by (nonlinear_arith);
        if k < to - 1 {
            assert(weighted_power_sum(points, from, to - 1, capped(upto, to), 0) == s2 + w2 * 1);
            assert(((-pf) * s1 + pl * s2) + ((-pf) * w1 + pl * w2) == (-pf) * (s1 + w1 * 1) + pl
                * (s2 + w2 * 1)) by (nonlinear_arith);
        } else {
            assert(capped(upto, to) == upto - 1);
            assert(((-pf) * s1 + pl * s2) + ((-pf) * w1 + 0) == (-pf) * (s1 + w1 * 1) + pl * s2)
                by (nonlinear_arith);
        }
    }
}

/// The Lagrange coefficients at zero of any points sum to one.
pub proof fn lemma_partition_of_unity(points: Seq<nat>, from: int, to: int)
    requires
        from < to,
        differences_invertible(points, from, to),
    ensures
        congruent(weighted_power_sum(points, from, to, to, 0), 1),
    decreases to - from,
{
    if to == from + 1 {
        assert(lagrange_partial(points, from, from, from) == 1);
        assert(weight(points, from, from, to) == 1);
        assert(power(point(points, from), 0) == 1);
        assert(weighted_power_sum(points, from, to, from, 0) == 0);
        assert(weighted_power_sum(points, from, to, to, 0) == 0 + 1 * 1);
    } else {
        let pf = point(points, from);
        let pl = point(points, to - 1);
        let d = pl - pf;
        let s = weighted_power_sum(points, from, to, to, 0);
        let s1 = weighted_power_sum(points, from + 1, to, to, 0);
        let s2 = weighted_power_sum(points, from, to - 1, to - 1, 0);
        lemma_neville_partial(points, from, to, to);
        lemma_partition_of_unity(points, from + 1, to);
        lemma_partition_of_unity(points, from, to - 1);
        // d * s = (-pf) * s1 + pl * s2 = (-pf) * 1 + pl * 1 = d
        lemma_congruent_mul(-pf, -pf, s1, 1);
        lemma_congruent_mul(pl, pl, s2, 1);
        lemma_congruent_add((-pf) * s1, (-pf) * 1, pl * s2, pl * 1);
        assert((-pf) * 1 + pl * 1 == 1 * d) by (nonlinear_arith)
            requires
                d == pl - pf,
        ;
        assert(congruent(d * s, 1 * d));
        // the difference of the last and the first point has an inverse
        assert(difference_invertible(points, to - 1, from));
        let unit = field_sub(points[to - 1], points[from]);
        lemma_field_operations(points[to - 1], points[from]);
        assert(congruent(unit as int, d));
        lemma_congruent_mul(s, s, unit as int, d);
        lemma_congruent_mul(1, 1, unit as int, d);
        assert(s * d == d * s) by (nonlinear_arith);
        lemma_cancel_unit(s, 1, unit, inverse_of(unit));
    }
}

/// The weighted sum of a power of the points, in terms of the sums of the
/// power below among all the points and among all but the last.
proof fn lemma_power_partial(points: Seq<nat>, to: int, upto: int, exponent: nat)
    requires
        1 <= exponent,
        0 <= upto <= to,
        differences_invertible(points, 0, to),
    ensures
        congruent(
            weighted_power_sum(points, 0, to, upto, exponent),
            (-point(points, to - 1)) * weighted_power_sum(
                points,
                0,
                to - 1,
                capped(upto, to),
                (exponent - 1) as nat,
            ) + point(points, to - 1) * weighted_power_sum(
                points,
                0,
                to,
                upto,
                (exponent - 1) as nat,
            ),
        ),
    decreases upto,
{
    let below = (exponent - 1) as nat;
    let pl = point(points, to - 1);
    if upto == 0 {
        assert(weighted_power_sum(points, 0, to, 0, exponent) == 0);
        assert(weighted_power_sum(points, 0, to, 0, below) == 0);
        assert(weighted_power_sum(points, 0, to - 1, capped(0, to), below) == 0);
        assert((-pl) * 0 + pl * 0 == 0) by (nonlinear_arith);
    } else {
        let k = upto - 1;
        let pk = point(points, k);
        let w = weight(points, k, 0, to);
        let w2 = weight(points, k, 0, to - 1);
        let q = power(pk, below);
        let s = weighted_power_sum(points, 0, to, upto - 1, exponent);
        let t = weighted_power_sum(points, 0, to, upto - 1, below);
        let t2 = weighted_power_sum(points, 0, to - 1, capped(upto - 1, to), below);
        lemma_power_partial(points, to, upto - 1, exponent);
        assert(capped(upto - 1, to) == upto - 1);
        assert(power(pk, exponent) == pk * q);
        assert(weighted_power_sum(points, 0, to, upto, exponent) == s + w * (pk * q));
        assert(weighted_power_sum(points, 0, to, upto, below) == t + w * q);
        if k < to - 1 {
            assert(difference_invertible(points, k, to - 1));
            lemma_peel_last(points, k, 0, to);
            // w * pk * q = ((pk - pl) * w) * q + pl * (w * q)
            lemma_congruent_mul((pk - pl) * w, (-pl) * w2, q, q);
            lemma_congruent_add(((pk - pl) * w) * q, ((-pl) * w2) * q, pl * (w * q), pl * (w * q));
            assert(w * (pk * q) == ((pk - pl) * w) * q + pl * (w * q)) by (nonlinear_arith);
            lemma_congruent_add(
                s,
                (-pl) * t2 + pl * t,
                w * (pk * q),
                ((-pl) * w2) * q + pl * (w * q),
            );
            assert(weighted_power_sum(points, 0, to - 1, capped(upto, to), below) == t2 + w2 * q);
            assert(((-pl) * t2 + pl * t) + (((-pl) * w2) * q + pl * (w * q)) == (-pl) * (t2 + w2
                * q) + pl * (t + w * q)) by (nonlinear_arith);
        } else {
            assert(capped(upto, to) == upto - 1);
            assert(pk == pl);
            assert(w * (pk * q) == pl * (w * q)) by (nonlinear_arith)
                requires
                    pk == pl,
            ;
            lemma_congruent_add(s, (-pl) * t2 + pl * t, w * (pk * q), pl * (w * q));
            assert(((-pl) * t2 + pl * t) + pl * (w * q) == (-pl) * t2 + pl * (t + w * q))
                by (nonlinear_arith);
        }
    }
}

/// Weighted by the Lagrange coefficients, the points to a power that is at
/// least one and below their number sum to zero.
pub proof fn lemma_power_sums_vanish(points: Seq<nat>, to: int, exponent: nat)
    requires
        1 <= exponent < to,
        differences_invertible(points, 0, to),
    ensures
        congruent(weighted_power_sum(points, 0, to, to, exponent), 0),
    decreases to, exponent,
{
    let below = (exponent - 1) as nat;
    let pl = point(points, to - 1);
    let shorter = weighted_power_sum(points, 0, to - 1, to - 1, below);
    let same = weighted_power_sum(points, 0, to, to, below);
    lemma_power_partial(points, to, to, exponent);
    assert(capped(to, to) == to - 1);
    if exponent == 1 {
        lemma_partition_of_unity(points, 0, to - 1);
        lemma_partition_of_unity(points, 0, to);
        lemma_congruent_mul(-pl, -pl, shorter, 1);
        lemma_congruent_mul(pl, pl, same, 1);
        lemma_congruent_add((-pl) * shorter, (-pl) * 1, pl * same, pl * 1);
        assert((-pl) * 1 + pl * 1 == 0) by (nonlinear_arith);
    } else {
        lemma_power_sums_vanish(points, to - 1, below);
        lemma_power_sums_vanish(points, to, below);
        lemma_congruent_mul(-pl, -pl, shorter, 0);
        lemma_congruent_mul(pl, pl, same, 0);
        lemma_congruent_add((-pl) * shorter, (-pl) * 0, pl * same, pl * 0);
        assert((-pl) * 0 + pl * 0 == 0) by (nonlinear_arith);
    }
}

/// The sum, over the positions `k` below `upto`, of the coefficient of the
/// point at `k` among the first `to` points, times that point to the power
/// of `exponent`, times the value of a polynomial at that point.
pub open spec fn weighted_polynomial_sum(
    points: Seq<nat>,
    to: int,
    upto: int,
    exponent: nat,
    coefficients: Seq<nat>,
) -> int
    decreases upto,
{
    if upto <= 0 {
        0
    } else {
        weighted_polynomial_sum(points, to, upto - 1, exponent, coefficients) + weight(
            points,
            upto - 1,
            0,
            to,
        ) * (power(point(points, upto - 1), exponent) * poly_eval(coefficients, points[upto - 1]))
    }
}

/// The weighted sum for the polynomial without coefficients is zero.
proof fn lemma_polynomial_sum_empty(points: Seq<nat>, to: int, upto: int, exponent: nat)
    ensures
        weighted_polynomial_sum(points, to, upto, exponent, Seq::<nat>::empty()) == 0,
    decreases upto,
{
    if upto > 0 {
        lemma_polynomial_sum_empty(points, to, upto - 1, exponent);
        let k = upto - 1;
        let w = weight(points, k, 0, to);
        let q = power(point(points, k), exponent);
        assert(poly_eval(Seq::<nat>::empty(), points[k]) == 0);
        assert(w * (q * 0) == 0) by (nonlinear_arith);
    }
}

/// The weighted sum for a polynomial, in terms of the sum for its constant
/// term and the sum for the polynomial of its other coefficients.
proof fn lemma_polynomial_partial(
    points: Seq<nat>,
    to: int,
    upto: int,
    exponent: nat,
    coefficients: Seq<nat>,
)
    requires
        coefficients.len() >= 1,
        0 <= upto,
    ensures
        congruent(
            weighted_polynomial_sum(points, to, upto, exponent, coefficients),
            coefficients[0] * weighted_power_sum(points, 0, to, upto, exponent)
                + weighted_polynomial_sum(
                points,
                to,
                upto,
                exponent + 1,
                coefficients.drop_first(),
            ),
        ),
    decreases upto,
{
    let c0 = coefficients[0] as int;
    let rest = coefficients.drop_first();
    if upto == 0 {
        assert(weighted_power_sum(points, 0, to, 0, exponent) == 0);
        assert(c0 * 0 + 0 == 0) by (nonlinear_arith);
    } else {
        let k = upto - 1;
        let pk = point(points, k);
        let w = weight(points, k, 0, to);
        let q = power(pk, exponent);
        let value = poly_eval(coefficients, points[k]) as int;
        let inner = poly_eval(rest, points[k]) as int;
        let s = weighted_polynomial_sum(points, to, upto - 1, exponent, coefficients);
        let e = weighted_power_sum(points, 0, to, upto - 1, exponent);
        let r = weighted_polynomial_sum(points, to, upto - 1, exponent + 1, rest);
        lemma_polynomial_partial(points, to, upto - 1, exponent, coefficients);
        // the value of the polynomial, by Horner's rule
        lemma_field_operations(points[k], poly_eval(rest, points[k]));
        lemma_field_operations(coefficients[0], field_mul(points[k], poly_eval(rest, points[k])));
        lemma_congruent_add(
            c0,
            c0,
            field_mul(points[k], poly_eval(rest, points[k])) as int,
            pk * inner,
        );
        assert(congruent(value, c0 + pk * inner));
        assert(power(pk, exponent + 1) == pk * q);
        lemma_congruent_mul(w * q, w * q, value, c0 + pk * inner);
        assert(w * (q * value) == (w * q) * value) by (nonlinear_arith);
        assert((w * q) * (c0 + pk * inner) == c0 * (w * q) + w * ((pk * q) * inner))
            by (nonlinear_arith);
        lemma_congruent_add(s, c0 * e + r, w * (q * value), c0 * (w * q) + w * ((pk * q) * inner));
        assert((c0 * e + r) + (c0 * (w * q) + w * ((pk * q) * inner)) == c0 * (e + w * q) + (r + w
            * ((pk * q) * inner))) by (nonlinear_arith);
    }
}

/// What the weighted sum for a polynomial of degree below the number of
/// the points is congruent to.
pub open spec fn constant_term(exponent: nat, coefficients: Seq<nat>) -> int {
    if exponent == 0 && coefficients.len() > 0 {
        coefficients[0] as int
    } else {
        0
    }
}

/// Weighted by the Lagrange coefficients, the values of a polynomial of
/// degree below the number of the points sum to its constant term.
pub proof fn lemma_polynomial_sum(
    points: Seq<nat>,
    to: int,
    exponent: nat,
    coefficients: Seq<nat>,
)
    requires
        1 <= to,
        exponent + coefficients.len() <= to,
        differences_invertible(points, 0, to),
    ensures
        congruent(
            weighted_polynomial_sum(points, to, to, exponent, coefficients),
            constant_term(exponent, coefficients),
        ),
    decreases coefficients.len(),
{
    if coefficients.len() == 0 {
        assert(coefficients =~= Seq::<nat>::empty());
        lemma_polynomial_sum_empty(points, to, to, exponent);
    } else {
        let c0 = coefficients[0] as int;
        let rest = coefficients.drop_first();
        let e = weighted_power_sum(points, 0, to, to, exponent);
        let r = weighted_polynomial_sum(points, to, to, exponent + 1, rest);
        lemma_polynomial_partial(points, to, to, exponent, coefficients);
        lemma_polynomial_sum(points, to, exponent + 1, rest);
        assert(congruent(r, 0));
        if exponent == 0 {
            lemma_partition_of_unity(points, 0, to);
            lemma_congruent_mul(c0, c0, e, 1);
            lemma_congruent_add(c0 * e, c0 * 1, r, 0);
            assert(c0 * 1 + 0 == c0) by (nonlinear_arith);
        } else {
            lemma_power_sums_vanish(points, to, exponent);
            lemma_congruent_mul(c0, c0, e, 0);
            lemma_congruent_add(c0 * e, c0 * 0, r, 0);
            assert(c0 * 0 + 0 == 0) by (nonlinear_arith);
        }
    }
}

/// The values of a polynomial at the points.
pub open spec fn values_at(coefficients: Seq<nat>, points: Seq<nat>) -> Seq<nat> {
    Seq::new(points.len(), |k: int| poly_eval(coefficients, points[k]))
}

/// The weighted sum in the field is the weighted sum in the integers, up to
/// congruence.
proof fn lemma_weighted_values(coefficients: Seq<nat>, points: Seq<nat>, upto: int)
    requires
        0 <= upto <= points.len(),
    ensures
        congruent(
            weighted_values(lagrange_weights(points), values_at(coefficients, points), upto) as int,
            weighted_polynomial_sum(points, points.len() as int, upto, 0, coefficients),
        ),
        weighted_values(lagrange_weights(points), values_at(coefficients, points), upto)
            < modulus(),
    decreases upto,
{
    if upto > 0 {
        let n = points.len() as int;
        let k = upto - 1;
        let weights = lagrange_weights(points);
        let values = values_at(coefficients, points);
        let before = weighted_values(weights, values, upto - 1);
        let w = weight(points, k, 0, n);
        let v = poly_eval(coefficients, points[k]) as int;
        lemma_weighted_values(coefficients, points, upto - 1);
        assert(weights[k] == lagrange_coefficient(points, k));
        assert(values[k] == poly_eval(coefficients, points[k]));
        lemma_field_operations(weights[k], values[k]);
        lemma_field_operations(before, field_mul(weights[k], values[k]));
        lemma_congruent_add(
            before as int,
            weighted_polynomial_sum(points, n, upto - 1, 0, coefficients),
            field_mul(weights[k], values[k]) as int,
            w * v,
        );
        assert(power(point(points, k), 0) == 1);
        assert(w * (1 * v) == w * v) by (nonlinear_arith);
    }
}

/// Interpolation at zero recovers the constant term.
///
/// The values that a polynomial takes at any points, no fewer than its
/// coefficients, interpolate to the value that it takes at zero. For the
/// polynomial of the dealer and the points of any holders, as many as the
/// threshold or more, that is the master secret.
pub proof fn lemma_interpolation_recovers_secret(coefficients: Seq<nat>, points: Seq<nat>)
    requires
        coefficients.len() <= points.len(),
        differences_invertible(points, 0, points.len() as int),
    ensures
        interpolate_at_zero(points, values_at(coefficients, points)) == poly_eval(coefficients, 0),
{
    let n = points.len() as int;
    let sum = interpolate_at_zero(points, values_at(coefficients, points));
    lemma_weighted_values(coefficients, points, n);
    if n == 0 {
        assert(coefficients.len() == 0);
    } else {
        lemma_polynomial_sum(points, n, 0, coefficients);
        if coefficients.len() == 0 {
            lemma_congruent_residues(sum as int, 0);
        } else {
            let inner = poly_eval(coefficients.drop_first(), 0);
            lemma_field_operations(0, inner);
            lemma_field_operations(coefficients[0], field_mul(0, inner));
            assert(0 * inner == 0) by (nonlinear_arith);
            assert(field_mul(0, inner) == 0);
            assert(congruent(poly_eval(coefficients, 0) as int, coefficients[0] as int));
            lemma_congruent_residues(sum as int, poly_eval(coefficients, 0) as int);
        }
    }
}

/// Any two quorums reconstruct the same secret.
///
/// Whichever points the values of one polynomial are taken at, as long as
/// they are no fewer than its coefficients, the values interpolate to the
/// same value at zero.
pub proof fn lemma_quorums_agree(coefficients: Seq<nat>, first: Seq<nat>, second: Seq<nat>)
    requires
        coefficients.len() <= first.len(),
        coefficients.len() <= second.len(),
        differences_invertible(first, 0, first.len() as int),
        differences_invertible(second, 0, second.len() as int),
    ensures
        interpolate_at_zero(first, values_at(coefficients, first)) == interpolate_at_zero(
            second,
            values_at(coefficients, second),
        ),
{
    lemma_interpolation_recovers_secret(coefficients, first);
    lemma_interpolation_recovers_secret(coefficients, second);
}

} // verus!
