//! Lagrange interpolation at zero over the scalar field.
//!
//! For pairwise distinct points `p_0, .., p_{t-1}` the coefficient of the
//! point `p_k` is the product, over every other point `p_j`, of
//! `(0 - p_j) / (p_k - p_j)`. A polynomial of degree below `t` takes at zero
//! the sum of its values at the points, each weighted by the coefficient of
//! its point.

use crate::error::ThresholdEncryptionError;
use crate::scalar::{
    field_add, field_mul, field_sub, inverse_of, is_inverse_of, scalar_values, Scalar,
};
use vstd::prelude::*;

verus! {

/// Whether no two positions of the sequence hold the same point.
pub open spec fn pairwise_distinct(points: Seq<nat>) -> bool {
    forall|i: int, j: int|
        0 <= i < points.len() && 0 <= j < points.len() && i != j ==> points[i] != points[j]
}

/// The factor that the point at position `j` contributes to the coefficient
/// of the point at position `k`: `(0 - p_j) / (p_k - p_j)`.
pub open spec fn lagrange_factor(points: Seq<nat>, k: int, j: int) -> nat {
    field_mul(field_sub(0, points[j]), inverse_of(field_sub(points[k], points[j])))
}

/// The product of the factors that the points at the positions from `from`
/// up to `to`, but for the point at position `k` itself, contribute to the
/// coefficient of that point.
pub open spec fn lagrange_partial(points: Seq<nat>, k: int, from: int, to: int) -> nat
    decreases to - from,
{
    if to <= from {
        1
    } else if to - 1 == k {
        lagrange_partial(points, k, from, to - 1)
    } else {
        field_mul(lagrange_partial(points, k, from, to - 1), lagrange_factor(points, k, to - 1))
    }
}

/// The Lagrange coefficient at zero of the point at position `k`.
pub open spec fn lagrange_coefficient(points: Seq<nat>, k: int) -> nat {
    lagrange_partial(points, k, 0, points.len() as int)
}

/// Whether the difference of the points at two positions has an inverse.
pub open spec fn difference_invertible(points: Seq<nat>, i: int, j: int) -> bool {
    is_inverse_of(field_sub(points[i], points[j]), inverse_of(field_sub(points[i], points[j])))
}

/// Whether the difference of any two of the points at the positions from
/// `from` up to `to` has an inverse. Modulo a prime that is to say that the
/// points are pairwise distinct.
pub open spec fn differences_invertible(points: Seq<nat>, from: int, to: int) -> bool {
    forall|i: int, j: int|
        from <= i < to && from <= j < to && i != j ==> #[trigger] difference_invertible(
            points,
            i,
            j,
        )
}

/// The Lagrange coefficients at zero of all the points.
pub open spec fn lagrange_weights(points: Seq<nat>) -> Seq<nat> {
    Seq::new(points.len(), |k: int| lagrange_coefficient(points, k))
}

/// The sum of the first `count` values, each multiplied by its weight.
pub open spec fn weighted_values(weights: Seq<nat>, values: Seq<nat>, count: int) -> nat
    decreases count,
{
    if count <= 0 {
        0
    } else {
        field_add(
            weighted_values(weights, values, count - 1),
            field_mul(weights[count - 1], values[count - 1]),
        )
    }
}

/// The value at zero that the values at the points interpolate to.
pub open spec fn interpolate_at_zero(points: Seq<nat>, values: Seq<nat>) -> nat {
    weighted_values(lagrange_weights(points), values, points.len() as int)
}

/// The Lagrange coefficients at zero of the given points, in their order.
/// Points that are not pairwise distinct have none.
pub fn lagrange_coefficients(points: &Vec<Scalar>) -> (weights: Result<
    Vec<Scalar>,
    ThresholdEncryptionError,
>)
    ensures
        weights is Ok <==> pairwise_distinct(scalar_values(points@)),
        weights matches Ok(w) ==> scalar_values(w@) == lagrange_weights(scalar_values(points@)),
        weights is Ok ==> differences_invertible(
            scalar_values(points@),
            0,
            points.len() as int,
        ),
        weights matches Err(e) ==> e == ThresholdEncryptionError::DegenerateInterpolation,
{
    let ghost values = scalar_values(points@);
    let n = points.len();
    let mut weights: Vec<Scalar> = Vec::new();
    let mut k: usize = 0;
    while k < n
        invariant
            n == points.len(),
            values == scalar_values(points@),
            k <= n,
            weights.len() == k,
            forall|i: int|
                0 <= i < k ==> (#[trigger] weights[i])@ == lagrange_coefficient(values, i),
            forall|i: int, j: int|
                0 <= i < k && 0 <= j < n && i != j ==> values[i] != values[j],
            forall|i: int, j: int|
                0 <= i < k && 0 <= j < n && i != j ==> #[trigger] difference_invertible(
                    values,
                    i,
                    j,
                ),
        decreases n - k,
    {
        let mut product = Scalar::one();
        let mut j: usize = 0;
        while j < n
            invariant
                n == points.len(),
                values == scalar_values(points@),
                k < n,
                j <= n,
                product@ == lagrange_partial(values, k as int, 0, j as int),
                forall|i: int| 0 <= i < j && i != k ==> values[i] != values[k as int],
                forall|i: int|
                    0 <= i < j && i != k ==> #[trigger] difference_invertible(values, k as int, i),
            decreases n - j,
        {
            if j != k {
                let pk = points[k];
                let pj = points[j];
                let difference = pk.sub(&pj);
                match difference.inverse() {
                    None => {
                        proof {
                            assert(values[k as int] == values[j as int]);
                        }
                        return Err(ThresholdEncryptionError::DegenerateInterpolation);
                    },
                    Some(inverse) => {
                        let negated = Scalar::zero().sub(&pj);
                        let factor = negated.mul(&inverse);
                        product = product.mul(&factor);
                    },
                }
            }
            j += 1;
        }
        weights.push(product);
        k += 1;
    }
    proof {
        assert(pairwise_distinct(values));
        assert(scalar_values(weights@) =~= lagrange_weights(values));
    }
    Ok(weights)
}

} // verus!
