use threshold_encryption::interpolation::lagrange_coefficients;
use threshold_encryption::key_generation::evaluate;
use threshold_encryption::scalar::Scalar;
use threshold_encryption::ThresholdEncryptionError;

fn scalars(values: &[u64]) -> Vec<Scalar> {
    values.iter().map(|&v| Scalar::from_u64(v)).collect()
}

fn minus(value: u64) -> [u64; 4] {
    Scalar::zero().sub(&Scalar::from_u64(value)).to_limbs()
}

fn limbs(result: Result<Vec<Scalar>, ThresholdEncryptionError>) -> Vec<[u64; 4]> {
    result.unwrap().iter().map(|s| s.to_limbs()).collect()
}

#[test]
fn coefficients_of_one_two_three() {
    // 3, -3, 1
    let weights = limbs(lagrange_coefficients(&scalars(&[1, 2, 3])));
    assert_eq!(weights, vec![[3, 0, 0, 0], minus(3), [1, 0, 0, 0]]);
}

#[test]
fn coefficients_follow_the_order_of_the_points() {
    let weights = limbs(lagrange_coefficients(&scalars(&[3, 1, 2])));
    assert_eq!(weights, vec![[1, 0, 0, 0], [3, 0, 0, 0], minus(3)]);
}

#[test]
fn coefficients_of_two_and_four() {
    // (0 - 4) / (2 - 4) = 2 and (0 - 2) / (4 - 2) = -1
    let weights = limbs(lagrange_coefficients(&scalars(&[2, 4])));
    assert_eq!(weights, vec![[2, 0, 0, 0], minus(1)]);
}

#[test]
fn a_single_point_has_the_coefficient_one() {
    let weights = limbs(lagrange_coefficients(&scalars(&[9])));
    assert_eq!(weights, vec![[1, 0, 0, 0]]);
}

#[test]
fn no_points_have_no_coefficients() {
    assert!(lagrange_coefficients(&Vec::new()).unwrap().is_empty());
}

#[test]
fn repeated_points_are_degenerate() {
    assert!(matches!(
        lagrange_coefficients(&scalars(&[1, 2, 1])),
        Err(ThresholdEncryptionError::DegenerateInterpolation)
    ));
    assert!(matches!(
        lagrange_coefficients(&scalars(&[5, 5])),
        Err(ThresholdEncryptionError::DegenerateInterpolation)
    ));
}

#[test]
fn weighted_values_give_the_constant_term() {
    // f(x) = 5 + 3 x + 2 x^2
    let f = scalars(&[5, 3, 2]);
    for points in [[1u64, 2, 3], [2, 4, 5], [5, 1, 3], [7, 100, 12345]] {
        let points = scalars(&points);
        let weights = lagrange_coefficients(&points).unwrap();
        let mut sum = Scalar::zero();
        for (point, weight) in points.iter().zip(weights.iter()) {
            sum = sum.add(&weight.mul(&evaluate(&f, point)));
        }
        assert_eq!(sum.to_limbs(), [5, 0, 0, 0]);
    }
}
