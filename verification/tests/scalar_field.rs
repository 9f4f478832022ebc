use ark_std::rand::rngs::StdRng;
use ark_std::rand::SeedableRng;
use threshold_encryption::scalar::Scalar;

const MODULUS: [u64; 4] = [
    0xffffffff00000001,
    0x53bda402fffe5bfe,
    0x3339d80809a1d805,
    0x73eda753299d7d48,
];

#[test]
fn small_values_round_trip() {
    assert_eq!(Scalar::from_u64(5).to_limbs(), [5, 0, 0, 0]);
    assert_eq!(Scalar::zero().to_limbs(), [0, 0, 0, 0]);
    assert_eq!(Scalar::one().to_limbs(), [1, 0, 0, 0]);
    assert!(Scalar::zero().is_zero());
    assert!(!Scalar::one().is_zero());
}

#[test]
fn index_maps_to_the_next_integer() {
    assert_eq!(Scalar::from_index(0).to_limbs(), [1, 0, 0, 0]);
    assert_eq!(Scalar::from_index(4).to_limbs(), [5, 0, 0, 0]);
    assert_eq!(Scalar::from_index(usize::MAX).to_limbs(), [0, 1, 0, 0]);
}

#[test]
fn limbs_at_or_above_the_modulus_are_refused() {
    assert!(Scalar::from_limbs(MODULUS).is_none());
    assert!(Scalar::from_limbs([u64::MAX; 4]).is_none());
    let mut below = MODULUS;
    below[0] -= 1;
    assert_eq!(Scalar::from_limbs(below).unwrap().to_limbs(), below);
    let mut above = MODULUS;
    above[1] += 1;
    assert!(Scalar::from_limbs(above).is_none());
}

#[test]
fn addition_wraps_at_the_modulus() {
    let mut below = MODULUS;
    below[0] -= 1;
    let minus_one = Scalar::from_limbs(below).unwrap();
    assert!(minus_one.add(&Scalar::one()).is_zero());
    assert_eq!(minus_one.add(&Scalar::from_u64(3)).to_limbs(), [2, 0, 0, 0]);
    assert_eq!(Scalar::from_u64(2).add(&Scalar::from_u64(3)).to_limbs(), [5, 0, 0, 0]);
}

#[test]
fn subtraction_wraps_below_zero() {
    let mut below = MODULUS;
    below[0] -= 1;
    assert_eq!(Scalar::zero().sub(&Scalar::one()).to_limbs(), below);
    assert_eq!(Scalar::from_u64(7).sub(&Scalar::from_u64(3)).to_limbs(), [4, 0, 0, 0]);
}

#[test]
fn multiplication_reduces() {
    assert_eq!(Scalar::from_u64(6).mul(&Scalar::from_u64(7)).to_limbs(), [42, 0, 0, 0]);
    let big = Scalar::from_u64(u64::MAX);
    assert_eq!(big.mul(&big).to_limbs(), [1, u64::MAX - 1, 0, 0]);
    let mut below = MODULUS;
    below[0] -= 1;
    let minus_one = Scalar::from_limbs(below).unwrap();
    assert_eq!(minus_one.mul(&minus_one).to_limbs(), [1, 0, 0, 0]);
}

#[test]
fn inverse_multiplies_to_one() {
    assert!(Scalar::zero().inverse().is_none());
    let seven = Scalar::from_u64(7);
    let inverse = seven.inverse().unwrap();
    assert!(seven.mul(&inverse).equals(&Scalar::one()));
    assert!(!inverse.equals(&seven));
    assert!(Scalar::one().inverse().unwrap().equals(&Scalar::one()));
}

#[test]
fn random_scalars_differ_and_are_canonical() {
    let mut rng = StdRng::seed_from_u64(5);
    let first = Scalar::random(&mut rng);
    let second = Scalar::random(&mut rng);
    assert!(!first.equals(&second));
    assert!(Scalar::from_limbs(first.to_limbs()).is_some());
    assert!(Scalar::from_limbs(second.to_limbs()).is_some());
    let again = Scalar::random(&mut StdRng::seed_from_u64(5));
    assert!(first.equals(&again));
}

#[test]
fn equality_compares_all_limbs() {
    let a = Scalar::from_limbs([1, 2, 3, 4]).unwrap();
    assert!(a.equals(&Scalar::from_limbs([1, 2, 3, 4]).unwrap()));
    assert!(!a.equals(&Scalar::from_limbs([1, 2, 3, 5]).unwrap()));
    assert!(!a.equals(&Scalar::from_limbs([0, 2, 3, 4]).unwrap()));
    assert!(!Scalar::from_limbs([0, 0, 0, 1]).unwrap().is_zero());
}
