//! The scalar field of BLS12-381: integers modulo the order of its groups.
//!
//! A [`Scalar`] holds the canonical representative of a residue as four
//! little-endian 64-bit limbs. Its view is that representative as a natural
//! number, and every contract in the crate speaks of scalars through it.
//! The arithmetic itself is done by `ark-ff`.

use ark_bls12_381::Fr;
use ark_ff::{BigInt, Field, PrimeField, UniformRand};
use ark_std::rand::rngs::StdRng;
use vstd::prelude::*;

verus! {

/// The order of the BLS12-381 groups, a prime of 255 bits.
pub open spec fn modulus() -> nat {
    0x73eda753299d7d483339d80809a1d80553bda402fffe5bfeffffffff00000001nat
}

/// The natural number that four little-endian 64-bit limbs stand for.
pub open spec fn limbs_value(limbs: Seq<u64>) -> nat {
    (limbs[0] as nat) + (limbs[1] as nat) * 0x1_0000_0000_0000_0000nat + (limbs[2] as nat)
        * 0x1_0000_0000_0000_0000_0000_0000_0000_0000nat + (limbs[3] as nat)
        * 0x1_0000_0000_0000_0000_0000_0000_0000_0000_0000_0000_0000_0000nat
}

/// The sum of two residues.
pub open spec fn field_add(a: nat, b: nat) -> nat {
    (a + b) % modulus()
}

/// The difference of two residues.
pub open spec fn field_sub(a: nat, b: nat) -> nat {
    ((a + modulus() - b) % (modulus() as int)) as nat
}

/// The product of two residues.
pub open spec fn field_mul(a: nat, b: nat) -> nat {
    (a * b) % modulus()
}

/// Whether `inverse` is the canonical multiplicative inverse of `value`.
pub open spec fn is_inverse_of(value: nat, inverse: nat) -> bool {
    inverse < modulus() && (value * inverse) % modulus() == 1
}

/// The multiplicative inverse of `value` modulo the group order, where one
/// exists. `lemma_inverse_unique` shows that there is at most one.
pub open spec fn inverse_of(value: nat) -> nat {
    choose|inverse: nat| is_inverse_of(value, inverse)
}

/// The random number generator that the scheme draws its scalars from.
#[verifier::external_type_specification]
#[verifier::external_body]
pub struct ExStdRng(StdRng);

/// Calls `Fp::add` of `ark-ff` on two canonical residues: the result is the
/// canonical representative of their sum.
#[verifier::external_body]
fn fr_add(a: &[u64; 4], b: &[u64; 4]) -> (c: [u64; 4])
    requires
        limbs_value(a@) < modulus(),
        limbs_value(b@) < modulus(),
    ensures
        limbs_value(c@) == field_add(limbs_value(a@), limbs_value(b@)),
{
    let x = Fr::from_bigint(BigInt::new(*a)).unwrap();
    let y = Fr::from_bigint(BigInt::new(*b)).unwrap();
    (x + y).into_bigint().0
}

/// Calls `Fp::sub` of `ark-ff` on two canonical residues: the result is the
/// canonical representative of their difference.
#[verifier::external_body]
fn fr_sub(a: &[u64; 4], b: &[u64; 4]) -> (c: [u64; 4])
    requires
        limbs_value(a@) < modulus(),
        limbs_value(b@) < modulus(),
    ensures
        limbs_value(c@) == field_sub(limbs_value(a@), limbs_value(b@)),
{
    let x = Fr::from_bigint(BigInt::new(*a)).unwrap();
    let y = Fr::from_bigint(BigInt::new(*b)).unwrap();
    (x - y).into_bigint().0
}

/// Calls `Fp::mul` of `ark-ff` on two canonical residues: the result is the
/// canonical representative of their product.
#[verifier::external_body]
fn fr_mul(a: &[u64; 4], b: &[u64; 4]) -> (c: [u64; 4])
    requires
        limbs_value(a@) < modulus(),
        limbs_value(b@) < modulus(),
    ensures
        limbs_value(c@) == field_mul(limbs_value(a@), limbs_value(b@)),
{
    let x = Fr::from_bigint(BigInt::new(*a)).unwrap();
    let y = Fr::from_bigint(BigInt::new(*b)).unwrap();
    (x * y).into_bigint().0
}

/// Calls `Field::inverse` of `ark-ff`: `None` for zero, and for any other
/// residue the canonical residue whose product with it is one.
#[verifier::external_body]
fn fr_inverse(a: &[u64; 4]) -> (inverse: Option<[u64; 4]>)
    requires
        limbs_value(a@) < modulus(),
    ensures
        limbs_value(a@) == 0 ==> inverse is None,
        limbs_value(a@) != 0 ==> inverse is Some && is_inverse_of(
            limbs_value(a@),
            limbs_value(inverse->Some_0@),
        ),
{
    let x = Fr::from_bigint(BigInt::new(*a)).unwrap();
    x.inverse().map(|y| y.into_bigint().0)
}

/// Calls `UniformRand::rand` of `ark-ff` for the scalar field: whatever the
/// generator delivers, the result is a canonical residue.
#[verifier::external_body]
fn fr_random(rng: &mut StdRng) -> (c: [u64; 4])
    ensures
        limbs_value(c@) < modulus(),
{
    Fr::rand(rng).into_bigint().0
}

/// An element of the scalar field.
#[derive(Clone, Copy)]
pub struct Scalar {
    limbs: [u64; 4],
}

impl View for Scalar {
    type V = nat;

    closed spec fn view(&self) -> nat {
        limbs_value(self.limbs@)
    }
}

/// The values of a sequence of scalars.
pub open spec fn scalar_values(scalars: Seq<Scalar>) -> Seq<nat> {
    scalars.map_values(|s: Scalar| s@)
}

/// Limbs that stand for the same number are the same limbs.
pub proof fn lemma_limbs_injective(a: Seq<u64>, b: Seq<u64>)
    requires
        limbs_value(a) == limbs_value(b),
    ensures
        a[0] == b[0],
        a[1] == b[1],
        a[2] == b[2],
        a[3] == b[3],
{
    let base = 0x1_0000_0000_0000_0000int;
    let a2 = a[2] as int + (a[3] as int) * base;
    let b2 = b[2] as int + (b[3] as int) * base;
    let a1 = a[1] as int + a2 * base;
    let b1 = b[1] as int + b2 * base;
    assert(limbs_value(a) == a1 * base + a[0]);
    assert(limbs_value(b) == b1 * base + b[0]);
    vstd::arithmetic::div_mod::lemma_fundamental_div_mod_converse(
        limbs_value(a) as int,
        base,
        a1,
        a[0] as int,
    );
    vstd::arithmetic::div_mod::lemma_fundamental_div_mod_converse(
        limbs_value(b) as int,
        base,
        b1,
        b[0] as int,
    );
    assert(a1 == b1);
    vstd::arithmetic::div_mod::lemma_fundamental_div_mod_converse(a1, base, a2, a[1] as int);
    vstd::arithmetic::div_mod::lemma_fundamental_div_mod_converse(b1, base, b2, b[1] as int);
    assert(a2 == b2);
    vstd::arithmetic::div_mod::lemma_fundamental_div_mod_converse(
        a2,
        base,
        a[3] as int,
        a[2] as int,
    );
    vstd::arithmetic::div_mod::lemma_fundamental_div_mod_converse(
        b2,
        base,
        b[3] as int,
        b[2] as int,
    );
}

/// Two inverses of one residue are the same residue.
pub proof fn lemma_inverse_unique(value: nat, x: nat, y: nat)
    requires
        is_inverse_of(value, x),
        is_inverse_of(value, y),
    ensures
        x == y,
{
    let m = modulus() as int;
    let v = value as int;
    let xi = x as int;
    let yi = y as int;
    // x = x * (v * y) = (x * v) * y = y, all modulo m.
    assert((xi * ((v * yi) % m)) % m == (xi * (v * yi)) % m) by {
        vstd::arithmetic::div_mod::lemma_mul_mod_noop_right(xi, v * yi, m);
    }
    assert((((v * xi) % m) * yi) % m == ((v * xi) * yi) % m) by {
        vstd::arithmetic::div_mod::lemma_mul_mod_noop_left(v * xi, yi, m);
    }
    assert(xi * (v * yi) == (v * xi) * yi) by (nonlinear_arith);
    assert(xi * 1 == xi && 1 * yi == yi);
    vstd::arithmetic::div_mod::lemma_small_mod(x, modulus());
    vstd::arithmetic::div_mod::lemma_small_mod(y, modulus());
}

impl Scalar {
    #[verifier::type_invariant]
    spec fn canonical(self) -> bool {
        limbs_value(self.limbs@) < modulus()
    }

    /// The scalar whose value is `value`.
    pub fn from_u64(value: u64) -> (s: Scalar)
        ensures
            s@ == value,
    {
        Scalar { limbs: [value, 0, 0, 0] }
    }

    /// The scalar zero.
    pub fn zero() -> (s: Scalar)
        ensures
            s@ == 0,
    {
        Scalar::from_u64(0)
    }

    /// The scalar one.
    pub fn one() -> (s: Scalar)
        ensures
            s@ == 1,
    {
        Scalar::from_u64(1)
    }

    /// The scalar whose value is `index + 1`: the point at which the secret
    /// polynomial is evaluated for the holder at position `index`.
    pub fn from_index(index: usize) -> (s: Scalar)
        ensures
            s@ == index + 1,
    {
        let wide = index as u64;
        if wide == u64::MAX {
            Scalar { limbs: [0, 1, 0, 0] }
        } else {
            Scalar { limbs: [wide + 1, 0, 0, 0] }
        }
    }

    /// The scalar with the given little-endian limbs, if they denote a value
    /// below the modulus.
    pub fn from_limbs(limbs: [u64; 4]) -> (s: Option<Scalar>)
        ensures
            s is Some <==> limbs_value(limbs@) < modulus(),
            s matches Some(scalar) ==> scalar@ == limbs_value(limbs@),
    {
        let below = if limbs[3] != 0x73eda753299d7d48 {
            limbs[3] < 0x73eda753299d7d48
        } else if limbs[2] != 0x3339d80809a1d805 {
            limbs[2] < 0x3339d80809a1d805
        } else if limbs[1] != 0x53bda402fffe5bfe {
            limbs[1] < 0x53bda402fffe5bfe
        } else {
            limbs[0] < 0xffffffff00000001
        };
        if below {
            Some(Scalar { limbs })
        } else {
            None
        }
    }

    /// The little-endian limbs of the canonical representative.
    pub fn to_limbs(&self) -> (limbs: [u64; 4])
        ensures
            limbs_value(limbs@) == self@,
            self@ < modulus(),
    {
        proof {
            use_type_invariant(self);
        }
        self.limbs
    }

    /// Whether this is the scalar zero.
    pub fn is_zero(&self) -> (zero: bool)
        ensures
            zero == (self@ == 0),
    {
        self.limbs[0] == 0 && self.limbs[1] == 0 && self.limbs[2] == 0 && self.limbs[3] == 0
    }

    /// Whether two scalars are the same residue.
    pub fn equals(&self, other: &Scalar) -> (same: bool)
        ensures
            same == (self@ == other@),
    {
        proof {
            if self@ == other@ {
                lemma_limbs_injective(self.limbs@, other.limbs@);
            }
        }
        self.limbs[0] == other.limbs[0] && self.limbs[1] == other.limbs[1] && self.limbs[2]
            == other.limbs[2] && self.limbs[3] == other.limbs[3]
    }

    /// The sum of two scalars.
    pub fn add(&self, other: &Scalar) -> (sum: Scalar)
        ensures
            sum@ == field_add(self@, other@),
    {
        proof {
            use_type_invariant(self);
            use_type_invariant(other);
        }
        let limbs = fr_add(&self.limbs, &other.limbs);
        Scalar { limbs }
    }

    /// The difference of two scalars, which is zero for equal scalars only.
    pub fn sub(&self, other: &Scalar) -> (difference: Scalar)
        ensures
            difference@ == field_sub(self@, other@),
            difference@ == 0 <==> self@ == other@,
    {
        proof {
            use_type_invariant(self);
            use_type_invariant(other);
        }
        let limbs = fr_sub(&self.limbs, &other.limbs);
        Scalar { limbs }
    }

    /// The product of two scalars.
    pub fn mul(&self, other: &Scalar) -> (product: Scalar)
        ensures
            product@ == field_mul(self@, other@),
    {
        proof {
            use_type_invariant(self);
            use_type_invariant(other);
        }
        let limbs = fr_mul(&self.limbs, &other.limbs);
        Scalar { limbs }
    }

    /// The multiplicative inverse, which every scalar but zero has.
    pub fn inverse(&self) -> (inverse: Option<Scalar>)
        ensures
            inverse is None <==> self@ == 0,
            inverse matches Some(inv) ==> is_inverse_of(self@, inv@) && inv@ == inverse_of(self@),
    {
        proof {
            use_type_invariant(self);
        }
        match fr_inverse(&self.limbs) {
            Some(limbs) => {
                proof {
                    lemma_inverse_unique(self@, limbs_value(limbs@), inverse_of(self@));
                }
                Some(Scalar { limbs })
            },
            None => None,
        }
    }

    /// A scalar drawn from the generator. Nothing is known of it but that it
    /// is a scalar.
    pub fn random(rng: &mut StdRng) -> (s: Scalar)
        ensures
            s@ < modulus(),
    {
        let limbs = fr_random(rng);
        Scalar { limbs }
    }
}

} // verus!
