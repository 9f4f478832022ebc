//! Congruence of integers modulo the group order.
//!
//! The laws of interpolation are proved over the integers, up to congruence;
//! the arithmetic of the scalar field comes back in at the end, where two
//! congruent residues are equal.

use crate::scalar::{field_add, field_mul, field_sub, is_inverse_of, modulus};
use vstd::arithmetic::div_mod::{
    lemma_add_mod_noop, lemma_mod_twice, lemma_mul_mod_noop_general, lemma_small_mod,
    lemma_sub_mod_noop,
};
use vstd::prelude::*;

verus! {

/// Whether two integers leave the same remainder modulo the group order.
pub open spec fn congruent(a: int, b: int) -> bool {
    a % (modulus() as int) == b % (modulus() as int)
}

/// Sums of congruent integers are congruent.
pub proof fn lemma_congruent_add(a: int, b: int, c: int, d: int)
    requires
        congruent(a, b),
        congruent(c, d),
    ensures
        congruent(a + c, b + d),
{
    let m = modulus() as int;
    lemma_add_mod_noop(a, c, m);
    lemma_add_mod_noop(b, d, m);
}

/// Differences of congruent integers are congruent.
pub proof fn lemma_congruent_sub(a: int, b: int, c: int, d: int)
    requires
        congruent(a, b),
        congruent(c, d),
    ensures
        congruent(a - c, b - d),
{
    let m = modulus() as int;
    lemma_sub_mod_noop(a, c, m);
    lemma_sub_mod_noop(b, d, m);
}

/// Products of congruent integers are congruent.
pub proof fn lemma_congruent_mul(a: int, b: int, c: int, d: int)
    requires
        congruent(a, b),
        congruent(c, d),
    ensures
        congruent(a * c, b * d),
{
    let m = modulus() as int;
    lemma_mul_mod_noop_general(a, c, m);
    lemma_mul_mod_noop_general(b, d, m);
}

/// An integer is congruent to its remainder.
pub proof fn lemma_congruent_remainder(a: int)
    ensures
        congruent(a % (modulus() as int), a),
        0 <= a % (modulus() as int) < modulus(),
{
    lemma_mod_twice(a, modulus() as int);
}

/// Two congruent residues are the same residue.
pub proof fn lemma_congruent_residues(a: int, b: int)
    requires
        congruent(a, b),
        0 <= a < modulus(),
        0 <= b < modulus(),
    ensures
        a == b,
{
    lemma_small_mod(a as nat, modulus());
    lemma_small_mod(b as nat, modulus());
}

/// The operations of the field are those of the integers, up to congruence.
pub proof fn lemma_field_operations(a: nat, b: nat)
    ensures
        congruent(field_add(a, b) as int, (a + b) as int),
        congruent(field_sub(a, b) as int, a - b),
        congruent(field_mul(a, b) as int, (a * b) as int),
        field_add(a, b) < modulus(),
        field_sub(a, b) < modulus(),
        field_mul(a, b) < modulus(),
{
    let m = modulus() as int;
    lemma_congruent_remainder((a + b) as int);
    lemma_congruent_remainder((a * b) as int);
    lemma_congruent_remainder(a + m - b);
    assert(congruent(a + m - b, a - b)) by {
        vstd::arithmetic::div_mod::lemma_mod_add_multiples_vanish(a - b, m);
    }
}

/// A factor that has an inverse can be cancelled from a congruence.
pub proof fn lemma_cancel_unit(a: int, b: int, unit: nat, inverse: nat)
    requires
        congruent(a * unit, b * unit),
        is_inverse_of(unit, inverse),
    ensures
        congruent(a, b),
{
    let u = unit as int;
    let e = inverse as int;
    assert(congruent(u * e, 1));
    lemma_congruent_mul(a * u, b * u, e, e);
    assert((a * u) * e == a * (u * e)) by (nonlinear_arith);
    assert((b * u) * e == b * (u * e)) by (nonlinear_arith);
    lemma_congruent_mul(a, a, u * e, 1);
    lemma_congruent_mul(b, b, u * e, 1);
    assert(a * 1 == a && b * 1 == b);
}

} // verus!
