//! Elements of the scalar field of BLS12-381, held as plain limbs, with the
//! field operations taken from arkworks.

use ark_bls12_381::Fr;
use ark_ff::{BigInteger256, Field, PrimeField, UniformRand};
use vstd::arithmetic::power::pow;
use vstd::prelude::*;

verus! {

/// The radix of one limb.
pub open spec fn limb_base() -> int {
    0x1_0000_0000_0000_0000
}

/// The integer that four little-endian 64-bit limbs spell.
pub open spec fn limbs_val(l: [u64; 4]) -> int {
    l[0] as int + limb_base() * (l[1] as int + limb_base() * (l[2] as int + limb_base()
        * l[3] as int))
}

/// The order of the scalar field of BLS12-381.
pub open spec fn modulus() -> int {
    0xffffffff00000001int + limb_base() * (0x53bda402fffe5bfeint + limb_base() * (
    0x3339d80809a1d805int + limb_base() * 0x73eda753299d7d48int))
}

/// A field element in canonical form: the limbs of an integer below the modulus.
#[derive(Clone, Copy, Debug)]
pub struct Fe {
    pub limbs: [u64; 4],
}

/// The element a machine word stands for.
pub open spec fn fe_of(v: u64) -> Fe {
    Fe { limbs: [v, 0u64, 0u64, 0u64] }
}

impl Fe {
    /// The integer this element stands for.
    pub open spec fn val(self) -> int {
        limbs_val(self.limbs)
    }

    /// The limbs are those of a canonical representative.
    pub open spec fn wf(self) -> bool {
        self.val() < modulus()
    }

    /// The additive identity.
    pub fn zero() -> (r: Fe)
        ensures
            r.wf(),
            r.val() == 0,
            r == fe_of(0),
    {
        Fe { limbs: [0u64, 0u64, 0u64, 0u64] }
    }

    /// The multiplicative identity.
    pub fn one() -> (r: Fe)
        ensures
            r.wf(),
            r.val() == 1,
            r == fe_of(1),
    {
        Fe { limbs: [1u64, 0u64, 0u64, 0u64] }
    }

    /// Whether the limbs are those of an integer below the modulus.
    pub fn is_canonical(&self) -> (r: bool)
        ensures
            r == self.wf(),
    {
        let l = self.limbs;
        let ghost b = limb_base();
        proof {
            let a2 = l[2] as int + b * l[3] as int;
            let a1 = l[1] as int + b * a2;
            let m2 = 0x3339d80809a1d805int + b * 0x73eda753299d7d48int;
            let m1 = 0x53bda402fffe5bfeint + b * m2;
            lemma_two_digits(l[0] as int, a1, 0xffffffff00000001int, m1, b);
            lemma_two_digits(l[1] as int, a2, 0x53bda402fffe5bfeint, m2, b);
            lemma_two_digits(l[2] as int, l[3] as int, 0x3339d80809a1d805int, 0x73eda753299d7d48int, b);
        }
        if l[3] != 0x73eda753299d7d48u64 {
            l[3] < 0x73eda753299d7d48u64
        } else if l[2] != 0x3339d80809a1d805u64 {
            l[2] < 0x3339d80809a1d805u64
        } else if l[1] != 0x53bda402fffe5bfeu64 {
            l[1] < 0x53bda402fffe5bfeu64
        } else {
            l[0] < 0xffffffff00000001u64
        }
    }

    /// The element that a machine word stands for (every word is below the modulus).
    pub fn from_u64(v: u64) -> (r: Fe)
        ensures
            r.wf(),
            r.val() == v as int,
            r == fe_of(v),
    {
        Fe { limbs: [v, 0u64, 0u64, 0u64] }
    }
}

/// Numbers written with a low digit and a high part compare as their high parts,
/// then their low digits.
proof fn lemma_two_digits(x0: int, x1: int, y0: int, y1: int, b: int)
    requires
        0 <= x0 < b,
        0 <= y0 < b,
        0 <= x1,
        0 <= y1,
    ensures
        (x0 + b * x1 < y0 + b * y1) == (x1 < y1 || (x1 == y1 && x0 < y0)),
        (x0 + b * x1 == y0 + b * y1) == (x1 == y1 && x0 == y0),
        0 <= x0 + b * x1,
{
    assert(0 <= b * x1) by (nonlinear_arith)
        requires
            0 <= x1,
            0 < b,
    ;
    if x1 < y1 {
        assert(b * (x1 + 1) <= b * y1) by (nonlinear_arith)
            requires
                x1 + 1 <= y1,
                0 < b,
        ;
        assert(b * (x1 + 1) == b * x1 + b) by (nonlinear_arith);
    } else if y1 < x1 {
        assert(b * (y1 + 1) <= b * x1) by (nonlinear_arith)
            requires
                y1 + 1 <= x1,
                0 < b,
        ;
        assert(b * (y1 + 1) == b * y1 + b) by (nonlinear_arith);
    }
}

/// Relies on `Fr::from_repr`, `Add` for `Fr` and `Fr::into_repr` (ark-ff): field
/// addition is addition of canonical integers modulo the field order.
#[verifier::external_body]
pub(crate) fn fe_add(a: Fe, b: Fe) -> (r: Fe)
    requires
        a.wf(),
        b.wf(),
    ensures
        r.wf(),
        r.val() == (a.val() + b.val()) % modulus(),
{
    let x = Fr::from_repr(BigInteger256(a.limbs)).unwrap();
    let y = Fr::from_repr(BigInteger256(b.limbs)).unwrap();
    Fe { limbs: (x + y).into_repr().0 }
}

/// Relies on `Mul` for `Fr` (ark-ff): field multiplication is multiplication of
/// canonical integers modulo the field order.
#[verifier::external_body]
pub(crate) fn fe_mul(a: Fe, b: Fe) -> (r: Fe)
    requires
        a.wf(),
        b.wf(),
    ensures
        r.wf(),
        r.val() == (a.val() * b.val()) % modulus(),
{
    let x = Fr::from_repr(BigInteger256(a.limbs)).unwrap();
    let y = Fr::from_repr(BigInteger256(b.limbs)).unwrap();
    Fe { limbs: (x * y).into_repr().0 }
}

/// Relies on `Field::pow` (ark-ff), the exponent as one limb: the element raised
/// to that power in the field.
#[verifier::external_body]
pub(crate) fn fe_pow(a: Fe, e: usize) -> (r: Fe)
    requires
        a.wf(),
    ensures
        r.wf(),
        r.val() == pow(a.val(), e as nat) % modulus(),
{
    let x = Fr::from_repr(BigInteger256(a.limbs)).unwrap();
    Fe { limbs: x.pow([e as u64]).into_repr().0 }
}

/// Relies on `PartialEq` for `Fr` (ark-ff): two elements are equal exactly when
/// their canonical integers are.
#[verifier::external_body]
pub(crate) fn fe_eq(a: Fe, b: Fe) -> (r: bool)
    requires
        a.wf(),
        b.wf(),
    ensures
        r == (a.val() == b.val()),
{
    Fr::from_repr(BigInteger256(a.limbs)).unwrap() == Fr::from_repr(BigInteger256(b.limbs)).unwrap()
}

/// Relies on `UniformRand for Fr` (ark-ff) drawing from `rand::thread_rng`: a
/// canonical element, nothing more can be said of which one.
#[verifier::external_body]
pub(crate) fn fe_rand() -> (r: Fe)
    ensures
        r.wf(),
{
    Fe { limbs: Fr::rand(&mut rand::thread_rng()).into_repr().0 }
}

} // verus!
