//! Multivariate polynomials in sparse form and univariate polynomials as
//! coefficient vectors, with their meaning as integers modulo the field order.

use crate::field::{modulus, Fe};
use ark_bls12_381::Fr;
use ark_ff::{BigInteger256, PrimeField};
use ark_poly::polynomial::multivariate::{SparsePolynomial, SparseTerm, Term};
use ark_poly::polynomial::univariate::DensePolynomial;
use ark_poly::{MVPolynomial, Polynomial, UVPolynomial};
use vstd::arithmetic::power::pow;
use vstd::prelude::*;

verus! {

/// One term of a sparse polynomial: a coefficient and a list of `(variable, power)`.
pub struct MTerm {
    pub coef: Fe,
    pub powers: Vec<(usize, usize)>,
}

/// A polynomial in `num_vars` variables, as a sum of terms.
pub struct MPoly {
    pub num_vars: usize,
    pub terms: Vec<MTerm>,
}

/// A term as a value: its coefficient and its `(variable, power)` list.
pub type TermModel = (Fe, Seq<(usize, usize)>);

impl MTerm {
    pub open spec fn view(&self) -> TermModel {
        (self.coef, self.powers@)
    }
}

/// A term is well formed when its coefficient is canonical, its variables are
/// below `n` and appear once each, in increasing order.
pub open spec fn term_wf(t: TermModel, n: nat) -> bool {
    &&& t.0.wf()
    &&& forall|j: int| 0 <= j < t.1.len() ==> (#[trigger] t.1[j]).0 < n && t.1[j].1 < usize::MAX
    &&& forall|i: int, j: int| 0 <= i < j < t.1.len() ==> (#[trigger] t.1[i]).0 < (#[trigger] t.1[j]).0
}

impl MPoly {
    pub open spec fn view(&self) -> Seq<TermModel> {
        self.terms@.map_values(|t: MTerm| t@)
    }

    /// At least one variable, and every term well formed.
    pub open spec fn wf(&self) -> bool {
        &&& self.num_vars >= 1
        &&& forall|i: int| 0 <= i < self@.len() ==> term_wf(#[trigger] self@[i], self.num_vars as nat)
    }

    /// A polynomial from its variable count and its terms, each a coefficient with
    /// a `(variable, power)` list; `None` where the terms are malformed (a variable
    /// out of range or repeated, an unsorted list, a non-canonical coefficient) or
    /// there are no variables.
    pub fn from_terms(num_vars: usize, terms: Vec<MTerm>) -> (r: Option<MPoly>)
        ensures
            r.is_some() == (num_vars >= 1 && forall|i: int| 0 <= i < terms@.len() ==> term_wf(
                #[trigger] terms@[i]@,
                num_vars as nat,
            )),
            r.is_some() ==> r.unwrap().num_vars == num_vars && r.unwrap()@ == terms@.map_values(|t: MTerm| t@),
    {
        if num_vars == 0 {
            return None;
        }
        let mut i: usize = 0;
        while i < terms.len()
            invariant
                0 <= i <= terms@.len(),
                forall|k: int| 0 <= k < i ==> term_wf(#[trigger] terms@[k]@, num_vars as nat),
            decreases terms@.len() - i,
        {
            if !term_ok(&terms[i], num_vars) {
                return None;
            }
            i += 1;
        }
        Some(MPoly { num_vars, terms })
    }

    /// A copy that shares nothing with `self`.
    pub fn duplicate(&self) -> (r: MPoly)
        ensures
            r.num_vars == self.num_vars,
            r@ == self@,
    {
        let mut terms: Vec<MTerm> = Vec::new();
        let mut i: usize = 0;
        while i < self.terms.len()
            invariant
                0 <= i <= self.terms@.len(),
                terms@.len() == i,
                forall|k: int| 0 <= k < i ==> (#[trigger] terms@[k])@ == self.terms@[k]@,
            decreases self.terms@.len() - i,
        {
            let t = &self.terms[i];
            let mut powers: Vec<(usize, usize)> = Vec::new();
            let mut j: usize = 0;
            while j < t.powers.len()
                invariant
                    0 <= j <= t.powers@.len(),
                    powers@ == t.powers@.subrange(0, j as int),
                decreases t.powers@.len() - j,
            {
                powers.push(t.powers[j]);
                j += 1;
                assert(powers@ =~= t.powers@.subrange(0, j as int));
            }
            assert(powers@ =~= t.powers@);
            terms.push(MTerm { coef: t.coef, powers });
            i += 1;
        }
        let r = MPoly { num_vars: self.num_vars, terms };
        assert(r@ =~= self@);
        r
    }
}

/// The coefficient of `x^k` in a univariate polynomial, zero beyond its length.
pub open spec fn coeff(p: Seq<Fe>, k: int) -> int {
    if 0 <= k < p.len() {
        p[k].val()
    } else {
        0
    }
}

/// Every coefficient is canonical.
pub open spec fn upoly_wf(p: Seq<Fe>) -> bool {
    forall|i: int| 0 <= i < p.len() ==> (#[trigger] p[i]).wf()
}

/// The value of a univariate polynomial at `x`, as an integer.
pub open spec fn upoly_val(p: Seq<Fe>, x: int) -> int
    decreases p.len(),
{
    if p.len() == 0 {
        0
    } else {
        p[0].val() + x * upoly_val(p.drop_first(), x)
    }
}

/// The value of a monomial `prod x_v^d` at a point, as an integer.
pub open spec fn monomial_val(ps: Seq<(usize, usize)>, pt: Seq<Fe>) -> int
    decreases ps.len(),
{
    if ps.len() == 0 {
        1
    } else {
        monomial_val(ps.drop_last(), pt) * pow(pt[ps.last().0 as int].val(), ps.last().1 as nat)
    }
}

/// The value of a sparse polynomial at a point, as an integer.
pub open spec fn mpoly_val(ts: Seq<TermModel>, pt: Seq<Fe>) -> int
    decreases ts.len(),
{
    if ts.len() == 0 {
        0
    } else {
        mpoly_val(ts.drop_last(), pt) + ts.last().0.val() * monomial_val(ts.last().1, pt)
    }
}

/// Relies on `DensePolynomial::evaluate` (ark-poly): the polynomial with these
/// coefficients, lowest first, evaluated at `x` in the field.
#[verifier::external_body]
pub(crate) fn upoly_eval(p: &Vec<Fe>, x: Fe) -> (r: Fe)
    requires
        upoly_wf(p@),
        x.wf(),
    ensures
        r.wf(),
        r.val() == upoly_val(p@, x.val()) % modulus(),
{
    let c: Vec<Fr> = p.iter().map(|a| Fr::from_repr(BigInteger256(a.limbs)).unwrap()).collect();
    let y = Fr::from_repr(BigInteger256(x.limbs)).unwrap();
    Fe { limbs: DensePolynomial::from_coefficients_vec(c).evaluate(&y).into_repr().0 }
}

/// Relies on `Add` for `DensePolynomial` (ark-poly): coefficient-wise field
/// addition, with trailing zero coefficients dropped.
#[verifier::external_body]
pub(crate) fn upoly_add(a: &Vec<Fe>, b: &Vec<Fe>) -> (r: Vec<Fe>)
    requires
        upoly_wf(a@),
        upoly_wf(b@),
    ensures
        upoly_wf(r@),
        forall|k: int| #[trigger] coeff(r@, k) == (coeff(a@, k) + coeff(b@, k)) % modulus(),
{
    let x: Vec<Fr> = a.iter().map(|e| Fr::from_repr(BigInteger256(e.limbs)).unwrap()).collect();
    let y: Vec<Fr> = b.iter().map(|e| Fr::from_repr(BigInteger256(e.limbs)).unwrap()).collect();
    let s = DensePolynomial::from_coefficients_vec(x) + DensePolynomial::from_coefficients_vec(y);
    s.coeffs.iter().map(|e| Fe { limbs: e.into_repr().0 }).collect()
}

/// Relies on `SparsePolynomial::evaluate` (ark-poly): the sum over the terms of
/// each coefficient times the product of its variables' powers, in the field.
#[verifier::external_body]
pub(crate) fn mpoly_eval(g: &MPoly, pt: &Vec<Fe>) -> (r: Fe)
    requires
        g.wf(),
        pt@.len() >= g.num_vars,
        upoly_wf(pt@),
    ensures
        r.wf(),
        r.val() == mpoly_val(g@, pt@) % modulus(),
{
    let ts: Vec<(Fr, SparseTerm)> = g.terms.iter().map(|t| (Fr::from_repr(BigInteger256(t.coef.limbs)).unwrap(), SparseTerm::new(t.powers.clone()))).collect();
    let x: Vec<Fr> = pt.iter().map(|e| Fr::from_repr(BigInteger256(e.limbs)).unwrap()).collect();
    Fe { limbs: SparsePolynomial::from_coefficients_vec(g.num_vars, ts).evaluate(&x).into_repr().0 }
}

fn term_ok(t: &MTerm, n: usize) -> (r: bool)
    ensures
        r == term_wf(t@, n as nat),
{
    if !t.coef.is_canonical() {
        return false;
    }
    let mut j: usize = 0;
    while j < t.powers.len()
        invariant
            0 <= j <= t.powers@.len(),
            t.coef.wf(),
            forall|k: int| 0 <= k < j ==> (#[trigger] t.powers@[k]).0 < n && t.powers@[k].1 < usize::MAX,
            forall|a: int, b: int| 0 <= a < b < j ==> (#[trigger] t.powers@[a]).0 < (#[trigger] t.powers@[b]).0,
        decreases t.powers@.len() - j,
    {
        let (v, d) = t.powers[j];
        if v >= n || d == usize::MAX {
            assert(t@.1[j as int].0 >= n || t@.1[j as int].1 == usize::MAX);
            return false;
        }
        if j > 0 && t.powers[j - 1].0 >= v {
            assert(t@.1[j - 1].0 >= t@.1[j as int].0);
            return false;
        }
        j += 1;
    }
    true
}

} // verus!
