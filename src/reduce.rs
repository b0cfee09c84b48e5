//! Reduction of a multivariate polynomial: summing it over the Boolean hypercube,
//! and binding all variables but one free one to field values.

use crate::field::{fe_add, fe_mul, fe_of, fe_pow, modulus, Fe};
use crate::poly::{
    coeff, mpoly_eval, mpoly_val, upoly_add, upoly_wf, MPoly, TermModel,
};
use vstd::arithmetic::div_mod::lemma_mul_mod_noop_left;
use vstd::arithmetic::power::pow;
use vstd::prelude::*;

verus! {

/// Every bound value is canonical.
pub open spec fn bindings_wf(vals: Seq<Option<Fe>>) -> bool {
    forall|i: int| 0 <= i < vals.len() && (#[trigger] vals[i]).is_some() ==> vals[i].unwrap().wf()
}

/// The coefficient a term carries once its bound variables are replaced by their
/// values, folding the `(variable, power)` list from the left.
pub open spec fn bound_coef(c: int, ps: Seq<(usize, usize)>, vals: Seq<Option<Fe>>) -> int
    decreases ps.len(),
{
    if ps.len() == 0 {
        c
    } else {
        let prev = bound_coef(c, ps.drop_last(), vals);
        match vals[ps.last().0 as int] {
            Some(x) => (pow(x.val(), ps.last().1 as nat) * prev) % modulus(),
            None => prev,
        }
    }
}

/// The power of the free variable in a term (the last one listed), zero if absent.
pub open spec fn free_deg(ps: Seq<(usize, usize)>, vals: Seq<Option<Fe>>) -> nat
    decreases ps.len(),
{
    if ps.len() == 0 {
        0
    } else {
        match vals[ps.last().0 as int] {
            Some(_) => free_deg(ps.drop_last(), vals),
            None => ps.last().1 as nat,
        }
    }
}

/// The coefficient of `x^k` in the univariate polynomial left when the bound
/// variables of `ts` are replaced by their values and `x` is the free one.
pub open spec fn partial_coeff(ts: Seq<TermModel>, vals: Seq<Option<Fe>>, k: int) -> int
    decreases ts.len(),
{
    if ts.len() == 0 {
        0
    } else {
        let t = ts.last();
        let c = if free_deg(t.1, vals) == k {
            bound_coef(t.0.val(), t.1, vals)
        } else {
            0
        };
        (partial_coeff(ts.drop_last(), vals, k) + c) % modulus()
    }
}

/// The coefficient of `x^k` in the sum, over all `m` Boolean values that can
/// follow `prefix`, of the partial evaluation at `prefix` then those values.
pub open spec fn cube_coeff(ts: Seq<TermModel>, prefix: Seq<Option<Fe>>, m: nat, k: int) -> int
    decreases m,
{
    if m == 0 {
        partial_coeff(ts, prefix, k)
    } else {
        (cube_coeff(ts, prefix.push(Some(fe_of(0))), (m - 1) as nat, k) + cube_coeff(
            ts,
            prefix.push(Some(fe_of(1))),
            (m - 1) as nat,
            k,
        )) % modulus()
    }
}

/// The sum of the polynomial's values at `pt` followed by every Boolean point of
/// `m` coordinates.
pub open spec fn cube_sum(ts: Seq<TermModel>, pt: Seq<Fe>, m: nat) -> int
    decreases m,
{
    if m == 0 {
        mpoly_val(ts, pt) % modulus()
    } else {
        (cube_sum(ts, pt.push(fe_of(0)), (m - 1) as nat) + cube_sum(ts, pt.push(fe_of(1)), (m - 1) as nat))
            % modulus()
    }
}

/// The coefficient and free-variable power of one term after binding.
fn reduce_term(g: &MPoly, i: usize, vals: &Vec<Option<Fe>>) -> (r: (Fe, usize))
    requires
        g.wf(),
        i < g@.len(),
        vals@.len() == g.num_vars,
        bindings_wf(vals@),
    ensures
        r.0.wf(),
        r.0.val() == bound_coef(g@[i as int].0.val(), g@[i as int].1, vals@),
        r.1 as nat == free_deg(g@[i as int].1, vals@),
        r.1 < usize::MAX,
{
    let t = &g.terms[i];
    let ghost ps = g@[i as int].1;
    assert(ps == t.powers@);
    let mut c = t.coef;
    let mut d: usize = 0;
    let mut j: usize = 0;
    while j < t.powers.len()
        invariant
            g.wf(),
            i < g@.len(),
            t == &g.terms[i as int],
            ps == t.powers@,
            vals@.len() == g.num_vars,
            bindings_wf(vals@),
            0 <= j <= ps.len(),
            c.wf(),
            c.val() == bound_coef(g@[i as int].0.val(), ps.subrange(0, j as int), vals@),
            d as nat == free_deg(ps.subrange(0, j as int), vals@),
            d < usize::MAX,
        decreases ps.len() - j,
    {
        let (v, e) = t.powers[j];
        assert(crate::poly::term_wf(g@[i as int], g.num_vars as nat));
        assert(ps[j as int] == (v, e));
        assert(g@[i as int].1[j as int].0 < g.num_vars);
        let ghost prev = ps.subrange(0, j as int);
        assert(ps.subrange(0, j + 1).drop_last() =~= prev);
        match vals[v] {
            Some(x) => {
                assert(vals@[v as int] == Some(x));
                let p = fe_pow(x, e);
                proof {
                    lemma_mul_mod_noop_left(pow(x.val(), e as nat), c.val(), modulus());
                }
                c = fe_mul(p, c);
            },
            None => {
                d = e;
            },
        }
        j += 1;
    }
    assert(ps.subrange(0, ps.len() as int) =~= ps);
    (c, d)
}

/// The univariate polynomial `c * x^d`.
fn monomial(c: Fe, d: usize) -> (r: Vec<Fe>)
    requires
        c.wf(),
        d < usize::MAX,
    ensures
        upoly_wf(r@),
        forall|k: int| #[trigger] coeff(r@, k) == if k == d { c.val() } else { 0 },
{
    let mut v: Vec<Fe> = Vec::new();
    let mut j: usize = 0;
    while j < d
        invariant
            j <= d,
            v@.len() == j,
            forall|k: int| 0 <= k < j ==> (#[trigger] v@[k]) == fe_of(0),
        decreases d - j,
    {
        v.push(Fe::zero());
        j += 1;
    }
    v.push(c);
    v
}

/// The univariate polynomial in the one variable that `vals` leaves free, with
/// every other variable replaced by its bound value.
pub fn partial_eval(g: &MPoly, vals: &Vec<Option<Fe>>) -> (r: Vec<Fe>)
    requires
        g.wf(),
        vals@.len() == g.num_vars,
        bindings_wf(vals@),
    ensures
        upoly_wf(r@),
        forall|k: int| #[trigger] coeff(r@, k) == partial_coeff(g@, vals@, k),
{
    let mut acc: Vec<Fe> = Vec::new();
    let mut i: usize = 0;
    while i < g.terms.len()
        invariant
            g.wf(),
            vals@.len() == g.num_vars,
            bindings_wf(vals@),
            0 <= i <= g@.len(),
            upoly_wf(acc@),
            forall|k: int| #[trigger] coeff(acc@, k) == partial_coeff(g@.subrange(0, i as int), vals@, k),
        decreases g@.len() - i,
    {
        let (c, d) = reduce_term(g, i, vals);
        let mono = monomial(c, d);
        let next = upoly_add(&acc, &mono);
        assert(g@.subrange(0, i + 1).drop_last() =~= g@.subrange(0, i as int));
        assert forall|k: int| #[trigger] coeff(next@, k) == partial_coeff(g@.subrange(0, i + 1), vals@, k) by {
            assert(coeff(acc@, k) == partial_coeff(g@.subrange(0, i as int), vals@, k));
            assert(coeff(mono@, k) == if k == d { c.val() } else { 0 });
        }
        acc = next;
        i += 1;
    }
    assert(g@.subrange(0, g@.len() as int) =~= g@);
    acc
}

/// `v` with `x` appended, as a new vector.
fn extended<T: Copy>(v: &Vec<T>, x: T) -> (r: Vec<T>)
    ensures
        r@ == v@.push(x),
{
    let mut r: Vec<T> = Vec::new();
    let mut j: usize = 0;
    while j < v.len()
        invariant
            0 <= j <= v@.len(),
            r@ == v@.subrange(0, j as int),
        decreases v@.len() - j,
    {
        r.push(v[j]);
        j += 1;
        assert(r@ =~= v@.subrange(0, j as int));
    }
    r.push(x);
    assert(r@ =~= v@.push(x));
    r
}

/// The sum, over every Boolean assignment of the `m` variables after `prefix`,
/// of the partial evaluation at `prefix` followed by that assignment.
pub fn partial_hypercube_eval(g: &MPoly, prefix: &Vec<Option<Fe>>, m: usize) -> (r: Vec<Fe>)
    requires
        g.wf(),
        prefix@.len() + m == g.num_vars,
        bindings_wf(prefix@),
    ensures
        upoly_wf(r@),
        forall|k: int| #[trigger] coeff(r@, k) == cube_coeff(g@, prefix@, m as nat, k),
    decreases m,
{
    if m == 0 {
        return partial_eval(g, prefix);
    }
    let p0 = extended(prefix, Some(Fe::zero()));
    let p1 = extended(prefix, Some(Fe::one()));
    let a = partial_hypercube_eval(g, &p0, m - 1);
    let b = partial_hypercube_eval(g, &p1, m - 1);
    let r = upoly_add(&a, &b);
    assert forall|k: int| #[trigger] coeff(r@, k) == cube_coeff(g@, prefix@, m as nat, k) by {
        assert(coeff(a@, k) == cube_coeff(g@, p0@, (m - 1) as nat, k));
        assert(coeff(b@, k) == cube_coeff(g@, p1@, (m - 1) as nat, k));
    }
    r
}

/// The sum of the polynomial's values at `pt` followed by every Boolean point of
/// `m` coordinates.
fn cube_eval(g: &MPoly, pt: &Vec<Fe>, m: usize) -> (r: Fe)
    requires
        g.wf(),
        pt@.len() + m == g.num_vars,
        upoly_wf(pt@),
    ensures
        r.wf(),
        r.val() == cube_sum(g@, pt@, m as nat),
    decreases m,
{
    if m == 0 {
        return mpoly_eval(g, pt);
    }
    let p0 = extended(pt, Fe::zero());
    let p1 = extended(pt, Fe::one());
    let a = cube_eval(g, &p0, m - 1);
    let b = cube_eval(g, &p1, m - 1);
    fe_add(a, b)
}

/// The sum of the polynomial's values over the whole Boolean hypercube.
pub fn hypercube_eval(g: &MPoly) -> (r: Fe)
    requires
        g.wf(),
    ensures
        r.wf(),
        r.val() == cube_sum(g@, Seq::empty(), g.num_vars as nat),
{
    let pt: Vec<Fe> = Vec::new();
    assert(pt@ =~= Seq::<Fe>::empty());
    cube_eval(g, &pt, g.num_vars)
}

/// The power of variable `v` in a term (the last listed), zero if absent.
pub open spec fn term_power(ps: Seq<(usize, usize)>, v: nat) -> nat
    decreases ps.len(),
{
    if ps.len() == 0 {
        0
    } else if ps.last().0 == v {
        ps.last().1 as nat
    } else {
        term_power(ps.drop_last(), v)
    }
}

/// The largest power of variable `v` over all terms.
pub open spec fn var_degree(ts: Seq<TermModel>, v: nat) -> nat
    decreases ts.len(),
{
    if ts.len() == 0 {
        0
    } else {
        let d = term_power(ts.last().1, v);
        let rest = var_degree(ts.drop_last(), v);
        if d > rest {
            d
        } else {
            rest
        }
    }
}

/// The largest power of variable `v` in the polynomial.
pub fn max_degree(g: &MPoly, v: usize) -> (d: usize)
    ensures
        d == var_degree(g@, v as nat),
{
    let mut d: usize = 0;
    let mut i: usize = 0;
    while i < g.terms.len()
        invariant
            0 <= i <= g@.len(),
            d == var_degree(g@.subrange(0, i as int), v as nat),
        decreases g@.len() - i,
    {
        let t = &g.terms[i];
        let ghost ps = g@[i as int].1;
        assert(ps == t.powers@);
        let mut e: usize = 0;
        let mut j: usize = 0;
        while j < t.powers.len()
            invariant
                i < g@.len(),
                t == &g.terms[i as int],
                ps == t.powers@,
                0 <= j <= ps.len(),
                e == term_power(ps.subrange(0, j as int), v as nat),
            decreases ps.len() - j,
        {
            assert(ps.subrange(0, j + 1).drop_last() =~= ps.subrange(0, j as int));
            if t.powers[j].0 == v {
                e = t.powers[j].1;
            }
            j += 1;
        }
        assert(ps.subrange(0, ps.len() as int) =~= ps);
        assert(g@.subrange(0, i + 1).drop_last() =~= g@.subrange(0, i as int));
        if e > d {
            d = e;
        }
        i += 1;
    }
    assert(g@.subrange(0, g@.len() as int) =~= g@);
    d
}

} // verus!
