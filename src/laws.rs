//! What the protocol guarantees: the honest prover's round polynomials meet
//! every check the verifier makes.

use crate::field::{fe_of, modulus, Fe};
use crate::poly::{coeff, mpoly_val, monomial_val, term_wf, upoly_val, MPoly, TermModel};
use crate::prover::{bound, hypercube_sum, round_coeff};
use crate::verifying::{degree_within, ends_sum, eval_at};
use crate::reduce::{bound_coef, cube_coeff, cube_sum, free_deg, partial_coeff, term_power, var_degree};
use vstd::arithmetic::div_mod::{
    lemma_add_mod_noop, lemma_mod_twice, lemma_mul_mod_noop_left, lemma_small_mod,
};
use vstd::arithmetic::power::{lemma_pow0, pow};
use vstd::prelude::*;

verus! {

/// `sum_{k < n} c(k) * x^k`.
pub open spec fn csum(c: spec_fn(int) -> int, n: nat, x: int) -> int
    decreases n,
{
    if n == 0 {
        0
    } else {
        csum(c, (n - 1) as nat, x) + c(n - 1) * pow(x, (n - 1) as nat)
    }
}

proof fn lemma_modulus_pos()
    ensures
        modulus() > 1,
{
}

proof fn lemma_add_cong(a: int, a2: int, b: int, b2: int)
    requires
        a % modulus() == a2 % modulus(),
        b % modulus() == b2 % modulus(),
    ensures
        (a + b) % modulus() == (a2 + b2) % modulus(),
{
    lemma_modulus_pos();
    lemma_add_mod_noop(a, b, modulus());
    lemma_add_mod_noop(a2, b2, modulus());
}

proof fn lemma_mul_cong(a: int, a2: int, b: int)
    requires
        a % modulus() == a2 % modulus(),
    ensures
        (a * b) % modulus() == (a2 * b) % modulus(),
{
    lemma_modulus_pos();
    lemma_mul_mod_noop_left(a, b, modulus());
    lemma_mul_mod_noop_left(a2, b, modulus());
}

proof fn lemma_csum_ext(c1: spec_fn(int) -> int, c2: spec_fn(int) -> int, n: nat, x: int)
    requires
        forall|k: int| 0 <= k < n ==> #[trigger] c1(k) == c2(k),
    ensures
        csum(c1, n, x) == csum(c2, n, x),
    decreases n,
{
    if n > 0 {
        lemma_csum_ext(c1, c2, (n - 1) as nat, x);
    }
}

proof fn lemma_csum_shift(c: spec_fn(int) -> int, n: nat, x: int)
    requires
        n >= 1,
    ensures
        csum(c, n, x) == c(0) + x * csum(|k: int| c(k + 1), (n - 1) as nat, x),
    decreases n,
{
    let d = |k: int| c(k + 1);
    reveal(pow);
    if n > 1 {
        lemma_csum_shift(c, (n - 1) as nat, x);
        let a = csum(d, (n - 2) as nat, x);
        let e = pow(x, (n - 2) as nat);
        assert(pow(x, (n - 1) as nat) == x * e);
        assert(csum(d, (n - 1) as nat, x) == a + c(n - 1) * e);
        assert(x * (a + c(n - 1) * e) == x * a + c(n - 1) * (x * e)) by (nonlinear_arith);
        assert(csum(c, (n - 1) as nat, x) == c(0) + x * a);
        assert(csum(c, n, x) == csum(c, (n - 1) as nat, x) + c(n - 1) * pow(x, (n - 1) as nat));
    } else {
        assert(pow(x, 0) == 1);
        assert(csum(d, 0, x) == 0);
        assert(x * 0 == 0);
        assert(csum(c, 0, x) == 0);
        assert(csum(c, n, x) == csum(c, 0, x) + c(0) * pow(x, 0));
    }
}

proof fn lemma_csum_zero_tail(c: spec_fn(int) -> int, len: nat, n: nat, x: int)
    requires
        len <= n,
        forall|k: int| len <= k < n ==> #[trigger] c(k) == 0,
    ensures
        csum(c, n, x) == csum(c, len, x),
    decreases n,
{
    if n > len {
        lemma_csum_zero_tail(c, len, (n - 1) as nat, x);
    }
}

/// Horner's evaluation is the power sum of the coefficients.
proof fn lemma_horner(p: Seq<Fe>, n: nat, x: int)
    requires
        p.len() <= n,
    ensures
        upoly_val(p, x) == csum(|k: int| coeff(p, k), n, x),
    decreases p.len(),
{
    let c = |k: int| coeff(p, k);
    lemma_csum_zero_tail(c, p.len(), n, x);
    if p.len() > 0 {
        let q = p.drop_first();
        lemma_horner(q, q.len(), x);
        lemma_csum_shift(c, p.len(), x);
        lemma_csum_ext(|k: int| c(k + 1), |k: int| coeff(q, k), q.len(), x);
    }
}

/// Coefficient-wise sums modulo the order give sums of values modulo the order.
proof fn lemma_csum_linear(
    c: spec_fn(int) -> int,
    a: spec_fn(int) -> int,
    b: spec_fn(int) -> int,
    n: nat,
    x: int,
)
    requires
        forall|k: int| 0 <= k < n ==> #[trigger] c(k) == (a(k) + b(k)) % modulus(),
    ensures
        csum(c, n, x) % modulus() == (csum(a, n, x) + csum(b, n, x)) % modulus(),
    decreases n,
{
    if n > 0 {
        let m = (n - 1) as nat;
        lemma_csum_linear(c, a, b, m, x);
        let e = pow(x, m);
        lemma_modulus_pos();
        lemma_mod_twice(a(m as int) + b(m as int), modulus());
        lemma_mul_cong(c(m as int), a(m as int) + b(m as int), e);
        lemma_add_cong(csum(c, m, x), csum(a, m, x) + csum(b, m, x), c(m as int) * e, (a(m as int) + b(m as int)) * e);
        assert((a(m as int) + b(m as int)) * e == a(m as int) * e + b(m as int) * e) by (nonlinear_arith);
    }
}

/// A single coefficient `v` at power `d` sums to `v * x^d`.
proof fn lemma_csum_single(v: int, d: nat, n: nat, x: int)
    requires
        d < n,
    ensures
        csum(|k: int| if k == d { v } else { 0 }, n, x) == v * pow(x, d),
    decreases n,
{
    let c = |k: int| if k == d { v } else { 0 };
    if n > d + 1 {
        lemma_csum_single(v, d, (n - 1) as nat, x);
    } else {
        assert forall|k: int| 0 <= k < d implies #[trigger] c(k) == 0 by {}
        lemma_csum_zeros(c, d, x);
    }
}

proof fn lemma_csum_zeros(c: spec_fn(int) -> int, n: nat, x: int)
    requires
        forall|k: int| 0 <= k < n ==> #[trigger] c(k) == 0,
    ensures
        csum(c, n, x) == 0,
    decreases n,
{
    if n > 0 {
        lemma_csum_zeros(c, (n - 1) as nat, x);
    }
}

/// The sum of the powers in a term.
pub open spec fn power_sum(ps: Seq<(usize, usize)>) -> nat
    decreases ps.len(),
{
    if ps.len() == 0 {
        0
    } else {
        power_sum(ps.drop_last()) + ps.last().1 as nat
    }
}

/// The sum of the powers in all terms: a bound on every degree.
pub open spec fn deg_sum(ts: Seq<TermModel>) -> nat
    decreases ts.len(),
{
    if ts.len() == 0 {
        0
    } else {
        deg_sum(ts.drop_last()) + power_sum(ts.last().1)
    }
}

/// The bindings `vals` leave exactly position `f` free, and `pt` holds the bound
/// values elsewhere and `x` there.
pub open spec fn fills(vals: Seq<Option<Fe>>, pt: Seq<Fe>, f: int, x: Fe) -> bool {
    &&& vals.len() == pt.len()
    &&& 0 <= f < vals.len()
    &&& vals[f] is None
    &&& pt[f] == x
    &&& forall|i: int| 0 <= i < vals.len() && i != f ==> #[trigger] vals[i] == Some(pt[i])
}

/// The point that `prefix` gives with `x` at its free position `f`.
pub open spec fn subst(prefix: Seq<Option<Fe>>, f: int, x: Fe) -> Seq<Fe> {
    Seq::new(prefix.len(), |i: int| if i == f { x } else { prefix[i].unwrap() })
}

proof fn lemma_term(c0: int, ps: Seq<(usize, usize)>, vals: Seq<Option<Fe>>, pt: Seq<Fe>, f: int, x: Fe)
    requires
        fills(vals, pt, f, x),
        forall|j: int| 0 <= j < ps.len() ==> (#[trigger] ps[j]).0 < vals.len(),
        forall|i: int, j: int| 0 <= i < j < ps.len() ==> (#[trigger] ps[i]).0 < (#[trigger] ps[j]).0,
    ensures
        (bound_coef(c0, ps, vals) * pow(x.val(), free_deg(ps, vals))) % modulus() == (c0
            * monomial_val(ps, pt)) % modulus(),
        (forall|j: int| 0 <= j < ps.len() ==> (#[trigger] ps[j]).0 != f) ==> free_deg(ps, vals) == 0,
        free_deg(ps, vals) <= power_sum(ps),
    decreases ps.len(),
{
    lemma_modulus_pos();
    if ps.len() == 0 {
        lemma_pow0(x.val());
        assert(c0 * 1 == c0);
    } else {
        let q = ps.drop_last();
        let (v, e) = ps.last();
        assert(ps.last() == ps[ps.len() - 1]);
        assert forall|j: int| 0 <= j < q.len() implies (#[trigger] q[j]).0 < vals.len() by {
            assert(q[j] == ps[j]);
        }
        assert forall|i: int, j: int| 0 <= i < j < q.len() implies (#[trigger] q[i]).0 < (#[trigger] q[j]).0 by {
            assert(q[i] == ps[i] && q[j] == ps[j]);
        }
        lemma_term(c0, q, vals, pt, f, x);
        let bq = bound_coef(c0, q, vals);
        let mq = monomial_val(q, pt);
        match vals[v as int] {
            None => {
                assert(v as int == f);
                assert forall|j: int| 0 <= j < q.len() implies (#[trigger] q[j]).0 != f by {
                    assert(q[j] == ps[j]);
                    assert(ps[j].0 < ps[ps.len() - 1].0);
                }
                lemma_pow0(x.val());
                assert(bq * 1 == bq);
                let pe = pow(x.val(), e as nat);
                lemma_mul_cong(bq, c0 * mq, pe);
                assert((c0 * mq) * pe == c0 * (mq * pe)) by (nonlinear_arith);
            },
            Some(y) => {
                assert(y == pt[v as int]);
                let ye = pow(y.val(), e as nat);
                let xd = pow(x.val(), free_deg(q, vals));
                lemma_mul_mod_noop_left(ye * bq, xd, modulus());
                lemma_mul_cong(bq * xd, c0 * mq, ye);
                assert((ye * bq) * xd == (bq * xd) * ye) by (nonlinear_arith);
                assert(c0 * (mq * ye) == (c0 * mq) * ye) by (nonlinear_arith);
                if forall|j: int| 0 <= j < ps.len() ==> (#[trigger] ps[j]).0 != f {
                    assert forall|j: int| 0 <= j < q.len() implies (#[trigger] q[j]).0 != f by {
                        assert(q[j] == ps[j]);
                    }
                }
            },
        }
    }
}

proof fn lemma_partial(ts: Seq<TermModel>, vals: Seq<Option<Fe>>, pt: Seq<Fe>, f: int, x: Fe, n: nat)
    requires
        fills(vals, pt, f, x),
        forall|i: int| 0 <= i < ts.len() ==> term_wf(#[trigger] ts[i], vals.len()),
        n > deg_sum(ts),
    ensures
        csum(|k: int| partial_coeff(ts, vals, k), n, x.val()) % modulus() == mpoly_val(ts, pt) % modulus(),
    decreases ts.len(),
{
    lemma_modulus_pos();
    let c = |k: int| partial_coeff(ts, vals, k);
    if ts.len() == 0 {
        lemma_csum_zeros(c, n, x.val());
    } else {
        let q = ts.drop_last();
        let t = ts.last();
        assert(t == ts[ts.len() - 1]);
        assert forall|i: int| 0 <= i < q.len() implies term_wf(#[trigger] q[i], vals.len()) by {
            assert(q[i] == ts[i]);
        }
        lemma_partial(q, vals, pt, f, x, n);
        assert(term_wf(t, vals.len()));
        lemma_term(t.0.val(), t.1, vals, pt, f, x);
        let fd = free_deg(t.1, vals);
        let bc = bound_coef(t.0.val(), t.1, vals);
        let a = |k: int| partial_coeff(q, vals, k);
        let b = |k: int| if k == fd { bc } else { 0 };
        assert forall|k: int| 0 <= k < n implies #[trigger] c(k) == (a(k) + b(k)) % modulus() by {}
        lemma_csum_linear(c, a, b, n, x.val());
        lemma_csum_single(bc, fd, n, x.val());
        lemma_add_cong(csum(a, n, x.val()), mpoly_val(q, pt), csum(b, n, x.val()), t.0.val() * monomial_val(t.1, pt));
    }
}

proof fn lemma_cube(ts: Seq<TermModel>, nv: nat, prefix: Seq<Option<Fe>>, f: int, x: Fe, m: nat, n: nat)
    requires
        forall|i: int| 0 <= i < ts.len() ==> term_wf(#[trigger] ts[i], nv),
        prefix.len() + m == nv,
        0 <= f < prefix.len(),
        prefix[f] is None,
        forall|i: int| 0 <= i < prefix.len() && i != f ==> (#[trigger] prefix[i]) is Some,
        n > deg_sum(ts),
    ensures
        csum(|k: int| cube_coeff(ts, prefix, m, k), n, x.val()) % modulus() == cube_sum(
            ts,
            subst(prefix, f, x),
            m,
        ) % modulus(),
    decreases m,
{
    lemma_modulus_pos();
    let c = |k: int| cube_coeff(ts, prefix, m, k);
    let pt = subst(prefix, f, x);
    if m == 0 {
        assert forall|i: int| 0 <= i < prefix.len() && i != f implies #[trigger] prefix[i] == Some(pt[i]) by {
            assert(prefix[i] is Some);
        }
        lemma_partial(ts, prefix, pt, f, x, n);
        lemma_csum_ext(c, |k: int| partial_coeff(ts, prefix, k), n, x.val());
        lemma_mod_twice(mpoly_val(ts, pt), modulus());
    } else {
        let p0 = prefix.push(Some(fe_of(0)));
        let p1 = prefix.push(Some(fe_of(1)));
        let m1 = (m - 1) as nat;
        lemma_cube(ts, nv, p0, f, x, m1, n);
        lemma_cube(ts, nv, p1, f, x, m1, n);
        assert(subst(p0, f, x) =~= pt.push(fe_of(0)));
        assert(subst(p1, f, x) =~= pt.push(fe_of(1)));
        let a0 = |k: int| cube_coeff(ts, p0, m1, k);
        let a1 = |k: int| cube_coeff(ts, p1, m1, k);
        assert forall|k: int| 0 <= k < n implies #[trigger] c(k) == (a0(k) + a1(k)) % modulus() by {}
        lemma_csum_linear(c, a0, a1, n, x.val());
        let s0 = cube_sum(ts, pt.push(fe_of(0)), m1);
        let s1 = cube_sum(ts, pt.push(fe_of(1)), m1);
        lemma_add_cong(csum(a0, n, x.val()), s0, csum(a1, n, x.val()), s1);
        lemma_mod_twice(s0 + s1, modulus());
    }
}

/// A round polynomial after challenges `r`, evaluated at `x`, is the sum over
/// {0, 1} of the remaining variables with the point `r` then `x`.
proof fn lemma_eval_round(g: MPoly, r: Seq<Fe>, p: Seq<Fe>, x: Fe)
    requires
        g.wf(),
        r.len() < g.num_vars,
        forall|k: int| #[trigger] coeff(p, k) == round_coeff(g@, g.num_vars as nat, r, k),
    ensures
        upoly_val(p, x.val()) % modulus() == cube_sum(g@, r.push(x), (g.num_vars - r.len() - 1) as nat)
            % modulus(),
{
    let nv = g.num_vars as nat;
    let m = (nv - r.len() - 1) as nat;
    let prefix = bound(r).push(None);
    let n = p.len() + deg_sum(g@) + 1;
    lemma_horner(p, n, x.val());
    assert forall|k: int| 0 <= k < n implies #[trigger] coeff(p, k) == cube_coeff(g@, prefix, m, k) by {}
    lemma_csum_ext(|k: int| coeff(p, k), |k: int| cube_coeff(g@, prefix, m, k), n, x.val());
    assert forall|i: int| 0 <= i < prefix.len() && i != r.len() implies (#[trigger] prefix[i]) is Some by {
        assert(prefix[i] == Some(r[i]));
    }
    lemma_cube(g@, nv, prefix, r.len() as int, x, m, n);
    assert(subst(prefix, r.len() as int, x) =~= r.push(x));
}

/// The two ends of a round polynomial after challenges `r` add up to the sum
/// over {0, 1} of every variable after `r`.
proof fn lemma_ends_round(g: MPoly, r: Seq<Fe>, p: Seq<Fe>)
    requires
        g.wf(),
        r.len() < g.num_vars,
        forall|k: int| #[trigger] coeff(p, k) == round_coeff(g@, g.num_vars as nat, r, k),
    ensures
        ends_sum(p) == cube_sum(g@, r, (g.num_vars - r.len()) as nat),
{
    lemma_modulus_pos();
    let m = (g.num_vars - r.len() - 1) as nat;
    lemma_eval_round(g, r, p, fe_of(0));
    lemma_eval_round(g, r, p, fe_of(1));
    assert(fe_of(0).val() == 0);
    assert(fe_of(1).val() == 1);
    let s0 = cube_sum(g@, r.push(fe_of(0)), m);
    let s1 = cube_sum(g@, r.push(fe_of(1)), m);
    lemma_add_mod_noop(upoly_val(p, 1), upoly_val(p, 0), modulus());
    lemma_add_cong(upoly_val(p, 1), s1, upoly_val(p, 0), s0);
}

/// Position `f` is the one free binding of `vals`.
pub open spec fn free_at(vals: Seq<Option<Fe>>, f: int) -> bool {
    &&& 0 <= f < vals.len()
    &&& vals[f] is None
    &&& forall|i: int| 0 <= i < vals.len() && i != f ==> (#[trigger] vals[i]) is Some
}

proof fn lemma_free_deg_is_power(ps: Seq<(usize, usize)>, vals: Seq<Option<Fe>>, f: int)
    requires
        free_at(vals, f),
        forall|j: int| 0 <= j < ps.len() ==> (#[trigger] ps[j]).0 < vals.len(),
    ensures
        free_deg(ps, vals) == term_power(ps, f as nat),
    decreases ps.len(),
{
    if ps.len() > 0 {
        let q = ps.drop_last();
        assert forall|j: int| 0 <= j < q.len() implies (#[trigger] q[j]).0 < vals.len() by {
            assert(q[j] == ps[j]);
        }
        lemma_free_deg_is_power(q, vals, f);
        assert(ps.last() == ps[ps.len() - 1]);
        let v = ps.last().0 as int;
        if v != f {
            assert(vals[v] is Some);
        }
    }
}

proof fn lemma_partial_high(ts: Seq<TermModel>, vals: Seq<Option<Fe>>, f: int, k: int)
    requires
        free_at(vals, f),
        forall|i: int| 0 <= i < ts.len() ==> term_wf(#[trigger] ts[i], vals.len()),
        k > var_degree(ts, f as nat),
    ensures
        partial_coeff(ts, vals, k) == 0,
    decreases ts.len(),
{
    lemma_modulus_pos();
    if ts.len() > 0 {
        let q = ts.drop_last();
        let t = ts.last();
        assert(t == ts[ts.len() - 1]);
        assert forall|i: int| 0 <= i < q.len() implies term_wf(#[trigger] q[i], vals.len()) by {
            assert(q[i] == ts[i]);
        }
        lemma_partial_high(q, vals, f, k);
        assert(term_wf(t, vals.len()));
        lemma_free_deg_is_power(t.1, vals, f);
        lemma_small_mod(0, modulus() as nat);
    }
}

proof fn lemma_cube_high(ts: Seq<TermModel>, nv: nat, prefix: Seq<Option<Fe>>, f: int, m: nat, k: int)
    requires
        forall|i: int| 0 <= i < ts.len() ==> term_wf(#[trigger] ts[i], nv),
        prefix.len() + m == nv,
        free_at(prefix, f),
        k > var_degree(ts, f as nat),
    ensures
        cube_coeff(ts, prefix, m, k) == 0,
    decreases m,
{
    lemma_modulus_pos();
    if m == 0 {
        lemma_partial_high(ts, prefix, f, k);
    } else {
        let p0 = prefix.push(Some(fe_of(0)));
        let p1 = prefix.push(Some(fe_of(1)));
        assert forall|i: int| 0 <= i < p0.len() && i != f implies (#[trigger] p0[i]) is Some by {
            if i < prefix.len() {
                assert(prefix[i] is Some);
            }
        }
        assert forall|i: int| 0 <= i < p1.len() && i != f implies (#[trigger] p1[i]) is Some by {
            if i < prefix.len() {
                assert(prefix[i] is Some);
            }
        }
        lemma_cube_high(ts, nv, p0, f, (m - 1) as nat, k);
        lemma_cube_high(ts, nv, p1, f, (m - 1) as nat, k);
        lemma_small_mod(0, modulus() as nat);
    }
}

/// The honest round polynomial after challenges `r` has no power of its
/// variable above that variable's degree in the polynomial, so it passes the
/// verifier's degree check.
pub proof fn lemma_round_degree(g: MPoly, r: Seq<Fe>, p: Seq<Fe>)
    requires
        g.wf(),
        r.len() < g.num_vars,
        forall|k: int| #[trigger] coeff(p, k) == round_coeff(g@, g.num_vars as nat, r, k),
    ensures
        degree_within(p, var_degree(g@, r.len())),
{
    let prefix = bound(r).push(None);
    assert forall|i: int| 0 <= i < prefix.len() && i != r.len() implies (#[trigger] prefix[i]) is Some by {
        assert(prefix[i] == Some(r[i]));
    }
    assert forall|k: int| var_degree(g@, r.len()) < k implies #[trigger] coeff(p, k) == 0 by {
        lemma_cube_high(g@, g.num_vars as nat, prefix, r.len() as int, (g.num_vars - r.len() - 1) as nat, k);
    }
}

/// The claim is honest: the first round polynomial's values at 0 and 1 add up
/// to the polynomial's sum over the Boolean hypercube.
pub proof fn lemma_first_round_matches_claim(g: MPoly, p: Seq<Fe>)
    requires
        g.wf(),
        forall|k: int| #[trigger] coeff(p, k) == round_coeff(g@, g.num_vars as nat, Seq::empty(), k),
    ensures
        ends_sum(p) == hypercube_sum(g@, g.num_vars as nat),
{
    lemma_ends_round(g, Seq::empty(), p);
}

/// Each later round agrees with the one before: the round polynomial after
/// challenges `r` has `p(0) + p(1)` equal to the previous round polynomial at
/// the last challenge.
pub proof fn lemma_round_matches_previous(g: MPoly, r: Seq<Fe>, prev: Seq<Fe>, p: Seq<Fe>)
    requires
        g.wf(),
        1 <= r.len() < g.num_vars,
        forall|k: int| #[trigger] coeff(prev, k) == round_coeff(g@, g.num_vars as nat, r.drop_last(), k),
        forall|k: int| #[trigger] coeff(p, k) == round_coeff(g@, g.num_vars as nat, r, k),
    ensures
        ends_sum(p) == eval_at(prev, r.last()),
{
    lemma_modulus_pos();
    lemma_ends_round(g, r, p);
    lemma_eval_round(g, r.drop_last(), prev, r.last());
    assert(r.drop_last().push(r.last()) =~= r);
    let m = (g.num_vars - r.len() - 1) as nat;
    lemma_mod_twice(cube_sum(g@, r.push(fe_of(0)), m) + cube_sum(g@, r.push(fe_of(1)), m), modulus());
}

/// The last round polynomial at the last challenge is the polynomial itself at
/// the full vector of challenges.
pub proof fn lemma_last_round_matches_polynomial(g: MPoly, r: Seq<Fe>, prev: Seq<Fe>)
    requires
        g.wf(),
        r.len() == g.num_vars,
        forall|k: int| #[trigger] coeff(prev, k) == round_coeff(g@, g.num_vars as nat, r.drop_last(), k),
    ensures
        eval_at(prev, r.last()) == mpoly_val(g@, r) % modulus(),
{
    lemma_modulus_pos();
    lemma_eval_round(g, r.drop_last(), prev, r.last());
    assert(r.drop_last().push(r.last()) =~= r);
    lemma_mod_twice(mpoly_val(g@, r), modulus());
}

/// Completeness: for every vector of challenges, the honest prover's round
/// polynomials pass every check the verifier makes, so the session ends in
/// acceptance. `polys[i]` is the round polynomial after the first `i` challenges.
pub proof fn lemma_honest_run_accepted(g: MPoly, r: Seq<Fe>, polys: Seq<Seq<Fe>>)
    requires
        g.wf(),
        r.len() == g.num_vars,
        polys.len() == g.num_vars,
        forall|i: int, k: int|
            0 <= i < g.num_vars ==> #[trigger] coeff(polys[i], k) == round_coeff(
                g@,
                g.num_vars as nat,
                r.subrange(0, i),
                k,
            ),
    ensures
        ends_sum(polys[0]) == hypercube_sum(g@, g.num_vars as nat),
        forall|i: int| 1 <= i < g.num_vars ==> ends_sum(#[trigger] polys[i]) == eval_at(polys[i - 1], r[i - 1]),
        eval_at(polys[g.num_vars - 1], r.last()) == mpoly_val(g@, r) % modulus(),
        forall|i: int| 0 <= i < g.num_vars ==> degree_within(#[trigger] polys[i], var_degree(g@, i as nat)),
{
    let n = g.num_vars as int;
    assert(r.subrange(0, 0) =~= Seq::<Fe>::empty());
    assert forall|k: int| #[trigger] coeff(polys[0], k) == round_coeff(g@, n as nat, Seq::empty(), k) by {
        assert(coeff(polys[0], k) == round_coeff(g@, n as nat, r.subrange(0, 0), k));
    }
    lemma_first_round_matches_claim(g, polys[0]);
    assert forall|i: int| 1 <= i < n implies ends_sum(#[trigger] polys[i]) == eval_at(polys[i - 1], r[i - 1]) by {
        let ri = r.subrange(0, i);
        assert(ri.drop_last() =~= r.subrange(0, i - 1));
        assert forall|k: int| #[trigger] coeff(polys[i - 1], k) == round_coeff(g@, n as nat, ri.drop_last(), k) by {
            assert(coeff(polys[i - 1], k) == round_coeff(g@, n as nat, r.subrange(0, i - 1), k));
        }
        assert forall|k: int| #[trigger] coeff(polys[i], k) == round_coeff(g@, n as nat, ri, k) by {
            assert(coeff(polys[i], k) == round_coeff(g@, n as nat, r.subrange(0, i), k));
        }
        lemma_round_matches_previous(g, ri, polys[i - 1], polys[i]);
    }
    assert(r.drop_last() =~= r.subrange(0, n - 1));
    assert forall|k: int| #[trigger] coeff(polys[n - 1], k) == round_coeff(g@, n as nat, r.drop_last(), k) by {
        assert(coeff(polys[n - 1], k) == round_coeff(g@, n as nat, r.subrange(0, n - 1), k));
    }
    lemma_last_round_matches_polynomial(g, r, polys[n - 1]);
    assert forall|i: int| 0 <= i < n implies degree_within(#[trigger] polys[i], var_degree(g@, i as nat)) by {
        let ri = r.subrange(0, i);
        assert forall|k: int| #[trigger] coeff(polys[i], k) == round_coeff(g@, n as nat, ri, k) by {
            assert(coeff(polys[i], k) == round_coeff(g@, n as nat, r.subrange(0, i), k));
        }
        lemma_round_degree(g, ri, polys[i]);
    }
}

} // verus!
