//! The verifier: it checks each round polynomial against the previous one (or
//! the claimed sum) and ends with one evaluation of the polynomial itself.

use crate::field::{fe_add, fe_eq, fe_rand, modulus, Fe};
use crate::reduce::{max_degree, var_degree};
use crate::poly::{coeff, mpoly_eval, mpoly_val, upoly_eval, upoly_val, upoly_wf, MPoly};
use vstd::prelude::*;

verus! {

/// Where a protocol session stands.
#[derive(PartialEq, Eq, Structural, Clone, Copy, Debug)]
pub enum Status {
    /// Every check so far passed; another round is expected.
    Verifying,
    /// The final check passed: the claim is accepted.
    Verified,
    /// A check failed: the claim is rejected, and the session is over.
    Rejected,
}

/// `p(0) + p(1)` in the field.
pub open spec fn ends_sum(p: Seq<Fe>) -> int {
    (upoly_val(p, 1) % modulus() + upoly_val(p, 0) % modulus()) % modulus()
}

/// `p(x)` in the field.
pub open spec fn eval_at(p: Seq<Fe>, x: Fe) -> int {
    upoly_val(p, x.val()) % modulus()
}

/// No coefficient above power `d` is nonzero.
pub open spec fn degree_within(p: Seq<Fe>, d: nat) -> bool {
    forall|k: int| d < k ==> #[trigger] coeff(p, k) == 0
}

/// The verifier's state: the round polynomials received, the challenges drawn,
/// its own copy of the polynomial, and where the session stands.
pub struct Verifier {
    pub rnd_poly: Vec<Vec<Fe>>,
    pub r: Vec<Fe>,
    pub g: MPoly,
    pub status: Status,
}

/// A copy of a coefficient vector.
fn copy_coeffs(s: &Vec<Fe>) -> (r: Vec<Fe>)
    ensures
        r@ == s@,
{
    let mut r: Vec<Fe> = Vec::new();
    let mut j: usize = 0;
    while j < s.len()
        invariant
            0 <= j <= s@.len(),
            r@ == s@.subrange(0, j as int),
        decreases s@.len() - j,
    {
        r.push(s[j]);
        j += 1;
        assert(r@ =~= s@.subrange(0, j as int));
    }
    assert(r@ =~= s@);
    r
}

/// `p(0) + p(1)` computed in the field.
fn sum_at_ends(p: &Vec<Fe>) -> (r: Fe)
    requires
        upoly_wf(p@),
    ensures
        r.wf(),
        r.val() == ends_sum(p@),
{
    fe_add(upoly_eval(p, Fe::one()), upoly_eval(p, Fe::zero()))
}

/// Whether every coefficient above power `d` is zero.
fn within_degree(p: &Vec<Fe>, d: usize) -> (r: bool)
    requires
        upoly_wf(p@),
    ensures
        r == degree_within(p@, d as nat),
{
    if p.len() == 0 {
        return true;
    }
    let mut k: usize = d;
    while k < p.len() - 1
        invariant
            upoly_wf(p@),
            p@.len() > 0,
            d <= k,
            forall|j: int| d < j <= k ==> #[trigger] coeff(p@, j) == 0,
        decreases p@.len() - k,
    {
        k += 1;
        if !fe_eq(p[k], Fe::zero()) {
            assert(coeff(p@, k as int) != 0);
            return false;
        }
    }
    true
}

impl Verifier {
    /// The polynomial is well formed, at least one round polynomial is held, and
    /// every held value is canonical.
    pub open spec fn wf(&self) -> bool {
        &&& self.g.wf()
        &&& self.rnd_poly@.len() >= 1
        &&& forall|i: int| 0 <= i < self.rnd_poly@.len() ==> upoly_wf(#[trigger] self.rnd_poly@[i]@)
        &&& upoly_wf(self.r@)
    }

    /// The next call expected is a round check: one challenge drawn for each
    /// round polynomial held, and a variable left to check.
    pub open spec fn awaits_round(&self) -> bool {
        &&& self.r@.len() == self.rnd_poly@.len()
        &&& self.r@.len() < self.g.num_vars
    }

    /// A verifier for `g` that has received the first round polynomial `s1` and
    /// the claim `h`; `None` (the claim rejected) unless `s1` has no power of
    /// the first variable above its degree in `g` and `s1(0) + s1(1) == h`.
    pub fn init(g: &MPoly, s1: &Vec<Fe>, h: Fe) -> (res: Option<Verifier>)
        requires
            g.wf(),
            upoly_wf(s1@),
            h.wf(),
        ensures
            res.is_some() == (degree_within(s1@, var_degree(g@, 0)) && ends_sum(s1@) == h.val()),
            res.is_some() ==> {
                let v = res.unwrap();
                &&& v.wf()
                &&& v.g@ == g@
                &&& v.g.num_vars == g.num_vars
                &&& v.rnd_poly@.len() == 1
                &&& v.rnd_poly@[0]@ == s1@
                &&& v.r@ == Seq::<Fe>::empty()
                &&& v.status == Status::Verifying
            },
    {
        if !within_degree(s1, max_degree(g, 0)) {
            return None;
        }
        let s = sum_at_ends(s1);
        if !fe_eq(h, s) {
            return None;
        }
        let mut rnd_poly: Vec<Vec<Fe>> = Vec::new();
        rnd_poly.push(copy_coeffs(s1));
        let v = Verifier { rnd_poly, r: Vec::new(), g: g.duplicate(), status: Status::Verifying };
        assert(v.r@ =~= Seq::<Fe>::empty());
        Some(v)
    }

    /// Appends a challenge to the history.
    pub fn push_challenge(&mut self, c: Fe)
        requires
            old(self).wf(),
            c.wf(),
        ensures
            final(self).wf(),
            final(self).r@ == old(self).r@.push(c),
            final(self).rnd_poly@ == old(self).rnd_poly@,
            final(self).g == old(self).g,
            final(self).status == old(self).status,
    {
        self.r.push(c);
    }

    /// Draws a random challenge, records it and returns it.
    pub fn get_rand(&mut self) -> (c: Fe)
        requires
            old(self).wf(),
        ensures
            c.wf(),
            final(self).wf(),
            final(self).r@ == old(self).r@.push(c),
            final(self).rnd_poly@ == old(self).rnd_poly@,
            final(self).g == old(self).g,
            final(self).status == old(self).status,
    {
        let c = fe_rand();
        self.push_challenge(c);
        c
    }

    /// Checks the round polynomial `s`. A power of the round's variable above its
    /// degree in `g` is rejected first. In a middle round, `s(0) + s(1)` must
    /// equal the previous round polynomial at the previous challenge; in the
    /// last round, a final challenge is drawn and `s` there must equal `g` at all
    /// the challenges. A failed check ends the session with `Rejected`; once the
    /// session is over, its status is returned and nothing changes.
    pub fn execute_round(&mut self, s: &Vec<Fe>) -> (res: Status)
        requires
            old(self).wf(),
            old(self).awaits_round(),
            upoly_wf(s@),
        ensures
            final(self).wf(),
            final(self).g == old(self).g,
            final(self).status == res,
            old(self).status != Status::Verifying ==> res == old(self).status && final(self).r@
                == old(self).r@ && final(self).rnd_poly@ == old(self).rnd_poly@,
            old(self).status == Status::Verifying ==> {
                &&& final(self).rnd_poly@.drop_last() == old(self).rnd_poly@
                &&& final(self).rnd_poly@.last()@ == s@
            },
            old(self).status == Status::Verifying && !degree_within(
                s@,
                var_degree(old(self).g@, old(self).r@.len()),
            ) ==> res == Status::Rejected && final(self).r@ == old(self).r@,
            old(self).status == Status::Verifying && degree_within(
                s@,
                var_degree(old(self).g@, old(self).r@.len()),
            ) && old(self).r@.len() + 1 == old(self).g.num_vars ==> {
                &&& final(self).r@.len() == old(self).r@.len() + 1
                &&& final(self).r@.drop_last() == old(self).r@
                &&& res == if eval_at(s@, final(self).r@.last()) == mpoly_val(old(self).g@, final(self).r@) % modulus() {
                    Status::Verified
                } else {
                    Status::Rejected
                }
            },
            old(self).status == Status::Verifying && degree_within(
                s@,
                var_degree(old(self).g@, old(self).r@.len()),
            ) && old(self).r@.len() + 1 < old(self).g.num_vars ==> {
                &&& final(self).r@ == old(self).r@
                &&& res == if ends_sum(s@) == eval_at(old(self).rnd_poly@.last()@, old(self).r@.last()) {
                    Status::Verifying
                } else {
                    Status::Rejected
                }
            },
    {
        if self.status != Status::Verifying {
            return self.status;
        }
        let ghost old_polys = self.rnd_poly@;
        let last = self.rnd_poly.len() - 1;
        let r_prev = self.r[self.r.len() - 1];
        let h = upoly_eval(&self.rnd_poly[last], r_prev);
        self.rnd_poly.push(copy_coeffs(s));
        assert(self.rnd_poly@.drop_last() =~= old_polys);
        let round = self.r.len();
        let res = if !within_degree(s, max_degree(&self.g, round)) {
            Status::Rejected
        } else if self.g.num_vars - 1 == round {
            let c = self.get_rand();
            let at_r = upoly_eval(s, c);
            let expected = mpoly_eval(&self.g, &self.r);
            if fe_eq(at_r, expected) {
                Status::Verified
            } else {
                Status::Rejected
            }
        } else {
            let here = sum_at_ends(s);
            if fe_eq(h, here) {
                Status::Verifying
            } else {
                Status::Rejected
            }
        };
        self.status = res;
        res
    }
}

} // verus!
