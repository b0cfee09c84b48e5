//! The honest prover: it holds the polynomial and the challenges received so
//! far, and answers each challenge with the next round polynomial.

use crate::field::Fe;
use crate::poly::{coeff, upoly_wf, MPoly, TermModel};
use crate::reduce::{
    bindings_wf, cube_coeff, cube_sum, hypercube_eval, partial_eval, partial_hypercube_eval,
};
use vstd::prelude::*;

verus! {

/// Challenges as bound variable values.
pub open spec fn bound(r: Seq<Fe>) -> Seq<Option<Fe>> {
    r.map_values(|x: Fe| Some(x))
}

/// The coefficient of `x^k` in the round polynomial after challenges `r`: the
/// first variables bound to `r`, the next one free, the rest summed over {0, 1}.
pub open spec fn round_coeff(ts: Seq<TermModel>, n: nat, r: Seq<Fe>, k: int) -> int {
    cube_coeff(ts, bound(r).push(None), (n - r.len() - 1) as nat, k)
}

/// The claimed sum: the polynomial summed over the Boolean hypercube.
pub open spec fn hypercube_sum(ts: Seq<TermModel>, n: nat) -> int {
    cube_sum(ts, Seq::empty(), n)
}

/// The prover's state: its own copy of the polynomial, the challenges received
/// so far, and the claimed sum.
pub struct Prover {
    pub g: MPoly,
    pub r: Vec<Fe>,
    pub h: Fe,
}

impl Prover {
    /// The polynomial is well formed and a variable is left for the next round.
    pub open spec fn wf(&self) -> bool {
        &&& self.g.wf()
        &&& self.r@.len() < self.g.num_vars
        &&& upoly_wf(self.r@)
        &&& self.h.wf()
    }

    /// A prover for `g` with no challenge yet, the hypercube sum of `g` as its
    /// claim, and the first round polynomial (the first variable free).
    pub fn init(g: &MPoly) -> (res: (Prover, Vec<Fe>))
        requires
            g.wf(),
        ensures
            res.0.wf(),
            res.0.g@ == g@,
            res.0.g.num_vars == g.num_vars,
            res.0.r@ == Seq::<Fe>::empty(),
            res.0.h.val() == hypercube_sum(g@, g.num_vars as nat),
            upoly_wf(res.1@),
            forall|k: int| #[trigger] coeff(res.1@, k) == round_coeff(g@, g.num_vars as nat, Seq::empty(), k),
    {
        let h = hypercube_eval(g);
        let mut first: Vec<Option<Fe>> = Vec::new();
        first.push(None);
        assert(first@ =~= bound(Seq::<Fe>::empty()).push(None));
        let first_rnd = partial_hypercube_eval(g, &first, g.num_vars - 1);
        let p = Prover { g: g.duplicate(), r: Vec::new(), h };
        assert(p.r@ =~= Seq::<Fe>::empty());
        (p, first_rnd)
    }

    /// Records the challenge and returns the next round polynomial: the
    /// challenges so far bound, the next variable free, the rest summed.
    pub fn execute_round(&mut self, r: Fe) -> (p: Vec<Fe>)
        requires
            old(self).wf(),
            r.wf(),
            old(self).r@.len() + 1 < old(self).g.num_vars,
        ensures
            final(self).wf(),
            final(self).g == old(self).g,
            final(self).h == old(self).h,
            final(self).r@ == old(self).r@.push(r),
            upoly_wf(p@),
            forall|k: int| #[trigger] coeff(p@, k) == round_coeff(
                old(self).g@,
                old(self).g.num_vars as nat,
                final(self).r@,
                k,
            ),
    {
        self.r.push(r);
        let mut inputs: Vec<Option<Fe>> = Vec::new();
        let mut i: usize = 0;
        while i < self.r.len()
            invariant
                0 <= i <= self.r@.len(),
                upoly_wf(self.r@),
                inputs@ == bound(self.r@.subrange(0, i as int)),
            decreases self.r@.len() - i,
        {
            inputs.push(Some(self.r[i]));
            i += 1;
            assert(inputs@ =~= bound(self.r@.subrange(0, i as int)));
        }
        assert(self.r@.subrange(0, self.r@.len() as int) =~= self.r@);
        inputs.push(None);
        assert(bindings_wf(inputs@)) by {
            assert forall|j: int| 0 <= j < inputs@.len() && (#[trigger] inputs@[j]).is_some() implies inputs@[j].unwrap().wf() by {
                assert(inputs@[j] == Some(self.r@[j]));
            }
        }
        if inputs.len() == self.g.num_vars {
            partial_eval(&self.g, &inputs)
        } else {
            partial_hypercube_eval(&self.g, &inputs, self.g.num_vars - inputs.len())
        }
    }
}

} // verus!
