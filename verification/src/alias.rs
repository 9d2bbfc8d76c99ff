//! Vose's alias method: O(n) preprocessing of the component weights into a
//! probability/alias pair of tables, then O(1) category selection per draw,
//! followed by per-shape value generation.

use vstd::prelude::*;
use crate::num::{Num, add_bits, sub_bits, mul_bits, div_bits, ln_bits,
    u64_as_f64_bits, unit_from_u64, unit_oc_from_u64, f_eq, f_lt, f_as_u64, f_neg,
    BITS_ZERO, BITS_ONE};
use crate::num::{num_add, num_sub, num_mul, num_div, num_ln, num_eq, num_lt, num_neg,
    num_from_u64, trunc_to_u64, draw_unit, draw_unit_oc};
use crate::dist::{Component, spec_weight, get_weight};
use crate::stats::{spec_total_weight, total_weight};

verus! {

/// The alias table over a component list.
pub struct AliasTable {
    pub prob: Vec<Num>,
    pub alias: Vec<usize>,
    pub components: Vec<Component>,
}

/// The scaled probabilities `weight / total * n` of the first `i` components.
pub open spec fn init_probs(d: Seq<Component>, total: u64, nf: u64, i: int) -> Seq<Num>
    decreases i,
{
    if i <= 0 {
        seq![]
    } else {
        init_probs(d, total, nf, i - 1).push(
            Num { bits: mul_bits(div_bits(spec_weight(d[i - 1]).bits, total), nf) },
        )
    }
}

/// The indices below `i` whose scaled probability is under one, in order.
pub open spec fn init_small(probs: Seq<Num>, i: int) -> Seq<usize>
    decreases i,
{
    if i <= 0 {
        seq![]
    } else {
        let r = init_small(probs, i - 1);
        if f_lt(probs[i - 1].bits, BITS_ONE) { r.push((i - 1) as usize) } else { r }
    }
}

/// The indices below `i` whose scaled probability is at least one, in order.
pub open spec fn init_large(probs: Seq<Num>, i: int) -> Seq<usize>
    decreases i,
{
    if i <= 0 {
        seq![]
    } else {
        let r = init_large(probs, i - 1);
        if f_lt(probs[i - 1].bits, BITS_ONE) { r } else { r.push((i - 1) as usize) }
    }
}

/// Force the probability of every index still on `stack` to exactly one,
/// last first, as the residual clean-up does.
pub open spec fn drain_ones(probs: Seq<Num>, stack: Seq<usize>) -> Seq<Num>
    decreases stack.len(),
{
    if stack.len() == 0 {
        probs
    } else {
        drain_ones(probs.update(stack.last() as int, Num { bits: BITS_ONE }), stack.drop_last())
    }
}

/// One run of the pairing loop: pop a small and a large index, alias the
/// small one to the large one, move the surplus, re-bucket the large index,
/// and when either stack empties force the leftovers to probability one.
pub open spec fn vose_loop(probs: Seq<Num>, alias: Seq<usize>, small: Seq<usize>, large: Seq<usize>) -> (Seq<Num>, Seq<usize>)
    decreases small.len() + large.len(),
{
    if small.len() > 0 && large.len() > 0 {
        let l = small.last();
        let g = large.last();
        let pnew = Num { bits: sub_bits(add_bits(probs[g as int].bits, probs[l as int].bits), BITS_ONE) };
        let probs1 = probs.update(g as int, pnew);
        let alias1 = alias.update(l as int, g);
        if f_lt(pnew.bits, BITS_ONE) {
            vose_loop(probs1, alias1, small.drop_last().push(g), large.drop_last())
        } else {
            vose_loop(probs1, alias1, small.drop_last(), large.drop_last().push(g))
        }
    } else {
        (drain_ones(drain_ones(probs, large), small), alias)
    }
}

/// The probability and alias tables that the construction yields: empty for
/// no components, uniform certainty with identity aliases for zero total
/// weight, and the pairing loop's outcome otherwise.
pub open spec fn spec_build(d: Seq<Component>) -> (Seq<Num>, Seq<usize>) {
    let n = d.len() as int;
    if n == 0 {
        (seq![], seq![])
    } else if f_eq(spec_total_weight(d), BITS_ZERO) {
        (Seq::new(n as nat, |i: int| Num { bits: BITS_ONE }), Seq::new(n as nat, |i: int| i as usize))
    } else {
        let probs0 = init_probs(d, spec_total_weight(d), u64_as_f64_bits(d.len() as u64), n);
        vose_loop(
            probs0,
            Seq::new(n as nat, |i: int| 0usize),
            init_small(probs0, n),
            init_large(probs0, n),
        )
    }
}

/// The value one draw produces, as a function of the two raw random words it
/// consumes: the first picks the slot (and its fractional residue decides
/// between slot and alias), the second drives the shape's own generator. A
/// Bin reads its fresh uniform in `[0, 1)`; a Tail reads the `(0, 1]`
/// variant so the logarithm in the inverse transform stays finite.
pub open spec fn spec_sample(components: Seq<Component>, prob: Seq<Num>, alias: Seq<usize>, r1: u64, r2: u64) -> Num {
    let n = components.len() as int;
    let u = mul_bits(unit_from_u64(r1), u64_as_f64_bits(n as u64));
    let iu = f_as_u64(u);
    let ii = if iu < n as u64 { iu as int } else { n - 1 };
    let y = sub_bits(u, u64_as_f64_bits(iu));
    let idx = if f_lt(y, prob[ii].bits) { ii } else { alias[ii] as int };
    match components[idx] {
        Component::Atom { x, .. } => x,
        Component::Bin { a, b, .. } => Num {
            bits: add_bits(a.bits, mul_bits(unit_from_u64(r2), sub_bits(b.bits, a.bits))),
        },
        Component::Tail { x0, lambda, is_right, .. } => {
            let e = div_bits(f_neg(ln_bits(unit_oc_from_u64(r2))), lambda.bits);
            if is_right {
                Num { bits: add_bits(x0.bits, e) }
            } else {
                Num { bits: sub_bits(x0.bits, e) }
            }
        }
    }
}

/// What one draw over the components `d` can return: exactly 0.0 when there
/// is nothing to sample, else a sampling-formula value of the tables built
/// over `d`, for some pair of raw random words.
pub open spec fn is_dist_sample(d: Seq<Component>, v: Num) -> bool {
    if d.len() == 0 {
        v == (Num { bits: BITS_ZERO })
    } else {
        exists|r1: u64, r2: u64| v == spec_sample(d, spec_build(d).0, spec_build(d).1, r1, r2)
    }
}

/// Every increment of a stream is a possible draw over `d`.
pub open spec fn all_dist_samples(d: Seq<Component>, incs: Seq<Num>) -> bool {
    forall|j: int| 0 <= j < incs.len() ==> is_dist_sample(d, #[trigger] incs[j])
}

impl AliasTable {
    /// The tables are the ones the construction yields over the components.
    pub open spec fn is_built(self) -> bool {
        self.prob@ == spec_build(self.components@).0 && self.alias@ == spec_build(
            self.components@,
        ).1
    }

    /// Tables and components agree in length and every alias points back
    /// into the table.
    pub open spec fn wf(self) -> bool {
        &&& self.prob@.len() == self.components@.len()
        &&& self.alias@.len() == self.components@.len()
        &&& forall|i: int| 0 <= i < self.alias@.len() ==> self.alias@[i] < self.components@.len()
    }

    /// Build the alias table over the given components.
    pub fn new(components: Vec<Component>) -> (r: AliasTable)
        ensures
            r.wf(),
            r.is_built(),
            r.components@ == components@,
            r.prob@ == spec_build(components@).0,
            r.alias@ == spec_build(components@).1,
    {
        let n = components.len();
        if n == 0 {
            return AliasTable { prob: Vec::new(), alias: Vec::new(), components };
        }
        let total = total_weight(&components);
        if num_eq(total, Num { bits: BITS_ZERO }) {
            let mut prob: Vec<Num> = Vec::new();
            let mut alias: Vec<usize> = Vec::new();
            let mut i: usize = 0;
            while i < n
                invariant
                    i <= n,
                    n == components@.len(),
                    prob@ == Seq::new(i as nat, |k: int| Num { bits: BITS_ONE }),
                    alias@ == Seq::new(i as nat, |k: int| k as usize),
                decreases n - i,
            {
                prob.push(Num { bits: BITS_ONE });
                alias.push(i);
                proof {
                    assert(prob@ =~= Seq::new((i + 1) as nat, |k: int| Num { bits: BITS_ONE }));
                    assert(alias@ =~= Seq::new((i + 1) as nat, |k: int| k as usize));
                }
                i += 1;
            }
            return AliasTable { prob, alias, components };
        }
        let nf = num_from_u64(n as u64);
        let mut prob: Vec<Num> = Vec::new();
        let mut i: usize = 0;
        while i < n
            invariant
                i <= n,
                n == components@.len(),
                total.bits == spec_total_weight(components@),
                nf.bits == u64_as_f64_bits(n as u64),
                prob@.len() == i,
                prob@ == init_probs(components@, total.bits, nf.bits, i as int),
            decreases n - i,
        {
            let w = get_weight(&components[i]);
            prob.push(num_mul(num_div(w, total), nf));
            i += 1;
        }
        let mut alias: Vec<usize> = Vec::new();
        let mut j: usize = 0;
        while j < n
            invariant
                j <= n,
                alias@ == Seq::new(j as nat, |k: int| 0usize),
            decreases n - j,
        {
            alias.push(0);
            proof {
                assert(alias@ =~= Seq::new((j + 1) as nat, |k: int| 0usize));
            }
            j += 1;
        }
        let mut small: Vec<usize> = Vec::new();
        let mut large: Vec<usize> = Vec::new();
        proof {
            assert(small@ =~= init_small(prob@, 0));
            assert(large@ =~= init_large(prob@, 0));
        }
        let mut m: usize = 0;
        while m < n
            invariant
                m <= n,
                n == prob@.len(),
                small@ == init_small(prob@, m as int),
                large@ == init_large(prob@, m as int),
                forall|k: int| 0 <= k < small@.len() ==> small@[k] < n,
                forall|k: int| 0 <= k < large@.len() ==> large@[k] < n,
            decreases n - m,
        {
            if num_lt(prob[m], Num { bits: BITS_ONE }) {
                small.push(m);
            } else {
                large.push(m);
            }
            m += 1;
        }
        let ghost probs0 = prob@;
        let ghost alias0 = alias@;
        let ghost small0 = small@;
        let ghost large0 = large@;
        let ghost target = vose_loop(probs0, alias0, small0, large0);
        while small.len() > 0 && large.len() > 0
            invariant
                n == components@.len(),
                prob@.len() == n,
                alias@.len() == n,
                forall|k: int| 0 <= k < small@.len() ==> small@[k] < n,
                forall|k: int| 0 <= k < large@.len() ==> large@[k] < n,
                forall|k: int| 0 <= k < alias@.len() ==> alias@[k] < n,
                vose_loop(prob@, alias@, small@, large@) == target,
            decreases small@.len() + large@.len(),
        {
            let ghost pre_p = prob@;
            let ghost pre_a = alias@;
            let ghost pre_s = small@;
            let ghost pre_l = large@;
            let l = small.pop().unwrap();
            let g = large.pop().unwrap();
            alias.set(l, g);
            let pnew = num_sub(num_add(prob[g], prob[l]), Num { bits: BITS_ONE });
            prob.set(g, pnew);
            if num_lt(pnew, Num { bits: BITS_ONE }) {
                small.push(g);
            } else {
                large.push(g);
            }
            proof {
                assert(pre_s.last() == l);
                assert(pre_l.last() == g);
                assert(prob@ == pre_p.update(g as int, pnew));
                assert(alias@ == pre_a.update(l as int, g));
                assert(vose_loop(prob@, alias@, small@, large@) == vose_loop(pre_p, pre_a, pre_s, pre_l));
            }
        }
        proof {
            assert(drain_ones(drain_ones(prob@, large@), small@) == target.0);
            assert(alias@ == target.1);
        }
        while large.len() > 0
            invariant
                n == components@.len(),
                prob@.len() == n,
                alias@.len() == n,
                forall|k: int| 0 <= k < small@.len() ==> small@[k] < n,
                forall|k: int| 0 <= k < large@.len() ==> large@[k] < n,
                forall|k: int| 0 <= k < alias@.len() ==> alias@[k] < n,
                drain_ones(drain_ones(prob@, large@), small@) == target.0,
                alias@ == target.1,
            decreases large@.len(),
        {
            let ghost pre_p = prob@;
            let ghost pre_l = large@;
            let g = large.pop().unwrap();
            prob.set(g, Num { bits: BITS_ONE });
            proof {
                assert(drain_ones(prob@, large@) == drain_ones(pre_p, pre_l));
            }
        }
        while small.len() > 0
            invariant
                n == components@.len(),
                prob@.len() == n,
                alias@.len() == n,
                large@.len() == 0,
                forall|k: int| 0 <= k < small@.len() ==> small@[k] < n,
                forall|k: int| 0 <= k < alias@.len() ==> alias@[k] < n,
                drain_ones(drain_ones(prob@, large@), small@) == target.0,
                alias@ == target.1,
            decreases small@.len(),
        {
            let ghost pre_p = prob@;
            let ghost pre_s = small@;
            let s = small.pop().unwrap();
            prob.set(s, Num { bits: BITS_ONE });
            proof {
                assert(drain_ones(prob@, large@) == prob@);
                assert(drain_ones(pre_p, large@) == pre_p);
                assert(drain_ones(pre_p, pre_s) == drain_ones(prob@, small@));
            }
        }
        proof {
            assert(drain_ones(drain_ones(prob@, large@), small@) == prob@);
        }
        AliasTable { prob, alias, components }
    }

    /// Draw one value: an O(1) category selection from the tables, then the
    /// chosen shape's own generator. The result is exactly the sampling
    /// formula applied to the one or two raw random words consumed.
    pub fn sample(&self, rng: &mut rand::rngs::ThreadRng) -> (res: Num)
        requires
            self.wf(),
        ensures
            self.components@.len() == 0 ==> res == (Num { bits: BITS_ZERO }),
            self.components@.len() > 0 ==> exists|r1: u64, r2: u64|
                res == spec_sample(self.components@, self.prob@, self.alias@, r1, r2),
            self.is_built() ==> is_dist_sample(self.components@, res),
    {
        if self.components.len() == 0 {
            return Num { bits: BITS_ZERO };
        }
        let n = self.components.len();
        let unit1 = draw_unit(rng);
        let ghost r1 = choose|v: u64| unit1.bits == unit_from_u64(v);
        let u = num_mul(unit1, num_from_u64(n as u64));
        let iu = trunc_to_u64(u);
        let ii: usize = if iu < n as u64 { iu as usize } else { n - 1 };
        let y = num_sub(u, num_from_u64(iu));
        let idx = if num_lt(y, self.prob[ii]) { ii } else { self.alias[ii] };
        match self.components[idx] {
            Component::Atom { x, .. } => {
                proof {
                    assert(x == spec_sample(self.components@, self.prob@, self.alias@, r1, r1));
                }
                x
            }
            Component::Bin { a, b, .. } => {
                let unit2 = draw_unit(rng);
                let ghost r2 = choose|v: u64| unit2.bits == unit_from_u64(v);
                let res = num_add(a, num_mul(unit2, num_sub(b, a)));
                proof {
                    assert(res == spec_sample(self.components@, self.prob@, self.alias@, r1, r2));
                }
                res
            }
            Component::Tail { x0, lambda, is_right, .. } => {
                let unit2 = draw_unit_oc(rng);
                let ghost r2 = choose|v: u64| unit2.bits == unit_oc_from_u64(v);
                let e = num_div(num_neg(num_ln(unit2)), lambda);
                let res = if is_right { num_add(x0, e) } else { num_sub(x0, e) };
                proof {
                    assert(res == spec_sample(self.components@, self.prob@, self.alias@, r1, r2));
                }
                res
            }
        }
    }
}

} // verus!
