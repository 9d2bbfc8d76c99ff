//! The Monte Carlo ruin estimator: repeated independent trials of a random
//! walk driven by the alias sampler, counting the trials whose wealth dips to
//! or below zero within the step budget.

use vstd::prelude::*;
use crate::num::{Num, add_bits, f_le, BITS_ZERO};
use crate::num::{num_add, num_le, fresh_rng};
use crate::codec::parse_components;
use crate::codec::spec_decode;
use crate::alias::{AliasTable, all_dist_samples, is_dist_sample};

verus! {

/// Wealth after applying a whole increment sequence in order, left to right.
pub open spec fn spec_wealth(w: Num, incs: Seq<Num>) -> Num
    decreases incs.len(),
{
    if incs.len() == 0 {
        w
    } else {
        spec_wealth(Num { bits: add_bits(w.bits, incs[0].bits) }, incs.skip(1))
    }
}

/// Whether a walk from `w` through the increments dips to or below zero at
/// some intermediate point; a ruined trial stops there.
pub open spec fn spec_ruined(w: Num, incs: Seq<Num>) -> bool
    decreases incs.len(),
{
    if incs.len() == 0 {
        false
    } else {
        let w2 = Num { bits: add_bits(w.bits, incs[0].bits) };
        f_le(w2.bits, BITS_ZERO) || spec_ruined(w2, incs.skip(1))
    }
}

proof fn lemma_wealth_push(w: Num, incs: Seq<Num>, s: Num)
    ensures
        spec_wealth(w, incs.push(s)) == (Num { bits: add_bits(spec_wealth(w, incs).bits, s.bits) }),
    decreases incs.len(),
{
    let ext = incs.push(s);
    if incs.len() == 0 {
        assert(ext[0] == s);
        assert(ext.skip(1) =~= Seq::<Num>::empty());
        assert(spec_wealth(w, ext) == spec_wealth(Num { bits: add_bits(w.bits, s.bits) }, ext.skip(1)));
        assert(spec_wealth(w, incs) == w);
    } else {
        let w2 = Num { bits: add_bits(w.bits, incs[0].bits) };
        lemma_wealth_push(w2, incs.skip(1), s);
        assert(ext.skip(1) =~= incs.skip(1).push(s));
        assert(ext[0] == incs[0]);
        assert(spec_wealth(w, ext) == spec_wealth(w2, incs.skip(1).push(s)));
        assert(spec_wealth(w, incs) == spec_wealth(w2, incs.skip(1)));
    }
}

proof fn lemma_ruined_push(w: Num, incs: Seq<Num>, s: Num)
    ensures
        spec_ruined(w, incs.push(s)) == (spec_ruined(w, incs) || f_le(
            add_bits(spec_wealth(w, incs).bits, s.bits),
            BITS_ZERO,
        )),
    decreases incs.len(),
{
    let ext = incs.push(s);
    if incs.len() == 0 {
        assert(ext[0] == s);
        assert(ext.skip(1) =~= Seq::<Num>::empty());
        assert(spec_ruined(w, ext) == (f_le(add_bits(w.bits, s.bits), BITS_ZERO) || spec_ruined(
            Num { bits: add_bits(w.bits, s.bits) },
            ext.skip(1),
        )));
        assert(spec_wealth(w, incs) == w);
        assert(!spec_ruined(w, incs));
    } else {
        let w2 = Num { bits: add_bits(w.bits, incs[0].bits) };
        lemma_ruined_push(w2, incs.skip(1), s);
        lemma_wealth_push(w2, incs.skip(1), s);
        assert(ext.skip(1) =~= incs.skip(1).push(s));
        assert(ext[0] == incs[0]);
        assert(spec_ruined(w, ext) == (f_le(w2.bits, BITS_ZERO) || spec_ruined(w2, incs.skip(1).push(s))));
        assert(spec_ruined(w, incs) == (f_le(w2.bits, BITS_ZERO) || spec_ruined(w2, incs.skip(1))));
        assert(spec_wealth(w, incs) == spec_wealth(w2, incs.skip(1)));
    }
}

/// Law: lengthening a trial never undoes a ruin. If the walk from `w` dips
/// to or below zero within the increments of `pre`, it also does within any
/// extension of `pre` drawn from the same stream.
pub proof fn lemma_ruin_monotone_in_steps(w: Num, pre: Seq<Num>, ext: Seq<Num>)
    requires
        pre.len() <= ext.len(),
        pre == ext.take(pre.len() as int),
        spec_ruined(w, pre),
    ensures
        spec_ruined(w, ext),
    decreases pre.len(),
{
    assert(pre.len() > 0);
    assert(ext[0] == pre[0]);
    let w2 = Num { bits: add_bits(w.bits, ext[0].bits) };
    if f_le(w2.bits, BITS_ZERO) {
        assert(spec_ruined(w, ext));
    } else {
        assert(spec_ruined(w2, pre.skip(1)));
        assert(pre.skip(1) =~= ext.skip(1).take(pre.len() - 1));
        lemma_ruin_monotone_in_steps(w2, pre.skip(1), ext.skip(1));
    }
}

/// One trial: walk from `init_wealth` for at most `steps` sampled
/// increments, stopping at the first dip to or below zero. The outcome is
/// exactly the ruin predicate applied to the increments actually drawn,
/// every increment is a possible draw from the table, and a surviving trial
/// has consumed the full step budget.
fn run_trial(table: &AliasTable, init_wealth: Num, steps: u32, rng: &mut rand::rngs::ThreadRng) -> (ruined: bool)
    requires
        table.wf(),
        table.is_built(),
    ensures
        exists|incs: Seq<Num>|
            incs.len() <= steps && ruined == spec_ruined(init_wealth, incs) && (!ruined
                ==> incs.len() == steps) && all_dist_samples(table.components@, incs),
{
    let mut wealth = init_wealth;
    let ghost mut incs: Seq<Num> = Seq::empty();
    let mut ruined = false;
    let mut step: u32 = 0;
    while step < steps && !ruined
        invariant
            table.wf(),
            table.is_built(),
            all_dist_samples(table.components@, incs),
            step <= steps,
            incs.len() == step,
            !ruined ==> wealth == spec_wealth(init_wealth, incs),
            !ruined ==> !spec_ruined(init_wealth, incs),
            ruined ==> spec_ruined(init_wealth, incs),
        decreases steps - step,
    {
        let s = table.sample(rng);
        let ghost pre = incs;
        wealth = num_add(wealth, s);
        proof {
            incs = pre.push(s);
            lemma_wealth_push(init_wealth, pre, s);
            lemma_ruined_push(init_wealth, pre, s);
            assert(is_dist_sample(table.components@, s));
            assert forall|j: int| 0 <= j < incs.len() implies is_dist_sample(
                table.components@,
                #[trigger] incs[j],
            ) by {
                if j < pre.len() {
                    assert(incs[j] == pre[j]);
                } else {
                    assert(incs[j] == s);
                }
            }
        }
        if num_le(wealth, Num { bits: BITS_ZERO }) {
            ruined = true;
        }
        step += 1;
    }
    proof {
        assert(incs.len() <= steps && ruined == spec_ruined(init_wealth, incs) && (!ruined
            ==> incs.len() == steps) && all_dist_samples(table.components@, incs));
    }
    ruined
}

/// How many of the trial increment streams ruin a walk that starts at `w`.
pub open spec fn count_ruined(w: Num, trials: Seq<Seq<Num>>) -> int
    decreases trials.len(),
{
    if trials.len() == 0 {
        0
    } else {
        count_ruined(w, trials.drop_last()) + if spec_ruined(w, trials.last()) {
            1int
        } else {
            0int
        }
    }
}

/// Run `num_trials` independent trials of the random walk whose step
/// increments are drawn from the encoded distribution, and count the ruined
/// ones. The count never exceeds the trial budget, and it is exactly the
/// ruin count of the per-trial increment streams actually drawn: one stream
/// per trial, every increment of every stream a possible draw from the
/// alias table built over the decoded input (exactly 0.0 when that input
/// decodes to nothing), none longer than the step budget, a surviving
/// trial's stream exactly that long.
pub fn run_monte_carlo(components_data: &Vec<Num>, init_wealth: Num, steps: u32, num_trials: u32) -> (ruin_count: u32)
    ensures
        ruin_count <= num_trials,
        exists|trials: Seq<Seq<Num>>|
            trials.len() == num_trials && (forall|i: int|
                0 <= i < trials.len() ==> (#[trigger] trials[i]).len() <= steps && (!spec_ruined(
                    init_wealth,
                    trials[i],
                ) ==> trials[i].len() == steps) && all_dist_samples(
                    spec_decode(components_data@),
                    trials[i],
                )) && ruin_count == count_ruined(init_wealth, trials),
{
    let components = parse_components(components_data);
    let table = AliasTable::new(components);
    let mut rng = fresh_rng();
    let mut ruin_count: u32 = 0;
    let mut t: u32 = 0;
    let ghost mut trials: Seq<Seq<Num>> = Seq::empty();
    while t < num_trials
        invariant
            ruin_count <= t,
            t <= num_trials,
            table.wf(),
            trials.len() == t,
            table.components@ == spec_decode(components_data@),
            table.is_built(),
            forall|i: int|
                0 <= i < trials.len() ==> (#[trigger] trials[i]).len() <= steps && (!spec_ruined(
                    init_wealth,
                    trials[i],
                ) ==> trials[i].len() == steps) && all_dist_samples(
                    spec_decode(components_data@),
                    trials[i],
                ),
            ruin_count == count_ruined(init_wealth, trials),
        decreases num_trials - t,
    {
        let ruined = run_trial(&table, init_wealth, steps, &mut rng);
        proof {
            let incs = choose|incs: Seq<Num>|
                incs.len() <= steps && ruined == spec_ruined(init_wealth, incs) && (!ruined
                    ==> incs.len() == steps) && all_dist_samples(table.components@, incs);
            let pre = trials;
            trials = trials.push(incs);
            assert(trials.drop_last() =~= pre);
            assert(trials.last() == incs);
        }
        if ruined {
            ruin_count += 1;
        }
        t += 1;
    }
    ruin_count
}

} // verus!
