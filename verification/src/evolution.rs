//! Rolling-horizon evolution: the edits made to an action plan between evaluations.
//!
//! Random draws are made by the caller and handed in, so each edit is exact for
//! every draw.

use vstd::prelude::*;
use rand::rngs::StdRng;
use crate::random::draw_below;

verus! {

/// Mutates a plan by cutting its tail at `cut` (a uniform draw below the plan's
/// length); evaluation later grows the plan back to its horizon. An empty plan is
/// left as it is.
pub fn mutate_plan<T>(plan: &mut Vec<T>, cut: usize)
    requires
        old(plan)@.len() == 0 || cut < old(plan)@.len(),
    ensures
        final(plan)@ == if old(plan)@.len() == 0 {
            old(plan)@
        } else {
            old(plan)@.take(cut as int)
        },
{
    if plan.len() == 0 {
        return;
    }
    plan.truncate(cut);
}

/// Shifts a plan once its first action has been played: what remains of it seeds the
/// next population. An empty plan stays empty.
pub fn shift_plan<T>(plan: &mut Vec<T>)
    ensures
        final(plan)@ == if old(plan)@.len() == 0 {
            old(plan)@
        } else {
            old(plan)@.drop_first()
        },
{
    if plan.len() > 0 {
        plan.remove(0);
        assert(plan@ =~= old(plan)@.drop_first());
    }
}

/// Mutates a plan by cutting its tail at a point drawn uniformly below its length
/// (see [`mutate_plan`]); an empty plan is left as it is and draws nothing.
pub fn mutate_at_random<T>(plan: &mut Vec<T>, rng: &mut StdRng)
    ensures
        old(plan)@.len() == 0 ==> final(plan)@ == old(plan)@,
        old(plan)@.len() > 0 ==> exists|cut: int|
            0 <= cut < old(plan)@.len() && final(plan)@ == old(plan)@.take(cut),
{
    if plan.len() == 0 {
        return;
    }
    let cut = draw_below(rng, plan.len());
    mutate_plan(plan, cut);
}

/// Cutting never lengthens a plan, and what is kept is the plan's own beginning.
pub proof fn lemma_mutation_keeps_prefix<T>(plan: Seq<T>, cut: nat)
    requires
        plan.len() == 0 || cut < plan.len(),
    ensures
        ({
            let m = if plan.len() == 0 {
                plan
            } else {
                plan.take(cut as int)
            };
            m.len() <= plan.len() && m.is_prefix_of(plan)
        }),
{
}

} // verus!
