//! Decision policies: how an agent picks one action out of its transient set.
//!
//! Two policies live on agents: uniform random choice, and one-ply utility
//! lookahead (preview every candidate on the acting agent's ledger, score
//! the result, pick the argmax, first seen winning ties).  A standalone
//! weighted categorical choice over integer weights is also provided; a
//! candidate with weight zero is never chosen.

use vstd::prelude::*;
use crate::actions::{spec_preview, AnyAction};
use crate::resources::{utility_key, utility_key_spec, Resources};
use crate::rng::SimRng;

verus! {

/// The closed set of decision policies an agent can carry.
#[derive(Clone, Copy, Debug, PartialEq, Eq, Structural)]
pub enum AnyDecider {
    /// Uniform random choice among the candidates.
    RngDecider,
    /// One-ply lookahead maximizing the utility key of the previewed ledger.
    UtilityDecider,
}

/// The utility key the acting agent would score after the successful branch
/// of `a`.
pub open spec fn spec_preview_key(a: AnyAction, res: Resources) -> u128 {
    utility_key_spec(spec_preview(a, res))
}

/// Index of the best candidate among the first `n`, by previewed utility
/// key; the earliest of several equals wins, so ties break deterministically
/// by candidate order.
pub open spec fn spec_best_index(cands: Seq<AnyAction>, res: Resources, n: int) -> int
    decreases n,
{
    if n <= 1 {
        0
    } else {
        let b = spec_best_index(cands, res, n - 1);
        if spec_preview_key(cands[n - 1], res) > spec_preview_key(cands[b], res) {
            n - 1
        } else {
            b
        }
    }
}

/// The candidate index the utility lookahead chooses.
pub open spec fn spec_utility_choice(cands: Seq<AnyAction>, res: Resources) -> int {
    spec_best_index(cands, res, cands.len() as int)
}

/// The best index is always in range.
pub proof fn lemma_best_index_in_range(cands: Seq<AnyAction>, res: Resources, n: int)
    requires
        1 <= n <= cands.len(),
    ensures
        0 <= spec_best_index(cands, res, n) < n,
    decreases n,
{
    if n > 1 {
        lemma_best_index_in_range(cands, res, n - 1);
    }
}

/// No candidate previews a strictly higher key than the chosen one.
pub proof fn lemma_best_index_is_max(cands: Seq<AnyAction>, res: Resources, n: int, j: int)
    requires
        1 <= n <= cands.len(),
        0 <= j < n,
    ensures
        spec_preview_key(cands[j], res) <= spec_preview_key(
            cands[spec_best_index(cands, res, n)],
            res,
        ),
    decreases n,
{
    if n > 1 && j < n - 1 {
        lemma_best_index_is_max(cands, res, n - 1, j);
    }
}

/// One-ply lookahead over the candidates: previews each candidate's
/// successful branch on the acting agent's ledger (drawing nothing), and
/// returns the index of the highest utility key, ties to the earliest.
fn utility_choice(cands: &Vec<AnyAction>, res: Resources) -> (best: usize)
    requires
        cands@.len() > 0,
    ensures
        best as int == spec_utility_choice(cands@, res),
{
    let mut best: usize = 0;
    let mut best_key: u128 = utility_key(&preview_candidate(cands, 0, res));
    let mut j: usize = 1;
    while j < cands.len()
        invariant
            1 <= j <= cands@.len(),
            best as int == spec_best_index(cands@, res, j as int),
            0 <= best < j,
            best_key == spec_preview_key(cands@[best as int], res),
        decreases cands@.len() - j,
    {
        let key = utility_key(&preview_candidate(cands, j, res));
        if key > best_key {
            best = j;
            best_key = key;
        }
        j = j + 1;
    }
    best
}

/// Previews candidate `i` on the ledger.
fn preview_candidate(cands: &Vec<AnyAction>, i: usize, res: Resources) -> (r: Resources)
    requires
        i < cands@.len(),
    ensures
        r == spec_preview(cands@[i as int], res),
        utility_key_spec(r) == spec_preview_key(cands@[i as int], res),
{
    crate::actions::preview_action(cands[i], res)
}

impl AnyDecider {
    /// Chooses exactly one action out of a non-empty transient set.
    /// `agent_res` is the acting agent's ledger as the policy sees it (the
    /// snapshot taken when its game started).  Whatever the policy and the
    /// draws, the choice is one of the candidates; the utility policy's
    /// choice is moreover pinned exactly.
    pub fn decide(
        &self,
        candidates: &Vec<AnyAction>,
        agent_res: Resources,
        rng: &mut SimRng,
    ) -> (choice: AnyAction)
        requires
            candidates@.len() > 0,
        ensures
            exists|i: int| 0 <= i < candidates@.len() && choice == candidates@[i],
            *self is UtilityDecider ==> choice == candidates@[spec_utility_choice(
                candidates@,
                agent_res,
            )],
    {
        match self {
            AnyDecider::RngDecider => {
                let n: u64 = candidates.len() as u64;
                let x = rng.draw_below(n);
                let i = x as usize;
                let choice = candidates[i];
                proof {
                    assert(choice == candidates@[i as int]);
                }
                choice
            },
            AnyDecider::UtilityDecider => {
                let best = utility_choice(candidates, agent_res);
                proof {
                    lemma_best_index_in_range(candidates@, agent_res, candidates@.len() as int);
                }
                candidates[best]
            },
        }
    }
}

/// Sum of a weight vector.
pub open spec fn spec_weight_sum(w: Seq<u64>) -> int
    decreases w.len(),
{
    if w.len() == 0 {
        0
    } else {
        w[0] + spec_weight_sum(w.drop_first())
    }
}

/// A sum of unsigned weights is non-negative.
pub proof fn lemma_weight_sum_nonneg(w: Seq<u64>)
    ensures
        spec_weight_sum(w) >= 0,
    decreases w.len(),
{
    if w.len() > 0 {
        lemma_weight_sum_nonneg(w.drop_first());
    }
}

/// The slot of the weighted categorical distribution that the point `x` of
/// `0 ..= sum - 1` falls into: the least `i` with `x` below the prefix sum
/// through `i`.
pub open spec fn spec_weighted_pick(w: Seq<u64>, x: int) -> int
    decreases w.len(),
{
    if w.len() == 0 {
        0
    } else if x < w[0] {
        0
    } else {
        1 + spec_weighted_pick(w.drop_first(), x - w[0])
    }
}

/// A point below the total weight falls into a real slot, and never into a
/// zero-weight slot.
pub proof fn lemma_weighted_pick_in_range(w: Seq<u64>, x: int)
    requires
        0 <= x < spec_weight_sum(w),
    ensures
        0 <= spec_weighted_pick(w, x) < w.len(),
        w[spec_weighted_pick(w, x)] > 0,
    decreases w.len(),
{
    if w.len() > 0 && x >= w[0] {
        lemma_weighted_pick_in_range(w.drop_first(), x - w[0]);
    }
}

/// Draws one slot of the weighted categorical distribution given by
/// `weights`: slot `i` with probability `weights[i] / sum`.  The result is
/// always a real slot of positive weight.
pub fn weighted_index(weights: &Vec<u64>, rng: &mut SimRng) -> (i: usize)
    requires
        spec_weight_sum(weights@) > 0,
        spec_weight_sum(weights@) <= u64::MAX,
    ensures
        i < weights@.len(),
        weights@[i as int] > 0,
        exists|x: int|
            0 <= x < spec_weight_sum(weights@) && i as int == spec_weighted_pick(weights@, x),
{
    let total = weight_sum(weights);
    let x = rng.draw_below(total);
    proof {
        lemma_weighted_pick_in_range(weights@, x as int);
    }
    let ghost gx = x as int;
    let mut i: usize = 0;
    let mut rem: u64 = x;
    proof {
        assert(weights@.skip(0) =~= weights@);
    }
    while i < weights.len() && weights[i] <= rem
        invariant
            0 <= i <= weights@.len(),
            spec_weighted_pick(weights@, gx) == i + spec_weighted_pick(
                weights@.skip(i as int),
                rem as int,
            ),
            (rem as int) < spec_weight_sum(weights@.skip(i as int)),
        decreases weights@.len() - i,
    {
        proof {
            assert(weights@.skip(i as int)[0] == weights@[i as int]);
            assert(weights@.skip(i as int).drop_first() =~= weights@.skip(i as int + 1));
        }
        rem = rem - weights[i];
        i = i + 1;
    }
    proof {
        if i == weights@.len() {
            assert(weights@.skip(i as int) =~= Seq::<u64>::empty());
        }
        assert(i < weights@.len());
        assert(weights@.skip(i as int)[0] == weights@[i as int]);
        assert(spec_weighted_pick(weights@.skip(i as int), rem as int) == 0);
    }
    i
}

/// Computes the total weight.
fn weight_sum(weights: &Vec<u64>) -> (total: u64)
    requires
        spec_weight_sum(weights@) <= u64::MAX,
    ensures
        total as int == spec_weight_sum(weights@),
{
    let mut acc: u64 = 0;
    let mut i: usize = 0;
    proof {
        assert(weights@.skip(0) =~= weights@);
    }
    while i < weights.len()
        invariant
            0 <= i <= weights@.len(),
            acc as int + spec_weight_sum(weights@.skip(i as int)) == spec_weight_sum(weights@),
            spec_weight_sum(weights@) <= u64::MAX,
        decreases weights@.len() - i,
    {
        proof {
            assert(weights@.skip(i as int)[0] == weights@[i as int]);
            assert(weights@.skip(i as int).drop_first() =~= weights@.skip(i as int + 1));
            lemma_weight_sum_nonneg(weights@.skip(i as int + 1));
        }
        acc = acc + weights[i];
        i = i + 1;
    }
    proof {
        assert(weights@.skip(i as int) =~= Seq::<u64>::empty());
    }
    acc
}

/// The weighted-random decision policy: chooses one action of a non-empty
/// set according to a parallel vector of integer weights.  An action of
/// weight zero is never chosen.
pub fn weighted_decide(
    actions: &Vec<AnyAction>,
    weights: &Vec<u64>,
    rng: &mut SimRng,
) -> (choice: AnyAction)
    requires
        actions@.len() == weights@.len(),
        spec_weight_sum(weights@) > 0,
        spec_weight_sum(weights@) <= u64::MAX,
    ensures
        exists|i: int|
            0 <= i < actions@.len() && choice == actions@[i] && weights@[i] > 0,
        exists|x: int|
            0 <= x < spec_weight_sum(weights@) && choice == actions@[spec_weighted_pick(
                weights@,
                x,
            )],
{
    let i = weighted_index(weights, rng);
    actions[i]
}

} // verus!
