//! The closed set of action effects and their semantics.
//!
//! An action mutates at most the acting agent's ledger and the shared tile
//! ledger, possibly consuming random draws.  Probabilities are kept in
//! fixed-point arithmetic scaled by `FP_ONE` (no floating point anywhere):
//! a draw uniform over `0..FP_ONE` succeeds when it lands below the scaled
//! probability.
//!
//! Fixed draw order, so that runs replay identically from a seed: an action
//! draws only when it executes for real, exactly once per probabilistic
//! action (`MintByChance`, `PlayLottery`), and never during decision
//! lookahead, which previews the action's successful branch instead.

use vstd::prelude::*;
use crate::resources::{AnyResource, Resources, sat_add_u64};
use crate::rng::SimRng;

verus! {

/// The fixed-point scale: this value stands for probability one.
pub const FP_ONE: u64 = 1_000_000_000;

/// `1 / 1.0001` in fixed point: the per-coin decay of the mint chance, for
/// the difficulty growth rate of `1.0001` per coin already in circulation.
pub const MINT_DECAY_FP: u64 = 999_900_009;

/// Coins granted by one successful probabilistic mint.
pub const MINT_REWARD: u64 = 10;

/// Chance of winning the double-or-nothing lottery: one draw out of
/// `LOTTERY_WIN_ONE_IN`.
pub const LOTTERY_WIN_ONE_IN: u64 = 5;

/// Divisor of the flat wealth tax: one unit per `TAX_DIVISOR` held.
pub const TAX_DIVISOR: u64 = 100;

/// The closed set of action effects.
#[derive(Clone, Copy, Debug, PartialEq, Eq, Structural)]
pub enum AnyAction {
    /// Does nothing.
    Trivial,
    /// Unconditionally grants the carried number of coins to the actor.
    MintFixed(u64),
    /// Grants `MINT_REWARD` coins with a chance that decays geometrically
    /// in the total number of coins already in circulation.
    MintByChance,
    /// Flat work: one coin.
    Work,
    /// Moves a fixed fraction of the actor's coins to the shared tile.
    PayTax,
    /// Double or nothing: the actor's whole coin balance is the stake; a
    /// loss moves the stake to the shared tile.
    PlayLottery,
}

/// Fixed-point product: `x * y / FP_ONE`, rounded down.
pub open spec fn spec_fp_mul(x: int, y: int) -> int {
    (x * y) / (FP_ONE as int)
}

/// Fixed-point power by squaring: `b ^ e` with `b` scaled by `FP_ONE`,
/// rounded down at every step.
pub open spec fn spec_fp_pow(b: int, e: nat) -> int
    decreases e,
{
    if e == 0 {
        FP_ONE as int
    } else {
        let h = spec_fp_pow(b, e / 2);
        let s = spec_fp_mul(h, h);
        if e % 2 == 1 {
            spec_fp_mul(s, b)
        } else {
            s
        }
    }
}

/// A fixed-point value stays a probability (within `0 ..= FP_ONE`) under
/// the fixed-point product.
proof fn lemma_fp_mul_bounds(x: int, y: int)
    requires
        0 <= x <= FP_ONE as int,
        0 <= y <= FP_ONE as int,
    ensures
        0 <= spec_fp_mul(x, y) <= FP_ONE as int,
{
    let f = FP_ONE as int;
    assert(x * y <= f * f) by (nonlinear_arith)
        requires 0 <= x <= f, 0 <= y <= f;
    assert(x * y >= 0) by (nonlinear_arith)
        requires 0 <= x, 0 <= y;
    assert((x * y) / f <= (f * f) / f) by {
        vstd::arithmetic::div_mod::lemma_div_is_ordered(x * y, f * f, f);
    }
    assert((f * f) / f == f) by {
        vstd::arithmetic::div_mod::lemma_div_by_multiple(f, f);
    }
}

/// Fixed-point powers of a probability are probabilities.
pub proof fn lemma_fp_pow_bounds(b: int, e: nat)
    requires
        0 <= b <= FP_ONE as int,
    ensures
        0 <= spec_fp_pow(b, e) <= FP_ONE as int,
    decreases e,
{
    if e != 0 {
        lemma_fp_pow_bounds(b, e / 2);
        let h = spec_fp_pow(b, e / 2);
        lemma_fp_mul_bounds(h, h);
        if e % 2 == 1 {
            lemma_fp_mul_bounds(spec_fp_mul(h, h), b);
        }
    }
}

/// Fixed-point power by squaring, matching `spec_fp_pow` exactly.
fn fp_pow(b: u64, e: u64) -> (r: u64)
    requires
        b <= FP_ONE,
    ensures
        r as int == spec_fp_pow(b as int, e as nat),
        r <= FP_ONE,
    decreases e,
{
    proof {
        lemma_fp_pow_bounds(b as int, e as nat);
    }
    if e == 0 {
        FP_ONE
    } else {
        let h = fp_pow(b, e / 2);
        proof {
            lemma_fp_mul_bounds(h as int, h as int);
        }
        let s = ((h as u128 * h as u128) / (FP_ONE as u128)) as u64;
        if e % 2 == 1 {
            proof {
                lemma_fp_mul_bounds(s as int, b as int);
            }
            ((s as u128 * b as u128) / (FP_ONE as u128)) as u64
        } else {
            s
        }
    }
}

/// The chance (scaled by `FP_ONE`) that one probabilistic mint succeeds when
/// `total_gold` coins are already in circulation: the fixed-point value of
/// `1 / 1.0001 ^ total_gold`, so discovery odds shrink as wealth grows.
pub open spec fn spec_mint_chance(total_gold: u64) -> int {
    spec_fp_pow(MINT_DECAY_FP as int, total_gold as nat)
}

/// Computes the mint chance for the given coins in circulation.
pub fn chance_to_mint_gold(total_gold: u64) -> (p: u64)
    ensures
        p as int == spec_mint_chance(total_gold),
        p <= FP_ONE,
{
    fp_pow(MINT_DECAY_FP, total_gold)
}

/// The scoped state an action may touch: the actor's ledger and the shared
/// tile ledger.  `spec_preview` is the deterministic lookahead semantics
/// (the successful branch of a probabilistic action); the executable
/// semantics below may instead take the unlucky branch on a real draw.
pub open spec fn spec_preview(a: AnyAction, agent_res: Resources) -> Resources {
    match a {
        AnyAction::Trivial => agent_res,
        AnyAction::MintFixed(n) => agent_res.spec_with(
            AnyResource::Coins,
            sat_add_u64(agent_res.coins, n),
        ),
        AnyAction::MintByChance => agent_res.spec_with(
            AnyResource::Coins,
            sat_add_u64(agent_res.coins, MINT_REWARD),
        ),
        AnyAction::Work => agent_res.spec_with(
            AnyResource::Coins,
            sat_add_u64(agent_res.coins, 1),
        ),
        AnyAction::PayTax => agent_res.spec_with(
            AnyResource::Coins,
            (agent_res.coins - agent_res.coins / TAX_DIVISOR) as u64,
        ),
        AnyAction::PlayLottery => agent_res.spec_with(
            AnyResource::Coins,
            sat_add_u64(agent_res.coins, agent_res.coins),
        ),
    }
}

/// Deterministic lookahead: the actor's ledger after the successful branch
/// of the action, drawing nothing.
pub fn preview_action(a: AnyAction, agent_res: Resources) -> (r: Resources)
    ensures
        r == spec_preview(a, agent_res),
{
    let mut res = agent_res;
    match a {
        AnyAction::Trivial => {},
        AnyAction::MintFixed(n) => res.add(AnyResource::Coins, n),
        AnyAction::MintByChance => res.add(AnyResource::Coins, MINT_REWARD),
        AnyAction::Work => res.add(AnyResource::Coins, 1),
        AnyAction::PayTax => {
            let tax = res.coins / TAX_DIVISOR;
            let _spent = res.try_subtract(AnyResource::Coins, tax);
        },
        AnyAction::PlayLottery => {
            let stake = res.coins;
            res.add(AnyResource::Coins, stake);
        },
    }
    res
}

/// What executing `a` can do to the scoped ledgers, for every possible
/// draw: each arm lists the exact outcomes.
pub open spec fn spec_execute_outcome(
    a: AnyAction,
    old_agent: Resources,
    old_tile: Resources,
    new_agent: Resources,
    new_tile: Resources,
) -> bool {
    match a {
        AnyAction::Trivial => new_agent == old_agent && new_tile == old_tile,
        AnyAction::MintFixed(_) => new_agent == spec_preview(a, old_agent)
            && new_tile == old_tile,
        AnyAction::Work => new_agent == spec_preview(a, old_agent) && new_tile == old_tile,
        AnyAction::MintByChance => new_tile == old_tile && (new_agent == spec_preview(
            a,
            old_agent,
        ) || new_agent == old_agent),
        AnyAction::PayTax => new_agent == spec_preview(a, old_agent) && new_tile
            == old_tile.spec_with(
            AnyResource::Coins,
            sat_add_u64(old_tile.coins, old_agent.coins / TAX_DIVISOR),
        ),
        AnyAction::PlayLottery => (new_agent == spec_preview(a, old_agent) && new_tile
            == old_tile) || (new_agent == old_agent.spec_with(AnyResource::Coins, 0) && new_tile
            == old_tile.spec_with(AnyResource::Coins, sat_add_u64(old_tile.coins, old_agent.coins))),
    }
}

/// Executes `a` on the scoped ledgers.  `total_gold` is the number of coins
/// in circulation, which only the probabilistic mint reads to set its odds.
pub fn execute_scoped(
    a: AnyAction,
    agent_res: &mut Resources,
    tile_res: &mut Resources,
    total_gold: u64,
    rng: &mut SimRng,
)
    ensures
        spec_execute_outcome(a, *old(agent_res), *old(tile_res), *final(agent_res), *final(tile_res)),
        a == AnyAction::MintByChance && spec_mint_chance(total_gold) == FP_ONE as int
            ==> *final(agent_res) == spec_preview(a, *old(agent_res)),
        a == AnyAction::MintByChance && spec_mint_chance(total_gold) == 0 ==> *final(agent_res)
            == *old(agent_res),
{
    match a {
        AnyAction::Trivial => {},
        AnyAction::MintFixed(n) => agent_res.add(AnyResource::Coins, n),
        AnyAction::MintByChance => {
            let p = chance_to_mint_gold(total_gold);
            let draw = rng.draw_below(FP_ONE);
            if draw < p {
                agent_res.add(AnyResource::Coins, MINT_REWARD);
            }
        },
        AnyAction::Work => agent_res.add(AnyResource::Coins, 1),
        AnyAction::PayTax => {
            let tax = agent_res.get(AnyResource::Coins) / TAX_DIVISOR;
            let _spent = agent_res.try_subtract(AnyResource::Coins, tax);
            tile_res.add(AnyResource::Coins, tax);
        },
        AnyAction::PlayLottery => {
            let stake = agent_res.get(AnyResource::Coins);
            let draw = rng.draw_below(LOTTERY_WIN_ONE_IN);
            if draw == 0 {
                agent_res.add(AnyResource::Coins, stake);
            } else {
                let _forfeited = agent_res.try_subtract(AnyResource::Coins, stake);
                tile_res.add(AnyResource::Coins, stake);
            }
        },
    }
}

} // verus!
