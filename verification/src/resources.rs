//! Resource kinds and the per-owner resource ledger.
//!
//! Every agent and the shared tile own one `Resources` ledger: a non-negative
//! integer amount for each kind in the closed set `AnyResource`.  Amounts are
//! unsigned, so a ledger can never go negative; the only sanctioned way to
//! spend is `try_subtract`, which refuses rather than underflow.  Additions
//! saturate at `u64::MAX` instead of overflowing.
//!
//! The ledger also carries the agent utility score.  The classic score is
//! the sum over positive amounts of `log10(amount) + 1`.  This module keeps
//! the score as the integer key `product of (10 * amount)` over the positive
//! amounts: the base-10 logarithm of that key equals the classic sum, so the
//! key orders ledgers exactly as the classic score does while staying in
//! integer arithmetic.

use vstd::prelude::*;

verus! {

/// The closed set of resource kinds tracked by every ledger.
#[derive(Clone, Copy, Debug, PartialEq, Eq, Structural)]
pub enum AnyResource {
    Coins,
}

/// Addition that saturates at `u64::MAX` instead of overflowing.
pub open spec fn sat_add_u64(a: u64, b: u64) -> u64 {
    if a + b > u64::MAX {
        u64::MAX
    } else {
        (a + b) as u64
    }
}

/// Multiplication on `u128` that saturates at `u128::MAX`.
pub open spec fn sat_mul_u128(a: u128, b: u128) -> u128 {
    if a * b > u128::MAX {
        u128::MAX
    } else {
        (a * b) as u128
    }
}

/// A ledger: one non-negative amount per resource kind.  Holding one field
/// per kind makes the ledger a total mapping over the closed kind set, so a
/// lookup never needs a missing-key fallback.
#[derive(Clone, Copy, Debug, PartialEq, Eq, Structural)]
pub struct Resources {
    pub coins: u64,
}

impl Resources {
    /// The amount currently held for kind `r`.
    pub open spec fn spec_get(self, r: AnyResource) -> u64 {
        match r {
            AnyResource::Coins => self.coins,
        }
    }

    /// The ledger with the amount for kind `r` replaced by `v`.
    pub open spec fn spec_with(self, r: AnyResource, v: u64) -> Resources {
        match r {
            AnyResource::Coins => Resources { coins: v },
        }
    }

    /// A fresh ledger with every kind at zero.
    pub fn new() -> (r: Resources)
        ensures
            forall|k: AnyResource| r.spec_get(k) == 0,
            r == (Resources { coins: 0 }),
    {
        Resources { coins: 0 }
    }

    /// The amount held for kind `r`.
    pub fn get(&self, r: AnyResource) -> (a: u64)
        ensures
            a == self.spec_get(r),
    {
        match r {
            AnyResource::Coins => self.coins,
        }
    }

    /// Adds `delta` to the amount of kind `r`, saturating at `u64::MAX`.
    pub fn add(&mut self, r: AnyResource, delta: u64)
        ensures
            *final(self) == old(self).spec_with(r, sat_add_u64(old(self).spec_get(r), delta)),
            final(self).spec_get(r) == sat_add_u64(old(self).spec_get(r), delta),
            forall|k: AnyResource| k != r ==> final(self).spec_get(k) == old(self).spec_get(k),
    {
        let cur = self.get(r);
        let next = if cur > u64::MAX - delta {
            u64::MAX
        } else {
            cur + delta
        };
        match r {
            AnyResource::Coins => {
                self.coins = next;
            }
        }
    }

    /// Spends `delta` of kind `r` when the balance suffices; otherwise leaves
    /// the ledger untouched and reports failure.  This is the only sanctioned
    /// way to take from a ledger, so amounts can never underflow.
    pub fn try_subtract(&mut self, r: AnyResource, delta: u64) -> (ok: bool)
        ensures
            ok == (delta <= old(self).spec_get(r)),
            ok ==> *final(self) == old(self).spec_with(
                r,
                (old(self).spec_get(r) - delta) as u64,
            ),
            !ok ==> *final(self) == *old(self),
            forall|k: AnyResource| k != r ==> final(self).spec_get(k) == old(self).spec_get(k),
    {
        let cur = self.get(r);
        if delta <= cur {
            match r {
                AnyResource::Coins => {
                    self.coins = cur - delta;
                }
            }
            true
        } else {
            false
        }
    }
}

/// The utility contribution of a single amount: `10 * amount` when the amount
/// is positive (whose `log10` is `log10(amount) + 1`), else the neutral `1`.
pub open spec fn utility_factor(a: u64) -> u128 {
    if a > 0 {
        (10 * a) as u128
    } else {
        1
    }
}

/// The integer utility key of a ledger: the product of the factors of all
/// kinds, saturating at `u128::MAX`.  Its base-10 logarithm is the classic
/// `sum over positive amounts of log10(amount) + 1` score, so comparing keys
/// compares classic scores.
pub open spec fn utility_key_spec(res: Resources) -> u128 {
    sat_mul_u128(1, utility_factor(res.coins))
}

/// Computes the utility key of a ledger.
pub fn utility_key(res: &Resources) -> (u: u128)
    ensures
        u == utility_key_spec(*res),
{
    let f: u128 = if res.coins > 0 {
        10 * (res.coins as u128)
    } else {
        1
    };
    proof {
        assert(1 * f == f) by (nonlinear_arith);
    }
    f
}

/// Raising any single amount while all other amounts stay fixed never lowers
/// the utility key.
pub proof fn lemma_utility_monotone(res: Resources, k: AnyResource, v: u64)
    requires
        res.spec_get(k) <= v,
    ensures
        utility_key_spec(res) <= utility_key_spec(res.spec_with(k, v)),
{
    let a = res.spec_get(k);
    assert(utility_factor(a) <= utility_factor(v)) by (nonlinear_arith)
        requires a <= v;
    assert(sat_mul_u128(1, utility_factor(a)) <= sat_mul_u128(1, utility_factor(v)))
        by (nonlinear_arith)
        requires utility_factor(a) <= utility_factor(v);
}

/// Amounts are unsigned integers, so every ledger entry is non-negative; the
/// guarded `try_subtract` is what keeps this true at every step of a run.
pub proof fn lemma_ledger_non_negative(l: Resources)
    ensures
        forall|k: AnyResource| l.spec_get(k) as int >= 0,
{
}

} // verus!
