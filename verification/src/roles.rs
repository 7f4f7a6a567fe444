//! Roles, multiplicity contracts, and action-set transformers.
//!
//! A role is a pure identifier for a slot kind inside a game.  Its
//! description pairs a multiplicity contract (how many agents must or may
//! fill the slot) with the transformer applied to the repertoire of every
//! agent that fills it.

use vstd::prelude::*;
use crate::actions::AnyAction;

verus! {

/// Roles of the kingdom game.
#[derive(Clone, Copy, Debug, PartialEq, Eq, Structural)]
pub enum KingdomRole {
    King,
    Peasant,
}

/// Roles of the settlement game that ends a kingdom cycle.
#[derive(Clone, Copy, Debug, PartialEq, Eq, Structural)]
pub enum TheEndRole {
    Anyone,
}

/// Roles of the lottery game.
#[derive(Clone, Copy, Debug, PartialEq, Eq, Structural)]
pub enum LotteryRole {
    Player,
}

/// The closed set of role identifiers, one family per game kind.
#[derive(Clone, Copy, Debug, PartialEq, Eq, Structural)]
pub enum AnyRole {
    KingdomRole(KingdomRole),
    TheEndRole(TheEndRole),
    LotteryRole(LotteryRole),
}

/// The multiplicity contract of a role: how many agents must (`min`) and may
/// (`max`) fill it.  A `Required` role aborts the whole game when it cannot
/// reach `min`; an `Optional` role is then merely left unfilled.
#[derive(Clone, Copy, Debug, PartialEq, Eq, Structural)]
pub enum AnyUniqueness {
    RequiredMultipletRole(usize, usize),
    OptionalMultipletRole(usize, usize),
}

impl AnyUniqueness {
    /// The fewest agents that let the role be filled.
    pub open spec fn spec_min(self) -> usize {
        match self {
            AnyUniqueness::RequiredMultipletRole(min, _) => min,
            AnyUniqueness::OptionalMultipletRole(min, _) => min,
        }
    }

    /// The most agents the role accepts.
    pub open spec fn spec_max(self) -> usize {
        match self {
            AnyUniqueness::RequiredMultipletRole(_, max) => max,
            AnyUniqueness::OptionalMultipletRole(_, max) => max,
        }
    }

    /// Whether a shortfall voids the whole game.
    pub open spec fn spec_required(self) -> bool {
        match self {
            AnyUniqueness::RequiredMultipletRole(_, _) => true,
            AnyUniqueness::OptionalMultipletRole(_, _) => false,
        }
    }

    /// A sane contract: at least one slot, and a reachable minimum.  A
    /// violation is a configuration-time defect, not a runtime condition.
    pub open spec fn spec_valid(self) -> bool {
        self.spec_max() >= 1 && self.spec_max() >= self.spec_min()
    }
}

/// How a role edits the repertoire of an agent filling it, for one tick.
#[derive(Clone, Copy, Debug, PartialEq, Eq, Structural)]
pub enum AnyTransformer {
    /// Leaves the repertoire as it is.
    TrivialTransformer,
    /// Appends one role-specific action.
    AddAction(AnyAction),
    /// Discards the repertoire and substitutes a single forced action.
    ReplaceAll(AnyAction),
}

/// The transformed repertoire, as a pure function of the base repertoire.
pub open spec fn spec_transform(t: AnyTransformer, base: Seq<AnyAction>) -> Seq<AnyAction> {
    match t {
        AnyTransformer::TrivialTransformer => base,
        AnyTransformer::AddAction(a) => base.push(a),
        AnyTransformer::ReplaceAll(a) => seq![a],
    }
}

impl AnyTransformer {
    /// Edits `actions` in place into the transient repertoire for one tick.
    /// Transformers are pure list edits: they never read agent or tile state.
    pub fn transform(&self, actions: &mut Vec<AnyAction>)
        ensures
            final(actions)@ == spec_transform(*self, old(actions)@),
    {
        match self {
            AnyTransformer::TrivialTransformer => {},
            AnyTransformer::AddAction(a) => {
                actions.push(*a);
            },
            AnyTransformer::ReplaceAll(a) => {
                actions.clear();
                actions.push(*a);
                assert(actions@ =~= seq![*a]);
            },
        }
    }
}

/// What a role asks of its fillers: the multiplicity contract and the
/// repertoire transformer.
#[derive(Clone, Copy, Debug, PartialEq, Eq, Structural)]
pub struct RoleDescription {
    pub uniqueness: AnyUniqueness,
    pub transformer: AnyTransformer,
}

/// One slot declaration of a game: a role and its description.  A game's
/// declaration list plays the part of an ordered role-to-description map.
#[derive(Clone, Copy, Debug, PartialEq, Eq, Structural)]
pub struct RoleEntry {
    pub role: AnyRole,
    pub description: RoleDescription,
}

/// The capability check the assigner runs before matching an agent to a
/// role.  A closed set, extensible by adding variants.
#[derive(Clone, Copy, Debug, PartialEq, Eq, Structural)]
pub enum AnyParticipationChecker {
    /// Accepts every agent for every role.
    TrivialChecker,
}

} // verus!
