//! Games: ordered role declarations plus an optional delayed follow-up.
//!
//! A game is a value: an ordered list of role declarations and, optionally,
//! a boxed consequent game that enters the next tick's pool once this game
//! is actually played.  A delay of `n` ticks is encoded structurally, as `n`
//! nested games with no roles at all: each layer is trivially playable,
//! consumes one tick, and hands the next layer to the following tick.

use vstd::prelude::*;
use crate::actions::AnyAction;
use crate::roles::{
    AnyRole, AnyTransformer, AnyUniqueness, KingdomRole, LotteryRole, RoleDescription, RoleEntry,
    TheEndRole,
};

verus! {

/// Ticks between a played kingdom game and its settlement game.
pub const KINGDOM_SETTLEMENT_DELAY: usize = 30;

/// A declared set of role slots, optionally chained to a consequent game.
#[derive(Debug, PartialEq, Eq)]
pub struct Game {
    pub roles: Vec<RoleEntry>,
    pub consequent_game: Option<Box<Game>>,
}

/// A sane role list: no role declared twice, and every multiplicity
/// contract reachable.
pub open spec fn roles_wf(roles: Seq<RoleEntry>) -> bool {
    (forall|i: int, j: int|
        0 <= i < j < roles.len() ==> roles[i].role != roles[j].role) && (forall|i: int|
        0 <= i < roles.len() ==> #[trigger] roles[i].description.uniqueness.spec_valid())
}

impl Game {
    /// A well-formed game: sane roles, all the way down its consequent chain.
    pub open spec fn wf(self) -> bool
        decreases self,
    {
        roles_wf(self.roles@) && match self.consequent_game {
            Option::None => true,
            Option::Some(b) => (*b).wf(),
        }
    }

    /// `outer` is `payload` wrapped in exactly `delay` role-less layers.
    pub open spec fn spec_delay_wrapped(outer: Game, payload: Game, delay: nat) -> bool
        decreases delay,
    {
        if delay == 0 {
            outer == payload
        } else {
            outer.roles@.len() == 0 && match outer.consequent_game {
                Option::None => false,
                Option::Some(b) => Self::spec_delay_wrapped(*b, payload, (delay - 1) as nat),
            }
        }
    }

    /// Decides well-formedness at run time, for callers outside the
    /// verified world that must check a game before handing it to the
    /// engine.
    pub fn is_well_formed(&self) -> (r: bool)
        ensures
            r == self.wf(),
        decreases *self,
    {
        let mut i: usize = 0;
        while i < self.roles.len()
            invariant
                0 <= i <= self.roles@.len(),
                forall|i2: int, j2: int|
                    0 <= i2 < j2 < self.roles@.len() && i2 < i ==> self.roles@[i2].role
                        != self.roles@[j2].role,
                forall|i2: int|
                    0 <= i2 < i ==> (#[trigger] self.roles@[
                    i2]).description.uniqueness.spec_valid(),
            decreases self.roles@.len() - i,
        {
            let e = self.roles[i];
            let (min, max) = match e.description.uniqueness {
                AnyUniqueness::RequiredMultipletRole(a, b) => (a, b),
                AnyUniqueness::OptionalMultipletRole(a, b) => (a, b),
            };
            if max < 1 || max < min {
                proof {
                    assert(!self.roles@[i as int].description.uniqueness.spec_valid());
                    assert(!roles_wf(self.roles@));
                }
                return false;
            }
            let mut j: usize = i + 1;
            while j < self.roles.len()
                invariant
                    i < j <= self.roles@.len(),
                    i < self.roles@.len(),
                    forall|j2: int|
                        i < j2 < j ==> self.roles@[i as int].role != (#[trigger] self.roles@[
                        j2]).role,
                decreases self.roles@.len() - j,
            {
                if self.roles[j].role == self.roles[i].role {
                    proof {
                        assert(self.roles@[i as int].role == self.roles@[j as int].role);
                        assert(!roles_wf(self.roles@));
                    }
                    return false;
                }
                j = j + 1;
            }
            i = i + 1;
        }
        match &self.consequent_game {
            Option::None => true,
            Option::Some(boxed) => boxed.is_well_formed(),
        }
    }

    /// Wraps `game` so that it becomes playable only `delay` ticks after the
    /// wrapper first enters a pool: each layer holds no roles, is therefore
    /// always played, and releases the next layer into the next tick's pool.
    pub fn create_delayed_consequent_game(delay: usize, game: Game) -> (r: Game)
        ensures
            Self::spec_delay_wrapped(r, game, delay as nat),
            game.wf() ==> r.wf(),
        decreases delay,
    {
        if delay == 0 {
            game
        } else {
            let inner = Self::create_delayed_consequent_game(delay - 1, game);
            Game { roles: Vec::new(), consequent_game: Option::Some(Box::new(inner)) }
        }
    }
}

/// The role list of the kingdom game: one required king whose role appends
/// the probabilistic mint, and any number of optional peasants whose role
/// appends flat work.
pub open spec fn spec_kingdom_roles() -> Seq<RoleEntry> {
    seq![
        RoleEntry {
            role: AnyRole::KingdomRole(KingdomRole::King),
            description: RoleDescription {
                uniqueness: AnyUniqueness::RequiredMultipletRole(1, 1),
                transformer: AnyTransformer::AddAction(AnyAction::MintByChance),
            },
        },
        RoleEntry {
            role: AnyRole::KingdomRole(KingdomRole::Peasant),
            description: RoleDescription {
                uniqueness: AnyUniqueness::OptionalMultipletRole(0, usize::MAX),
                transformer: AnyTransformer::AddAction(AnyAction::Work),
            },
        },
    ]
}

/// The role list of the settlement game: everyone it can gather is forced
/// into a single tax-settlement action.
pub open spec fn spec_the_end_roles() -> Seq<RoleEntry> {
    seq![
        RoleEntry {
            role: AnyRole::TheEndRole(TheEndRole::Anyone),
            description: RoleDescription {
                uniqueness: AnyUniqueness::RequiredMultipletRole(1, usize::MAX),
                transformer: AnyTransformer::ReplaceAll(AnyAction::PayTax),
            },
        },
    ]
}

/// The role list of the lottery game: any number of players, each of whose
/// repertoire gains the double-or-nothing lottery.
pub open spec fn spec_lottery_roles() -> Seq<RoleEntry> {
    seq![
        RoleEntry {
            role: AnyRole::LotteryRole(LotteryRole::Player),
            description: RoleDescription {
                uniqueness: AnyUniqueness::RequiredMultipletRole(1, usize::MAX),
                transformer: AnyTransformer::AddAction(AnyAction::PlayLottery),
            },
        },
    ]
}

/// Recognizes the settlement game value.
pub open spec fn spec_is_the_end_game(g: Game) -> bool {
    g.roles@ == spec_the_end_roles() && g.consequent_game is None
}

/// `g` is the settlement game wrapped in exactly `delay` role-less layers.
pub open spec fn spec_wrapped_end(g: Game, delay: nat) -> bool
    decreases delay,
{
    if delay == 0 {
        spec_is_the_end_game(g)
    } else {
        g.roles@.len() == 0 && match g.consequent_game {
            Option::None => false,
            Option::Some(b) => spec_wrapped_end(*b, (delay - 1) as nat),
        }
    }
}

/// Recognizes the kingdom game: its two roles, and its settlement game
/// scheduled `KINGDOM_SETTLEMENT_DELAY` ticks out.
pub open spec fn spec_is_kingdom_game(g: Game) -> bool {
    g.roles@ == spec_kingdom_roles() && match g.consequent_game {
        Option::None => false,
        Option::Some(b) => spec_wrapped_end(*b, KINGDOM_SETTLEMENT_DELAY as nat),
    }
}

/// Recognizes the lottery game value.
pub open spec fn spec_is_lottery_game(g: Game) -> bool {
    g.roles@ == spec_lottery_roles() && g.consequent_game is None
}

/// A delay wrapper around the settlement game is a wrapped settlement game.
proof fn lemma_delay_wrapped_end(outer: Game, payload: Game, delay: nat)
    requires
        Game::spec_delay_wrapped(outer, payload, delay),
        spec_is_the_end_game(payload),
    ensures
        spec_wrapped_end(outer, delay),
    decreases delay,
{
    if delay > 0 {
        match outer.consequent_game {
            Option::None => {},
            Option::Some(b) => {
                lemma_delay_wrapped_end(*b, payload, (delay - 1) as nat);
            },
        }
    }
}

/// Builds the settlement game.
pub fn the_end_game() -> (g: Game)
    ensures
        spec_is_the_end_game(g),
        g.wf(),
{
    let mut roles: Vec<RoleEntry> = Vec::new();
    roles.push(RoleEntry {
        role: AnyRole::TheEndRole(TheEndRole::Anyone),
        description: RoleDescription {
            uniqueness: AnyUniqueness::RequiredMultipletRole(1, usize::MAX),
            transformer: AnyTransformer::ReplaceAll(AnyAction::PayTax),
        },
    });
    proof {
        assert(roles@ =~= spec_the_end_roles());
    }
    Game { roles, consequent_game: Option::None }
}

/// Builds the kingdom game, with its settlement game scheduled
/// `KINGDOM_SETTLEMENT_DELAY` ticks after the kingdom game is played.
pub fn kingdom_game() -> (g: Game)
    ensures
        spec_is_kingdom_game(g),
        g.wf(),
{
    let mut roles: Vec<RoleEntry> = Vec::new();
    roles.push(RoleEntry {
        role: AnyRole::KingdomRole(KingdomRole::King),
        description: RoleDescription {
            uniqueness: AnyUniqueness::RequiredMultipletRole(1, 1),
            transformer: AnyTransformer::AddAction(AnyAction::MintByChance),
        },
    });
    roles.push(RoleEntry {
        role: AnyRole::KingdomRole(KingdomRole::Peasant),
        description: RoleDescription {
            uniqueness: AnyUniqueness::OptionalMultipletRole(0, usize::MAX),
            transformer: AnyTransformer::AddAction(AnyAction::Work),
        },
    });
    proof {
        assert(roles@ =~= spec_kingdom_roles());
    }
    let end = the_end_game();
    let wrapped = Game::create_delayed_consequent_game(KINGDOM_SETTLEMENT_DELAY, end);
    proof {
        lemma_delay_wrapped_end(wrapped, end, KINGDOM_SETTLEMENT_DELAY as nat);
    }
    Game { roles, consequent_game: Option::Some(Box::new(wrapped)) }
}

/// Builds the lottery game.
pub fn lottery_game() -> (g: Game)
    ensures
        spec_is_lottery_game(g),
        g.wf(),
{
    let mut roles: Vec<RoleEntry> = Vec::new();
    roles.push(RoleEntry {
        role: AnyRole::LotteryRole(LotteryRole::Player),
        description: RoleDescription {
            uniqueness: AnyUniqueness::RequiredMultipletRole(1, usize::MAX),
            transformer: AnyTransformer::AddAction(AnyAction::PlayLottery),
        },
    });
    proof {
        assert(roles@ =~= spec_lottery_roles());
    }
    Game { roles, consequent_game: Option::None }
}

/// Whether some entry of `roles` declares `r`.
pub open spec fn spec_has_role(roles: Seq<RoleEntry>, r: AnyRole) -> bool {
    exists|i: int| 0 <= i < roles.len() && roles[i].role == r
}

/// Looks `r` up among the declared roles.
pub fn contains_role(roles: &Vec<RoleEntry>, r: AnyRole) -> (found: bool)
    ensures
        found == spec_has_role(roles@, r),
{
    let mut i: usize = 0;
    while i < roles.len()
        invariant
            i <= roles@.len(),
            forall|j: int| 0 <= j < i ==> roles@[j].role != r,
        decreases roles@.len() - i,
    {
        if roles[i].role == r {
            return true;
        }
        i = i + 1;
    }
    false
}

/// A source of fresh game instances, checked for complete role coverage.
pub trait GameProvider {
    /// A fresh, well-formed instance of the provided game, recognized by
    /// the provider's own game predicate.
    fn provide_game(&self) -> (g: Game)
        ensures
            g.wf(),
            self.spec_provides(g),
    ;

    /// Verifies that every role of the provider's role family has a
    /// description; reports the first missing family role otherwise.  The
    /// result is exactly `spec_check_result`.
    fn check_if_all_roles_are_described(&self, roles: &Vec<RoleEntry>) -> (r: Result<
        (),
        AnyRole,
    >)
        ensures
            r == self.spec_check_result(roles@),
            r is Ok <==> self.spec_family_covered(roles@),
            r matches Err(m) ==> !spec_has_role(roles@, m),
    ;

    /// Recognizes the game this provider supplies.
    spec fn spec_provides(&self, g: Game) -> bool;

    /// Every role of the provider's family is described in `roles`.
    spec fn spec_family_covered(&self, roles: Seq<RoleEntry>) -> bool;

    /// What the coverage check returns: success, or the first role of the
    /// provider's family that lacks a description.
    spec fn spec_check_result(&self, roles: Seq<RoleEntry>) -> Result<(), AnyRole>;
}

/// Provides the kingdom game.
pub struct KingdomGameProvider;

impl GameProvider for KingdomGameProvider {
    open spec fn spec_provides(&self, g: Game) -> bool {
        spec_is_kingdom_game(g)
    }

    open spec fn spec_family_covered(&self, roles: Seq<RoleEntry>) -> bool {
        spec_has_role(roles, AnyRole::KingdomRole(KingdomRole::King)) && spec_has_role(
            roles,
            AnyRole::KingdomRole(KingdomRole::Peasant),
        )
    }

    open spec fn spec_check_result(&self, roles: Seq<RoleEntry>) -> Result<(), AnyRole> {
        if !spec_has_role(roles, AnyRole::KingdomRole(KingdomRole::King)) {
            Result::Err(AnyRole::KingdomRole(KingdomRole::King))
        } else if !spec_has_role(roles, AnyRole::KingdomRole(KingdomRole::Peasant)) {
            Result::Err(AnyRole::KingdomRole(KingdomRole::Peasant))
        } else {
            Result::Ok(())
        }
    }

    fn provide_game(&self) -> (g: Game) {
        let game = kingdom_game();
        // The roles of the fresh instance provably cover the family, so
        // the coverage check cannot fail here.
        let checked = self.check_if_all_roles_are_described(&game.roles);
        proof {
            assert(spec_kingdom_roles()[0].role == AnyRole::KingdomRole(KingdomRole::King));
            assert(spec_kingdom_roles()[1].role == AnyRole::KingdomRole(KingdomRole::Peasant));
            assert(checked is Ok);
        }
        game
    }

    fn check_if_all_roles_are_described(&self, roles: &Vec<RoleEntry>) -> (r: Result<
        (),
        AnyRole,
    >) {
        if !contains_role(roles, AnyRole::KingdomRole(KingdomRole::King)) {
            Result::Err(AnyRole::KingdomRole(KingdomRole::King))
        } else if !contains_role(roles, AnyRole::KingdomRole(KingdomRole::Peasant)) {
            Result::Err(AnyRole::KingdomRole(KingdomRole::Peasant))
        } else {
            Result::Ok(())
        }
    }
}

/// Provides the lottery game.
pub struct LotteryGameProvider;

impl GameProvider for LotteryGameProvider {
    open spec fn spec_provides(&self, g: Game) -> bool {
        spec_is_lottery_game(g)
    }

    open spec fn spec_family_covered(&self, roles: Seq<RoleEntry>) -> bool {
        spec_has_role(roles, AnyRole::LotteryRole(LotteryRole::Player))
    }

    open spec fn spec_check_result(&self, roles: Seq<RoleEntry>) -> Result<(), AnyRole> {
        if !spec_has_role(roles, AnyRole::LotteryRole(LotteryRole::Player)) {
            Result::Err(AnyRole::LotteryRole(LotteryRole::Player))
        } else {
            Result::Ok(())
        }
    }

    fn provide_game(&self) -> (g: Game) {
        let game = lottery_game();
        let checked = self.check_if_all_roles_are_described(&game.roles);
        proof {
            assert(spec_lottery_roles()[0].role == AnyRole::LotteryRole(LotteryRole::Player));
            assert(checked is Ok);
        }
        game
    }

    fn check_if_all_roles_are_described(&self, roles: &Vec<RoleEntry>) -> (r: Result<
        (),
        AnyRole,
    >) {
        if !contains_role(roles, AnyRole::LotteryRole(LotteryRole::Player)) {
            Result::Err(AnyRole::LotteryRole(LotteryRole::Player))
        } else {
            Result::Ok(())
        }
    }
}

} // verus!
