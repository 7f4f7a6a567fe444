//! Component-level behavior: ledgers, utility, chances, transformers,
//! deciders, the assigner, providers, and configuration validation.

use tick_engine::actions::{chance_to_mint_gold, AnyAction, FP_ONE, MINT_DECAY_FP};
use tick_engine::agent::Agent;
use tick_engine::assigner::assign_and_consume_agents;
use tick_engine::config::{ConfigError, ConfigField, Configs};
use tick_engine::decider::{weighted_decide, weighted_index, AnyDecider};
use tick_engine::engine::{execute_action, Tile};
use tick_engine::game::{
    contains_role, kingdom_game, lottery_game, the_end_game, Game, GameProvider,
    KingdomGameProvider, LotteryGameProvider,
};
use tick_engine::resources::{AnyResource, Resources};
use tick_engine::rng::SimRng;
use tick_engine::roles::{
    AnyParticipationChecker, AnyRole, AnyTransformer, AnyUniqueness, KingdomRole, LotteryRole,
    RoleDescription, RoleEntry,
};

fn rng_agent(id: usize) -> Agent {
    Agent::new(
        Resources::new(),
        vec![AnyAction::Trivial],
        AnyDecider::RngDecider,
        AnyParticipationChecker::TrivialChecker,
        id,
    )
}

#[test]
fn ledger_starts_at_zero() {
    let r = Resources::new();
    assert_eq!(r.get(AnyResource::Coins), 0);
}

#[test]
fn ledger_add_and_spend() {
    let mut r = Resources::new();
    r.add(AnyResource::Coins, 7);
    assert_eq!(r.get(AnyResource::Coins), 7);
    assert!(r.try_subtract(AnyResource::Coins, 3));
    assert_eq!(r.get(AnyResource::Coins), 4);
}

#[test]
fn ledger_refuses_underflow() {
    let mut r = Resources::new();
    r.add(AnyResource::Coins, 5);
    assert!(!r.try_subtract(AnyResource::Coins, 6));
    assert_eq!(r.get(AnyResource::Coins), 5);
    assert!(r.try_subtract(AnyResource::Coins, 5));
    assert_eq!(r.get(AnyResource::Coins), 0);
}

#[test]
fn ledger_add_saturates() {
    let mut r = Resources { coins: u64::MAX - 2 };
    r.add(AnyResource::Coins, 10);
    assert_eq!(r.get(AnyResource::Coins), u64::MAX);
}

#[test]
fn utility_key_values() {
    let zero = Agent::new(
        Resources::new(),
        vec![AnyAction::Trivial],
        AnyDecider::UtilityDecider,
        AnyParticipationChecker::TrivialChecker,
        0,
    );
    assert_eq!(zero.get_utility(), 1);
    let one = Agent::new(
        Resources { coins: 1 },
        vec![AnyAction::Trivial],
        AnyDecider::UtilityDecider,
        AnyParticipationChecker::TrivialChecker,
        0,
    );
    assert_eq!(one.get_utility(), 10);
    let ten = Agent::new(
        Resources { coins: 10 },
        vec![AnyAction::Trivial],
        AnyDecider::UtilityDecider,
        AnyParticipationChecker::TrivialChecker,
        0,
    );
    assert_eq!(ten.get_utility(), 100);
}

#[test]
fn utility_never_drops_when_a_resource_grows() {
    let mut previous = 0u128;
    for coins in 0..200u64 {
        let a = Agent::new(
            Resources { coins },
            vec![AnyAction::Trivial],
            AnyDecider::UtilityDecider,
            AnyParticipationChecker::TrivialChecker,
            0,
        );
        let u = a.get_utility();
        assert!(u >= previous);
        previous = u;
    }
}

#[test]
fn mint_chance_starts_certain_and_decays() {
    assert_eq!(chance_to_mint_gold(0), FP_ONE);
    assert_eq!(chance_to_mint_gold(1), MINT_DECAY_FP);
    assert!(chance_to_mint_gold(2) < chance_to_mint_gold(1));
    assert!(chance_to_mint_gold(100_000) < chance_to_mint_gold(10_000));
}

#[test]
fn transformer_semantics() {
    let mut v = vec![AnyAction::Trivial];
    AnyTransformer::TrivialTransformer.transform(&mut v);
    assert_eq!(v, vec![AnyAction::Trivial]);
    AnyTransformer::AddAction(AnyAction::Work).transform(&mut v);
    assert_eq!(v, vec![AnyAction::Trivial, AnyAction::Work]);
    AnyTransformer::ReplaceAll(AnyAction::PayTax).transform(&mut v);
    assert_eq!(v, vec![AnyAction::PayTax]);
}

#[test]
fn utility_decider_picks_best_and_breaks_ties_first() {
    let mut rng = SimRng::new(0);
    let d = AnyDecider::UtilityDecider;
    let best = d.decide(
        &vec![AnyAction::Trivial, AnyAction::MintFixed(10)],
        Resources::new(),
        &mut rng,
    );
    assert_eq!(best, AnyAction::MintFixed(10));
    // Work and a one-coin grant preview the same utility; the earlier
    // candidate wins the tie.
    let tie = d.decide(
        &vec![AnyAction::Work, AnyAction::MintFixed(1)],
        Resources::new(),
        &mut rng,
    );
    assert_eq!(tie, AnyAction::Work);
}

#[test]
fn rng_decider_returns_a_candidate() {
    let mut rng = SimRng::new(123);
    let d = AnyDecider::RngDecider;
    let candidates = vec![AnyAction::Trivial, AnyAction::Work, AnyAction::PayTax];
    for _ in 0..100 {
        let c = d.decide(&candidates, Resources::new(), &mut rng);
        assert!(candidates.contains(&c));
    }
}

#[test]
fn weighted_zero_never_chosen() {
    for seed in 0..1000u64 {
        let mut rng = SimRng::new(seed);
        let choice = weighted_decide(
            &vec![AnyAction::Work, AnyAction::PayTax],
            &vec![1, 0],
            &mut rng,
        );
        assert_eq!(choice, AnyAction::Work);
    }
}

#[test]
fn weighted_index_reaches_every_positive_slot() {
    let mut rng = SimRng::new(11);
    let weights = vec![1u64, 1u64];
    let mut seen = [false, false];
    for _ in 0..200 {
        let i = weighted_index(&weights, &mut rng);
        seen[i] = true;
    }
    assert!(seen[0] && seen[1]);
}

#[test]
fn draws_stay_below_bound_and_vary() {
    let mut rng = SimRng::new(5);
    let mut distinct = Vec::new();
    for _ in 0..1000 {
        let x = rng.draw_below(100);
        assert!(x < 100);
        if !distinct.contains(&x) {
            distinct.push(x);
        }
    }
    assert!(distinct.len() > 1);
}

#[test]
fn pay_tax_moves_one_percent_to_the_tile() {
    let mut tile = Tile::new(
        vec![Agent::new(
            Resources { coins: 250 },
            vec![AnyAction::Trivial],
            AnyDecider::RngDecider,
            AnyParticipationChecker::TrivialChecker,
            0,
        )],
        Resources::new(),
        vec![],
    );
    let mut rng = SimRng::new(1);
    execute_action(AnyAction::PayTax, &mut tile, 0, &mut rng);
    assert_eq!(tile.agents[0].resources.get(AnyResource::Coins), 248);
    assert_eq!(tile.resources.get(AnyResource::Coins), 2);
}

#[test]
fn lottery_doubles_or_forfeits_to_the_tile() {
    for seed in 0..20u64 {
        let mut tile = Tile::new(
            vec![Agent::new(
                Resources { coins: 40 },
                vec![AnyAction::Trivial],
                AnyDecider::RngDecider,
                AnyParticipationChecker::TrivialChecker,
                0,
            )],
            Resources::new(),
            vec![],
        );
        let mut rng = SimRng::new(seed);
        execute_action(AnyAction::PlayLottery, &mut tile, 0, &mut rng);
        let agent = tile.agents[0].resources.get(AnyResource::Coins);
        let pool = tile.resources.get(AnyResource::Coins);
        assert!((agent == 80 && pool == 0) || (agent == 0 && pool == 40));
    }
}

#[test]
fn first_mint_by_chance_always_succeeds() {
    // With no coins in circulation the mint chance is one.
    let mut tile = Tile::new(vec![rng_agent(0)], Resources::new(), vec![]);
    let mut rng = SimRng::new(7);
    execute_action(AnyAction::MintByChance, &mut tile, 0, &mut rng);
    assert_eq!(tile.agents[0].resources.get(AnyResource::Coins), 10);
}

#[test]
fn assigner_is_greedy_without_backtracking() {
    // An earlier optional role may starve a later required one: the game
    // then fails, and the agents stay consumed.
    let game = Game {
        roles: vec![
            RoleEntry {
                role: AnyRole::KingdomRole(KingdomRole::Peasant),
                description: RoleDescription {
                    uniqueness: AnyUniqueness::OptionalMultipletRole(0, usize::MAX),
                    transformer: AnyTransformer::AddAction(AnyAction::Work),
                },
            },
            RoleEntry {
                role: AnyRole::KingdomRole(KingdomRole::King),
                description: RoleDescription {
                    uniqueness: AnyUniqueness::RequiredMultipletRole(1, 1),
                    transformer: AnyTransformer::AddAction(AnyAction::MintFixed(10)),
                },
            },
        ],
        consequent_game: None,
    };
    let mut available = vec![rng_agent(0), rng_agent(1)];
    let result = assign_and_consume_agents(&game, &mut available);
    assert!(result.is_none());
    assert!(available.is_empty());
}

#[test]
fn assigner_respects_maximum_multiplicity() {
    let game = Game {
        roles: vec![RoleEntry {
            role: AnyRole::LotteryRole(LotteryRole::Player),
            description: RoleDescription {
                uniqueness: AnyUniqueness::RequiredMultipletRole(1, 2),
                transformer: AnyTransformer::AddAction(AnyAction::PlayLottery),
            },
        }],
        consequent_game: None,
    };
    let mut available = vec![rng_agent(0), rng_agent(1), rng_agent(2)];
    let assignment = assign_and_consume_agents(&game, &mut available).unwrap();
    assert_eq!(
        assignment.pairs,
        vec![
            (0, AnyRole::LotteryRole(LotteryRole::Player)),
            (1, AnyRole::LotteryRole(LotteryRole::Player)),
        ]
    );
    assert_eq!(available.len(), 1);
    assert_eq!(available[0].id, 2);
}

#[test]
fn required_minimum_not_met_fails_before_consuming() {
    let game = Game {
        roles: vec![RoleEntry {
            role: AnyRole::KingdomRole(KingdomRole::King),
            description: RoleDescription {
                uniqueness: AnyUniqueness::RequiredMultipletRole(2, 3),
                transformer: AnyTransformer::AddAction(AnyAction::Work),
            },
        }],
        consequent_game: None,
    };
    let mut available = vec![rng_agent(0)];
    assert!(assign_and_consume_agents(&game, &mut available).is_none());
    // The failing role was the first: nothing was consumed yet.
    assert_eq!(available.len(), 1);
}

#[test]
fn provider_games_cover_their_role_families() {
    let kingdom = kingdom_game();
    assert_eq!(kingdom.roles.len(), 2);
    assert!(kingdom.consequent_game.is_some());
    assert!(KingdomGameProvider
        .check_if_all_roles_are_described(&kingdom.roles)
        .is_ok());
    assert_eq!(
        KingdomGameProvider.check_if_all_roles_are_described(&vec![]),
        Err(AnyRole::KingdomRole(KingdomRole::King))
    );
    let lottery = lottery_game();
    assert!(LotteryGameProvider
        .check_if_all_roles_are_described(&lottery.roles)
        .is_ok());
    assert_eq!(KingdomGameProvider.provide_game().roles.len(), 2);
    assert_eq!(LotteryGameProvider.provide_game().roles.len(), 1);
}

#[test]
fn role_lookup_in_declarations() {
    let end = the_end_game();
    assert!(contains_role(
        &end.roles,
        AnyRole::TheEndRole(tick_engine::roles::TheEndRole::Anyone)
    ));
    assert!(!contains_role(
        &end.roles,
        AnyRole::KingdomRole(KingdomRole::King)
    ));
}

#[test]
fn well_formedness_check_matches_structure() {
    assert!(kingdom_game().is_well_formed());
    assert!(lottery_game().is_well_formed());
    let duplicate_roles = Game {
        roles: vec![
            RoleEntry {
                role: AnyRole::KingdomRole(KingdomRole::King),
                description: RoleDescription {
                    uniqueness: AnyUniqueness::RequiredMultipletRole(1, 1),
                    transformer: AnyTransformer::TrivialTransformer,
                },
            },
            RoleEntry {
                role: AnyRole::KingdomRole(KingdomRole::King),
                description: RoleDescription {
                    uniqueness: AnyUniqueness::RequiredMultipletRole(1, 1),
                    transformer: AnyTransformer::TrivialTransformer,
                },
            },
        ],
        consequent_game: None,
    };
    assert!(!duplicate_roles.is_well_formed());
    let unreachable_bounds = Game {
        roles: vec![RoleEntry {
            role: AnyRole::KingdomRole(KingdomRole::King),
            description: RoleDescription {
                uniqueness: AnyUniqueness::RequiredMultipletRole(3, 2),
                transformer: AnyTransformer::TrivialTransformer,
            },
        }],
        consequent_game: None,
    };
    assert!(!unreachable_bounds.is_well_formed());
    let bad_consequent = Game {
        roles: vec![],
        consequent_game: Some(Box::new(unreachable_bounds)),
    };
    assert!(!bad_consequent.is_well_formed());
}

#[test]
fn zero_delay_wrapping_is_the_game_itself() {
    let g = the_end_game();
    let wrapped = Game::create_delayed_consequent_game(0, the_end_game());
    assert_eq!(wrapped.roles, g.roles);
    assert!(wrapped.consequent_game.is_none());
}

#[test]
fn config_reports_first_missing_field() {
    assert_eq!(
        Configs::from_fields(None, None, None, None, None),
        Err(ConfigError::MissingField(ConfigField::PlotGraph))
    );
    assert_eq!(
        Configs::from_fields(Some(true), None, None, None, None),
        Err(ConfigError::MissingField(
            ConfigField::PlottingFrameSubselectionFactor
        ))
    );
    assert_eq!(
        Configs::from_fields(Some(true), Some(2), None, None, None),
        Err(ConfigError::MissingField(ConfigField::TickCount))
    );
    assert_eq!(
        Configs::from_fields(Some(true), Some(2), Some(5), None, None),
        Err(ConfigError::MissingField(ConfigField::AgentCount))
    );
    assert_eq!(
        Configs::from_fields(Some(true), Some(2), Some(5), Some(4), None),
        Err(ConfigError::MissingField(ConfigField::Seed))
    );
}

#[test]
fn config_rejects_unusable_values() {
    assert_eq!(
        Configs::from_fields(Some(true), Some(0), Some(5), Some(4), Some(1)),
        Err(ConfigError::InvalidField(
            ConfigField::PlottingFrameSubselectionFactor
        ))
    );
    assert_eq!(
        Configs::from_fields(Some(true), Some(1), Some(-5), Some(4), Some(1)),
        Err(ConfigError::InvalidField(ConfigField::TickCount))
    );
    assert_eq!(
        Configs::from_fields(Some(true), Some(1), Some(5), Some(-1), Some(1)),
        Err(ConfigError::InvalidField(ConfigField::AgentCount))
    );
    assert_eq!(
        Configs::from_fields(Some(true), Some(1), Some(5), Some(4), Some(-3)),
        Err(ConfigError::InvalidField(ConfigField::Seed))
    );
}

#[test]
fn config_accepts_complete_fields() {
    let c = Configs::from_fields(Some(false), Some(10), Some(1000), Some(25), Some(99)).unwrap();
    assert_eq!(c.plot_graph, false);
    assert_eq!(c.plotting_frame_subselection_factor, 10);
    assert_eq!(c.tick_count, 1000);
    assert_eq!(c.agent_count, 25);
    assert_eq!(c.seed, 99);
}
