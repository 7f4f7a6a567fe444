//! End-to-end scenarios: whole runs and single ticks.

use tick_engine::actions::AnyAction;
use tick_engine::agent::Agent;
use tick_engine::config::Configs;
use tick_engine::decider::AnyDecider;
use tick_engine::engine::{run_simulation, run_tick, Tile};
use tick_engine::game::Game;
use tick_engine::resources::{AnyResource, Resources};
use tick_engine::rng::SimRng;
use tick_engine::roles::{
    AnyParticipationChecker, AnyRole, AnyTransformer, AnyUniqueness, KingdomRole, RoleDescription,
    RoleEntry, TheEndRole,
};

fn utility_agent(id: usize) -> Agent {
    Agent::new(
        Resources::new(),
        vec![AnyAction::Trivial],
        AnyDecider::UtilityDecider,
        AnyParticipationChecker::TrivialChecker,
        id,
    )
}

fn tile_with(agents: Vec<Agent>) -> Tile {
    Tile::new(agents, Resources::new(), vec![])
}

/// A kingdom-flavoured game whose king role grants a fixed number of
/// coins, so a utility-driven decider behaves deterministically.
fn fixed_mint_game() -> Game {
    Game {
        roles: vec![
            RoleEntry {
                role: AnyRole::KingdomRole(KingdomRole::King),
                description: RoleDescription {
                    uniqueness: AnyUniqueness::RequiredMultipletRole(1, 1),
                    transformer: AnyTransformer::AddAction(AnyAction::MintFixed(10)),
                },
            },
            RoleEntry {
                role: AnyRole::KingdomRole(KingdomRole::Peasant),
                description: RoleDescription {
                    uniqueness: AnyUniqueness::OptionalMultipletRole(0, usize::MAX),
                    transformer: AnyTransformer::AddAction(AnyAction::Work),
                },
            },
        ],
        consequent_game: None,
    }
}

fn grant_five_game() -> Game {
    Game {
        roles: vec![RoleEntry {
            role: AnyRole::TheEndRole(TheEndRole::Anyone),
            description: RoleDescription {
                uniqueness: AnyUniqueness::RequiredMultipletRole(1, usize::MAX),
                transformer: AnyTransformer::ReplaceAll(AnyAction::MintFixed(5)),
            },
        }],
        consequent_game: None,
    }
}

#[test]
fn determinism_same_seed() {
    let configs = Configs {
        plot_graph: false,
        plotting_frame_subselection_factor: 1,
        tick_count: 60,
        agent_count: 20,
        seed: 42,
    };
    let first = run_simulation(&configs);
    let second = run_simulation(&configs);
    assert_eq!(first, second);
    let total: u64 = first
        .agents
        .iter()
        .map(|a| a.resources.get(AnyResource::Coins))
        .sum::<u64>()
        + first.resources.get(AnyResource::Coins);
    assert!(total > 0);
}

#[test]
fn run_preserves_roster_identity() {
    let configs = Configs {
        plot_graph: false,
        plotting_frame_subselection_factor: 1,
        tick_count: 10,
        agent_count: 7,
        seed: 3,
    };
    let tile = run_simulation(&configs);
    assert_eq!(tile.agents.len(), 7);
    for (i, a) in tile.agents.iter().enumerate() {
        assert_eq!(a.id, i);
        assert_eq!(a.base_actions, vec![AnyAction::Trivial]);
    }
    assert_eq!(tile.reputations.len(), 7);
    for row in &tile.reputations {
        assert_eq!(row, &vec![1u64; 7]);
    }
}

#[test]
fn king_and_peasant_both_earn() {
    let mut tile = tile_with(vec![utility_agent(0), utility_agent(1)]);
    let mut games = vec![fixed_mint_game()];
    let mut rng = SimRng::new(1);
    let played = run_tick(&mut tile, &mut games, &mut rng);
    assert_eq!(played.len(), 1);
    assert_eq!(played[0].assignment.pairs.len(), 2);
    assert_eq!(
        played[0].assignment.pairs[0],
        (0, AnyRole::KingdomRole(KingdomRole::King))
    );
    assert_eq!(
        played[0].assignment.pairs[1],
        (1, AnyRole::KingdomRole(KingdomRole::Peasant))
    );
    assert_eq!(tile.agents[0].resources.get(AnyResource::Coins), 10);
    assert_eq!(tile.agents[1].resources.get(AnyResource::Coins), 1);
    assert!(games.is_empty());
}

#[test]
fn lone_agent_fills_only_the_king() {
    let mut tile = tile_with(vec![utility_agent(0)]);
    let mut games = vec![fixed_mint_game()];
    let mut rng = SimRng::new(1);
    let played = run_tick(&mut tile, &mut games, &mut rng);
    assert_eq!(played.len(), 1);
    assert_eq!(
        played[0].assignment.pairs,
        vec![(0, AnyRole::KingdomRole(KingdomRole::King))]
    );
    assert_eq!(tile.agents[0].resources.get(AnyResource::Coins), 10);
}

#[test]
fn no_agents_means_no_play_and_no_mutation() {
    let mut tile = tile_with(vec![]);
    let mut games = vec![fixed_mint_game()];
    let mut rng = SimRng::new(1);
    let played = run_tick(&mut tile, &mut games, &mut rng);
    assert!(played.is_empty());
    assert_eq!(tile.resources.get(AnyResource::Coins), 0);
    assert!(tile.agents.is_empty());
    assert!(games.is_empty());
}

#[test]
fn delayed_consequent_arrives_after_exactly_three_ticks() {
    let mut tile = tile_with(vec![utility_agent(0)]);
    let mut games = vec![Game::create_delayed_consequent_game(3, grant_five_game())];
    let mut rng = SimRng::new(9);
    for _tick in 0..3 {
        run_tick(&mut tile, &mut games, &mut rng);
        assert_eq!(tile.agents[0].resources.get(AnyResource::Coins), 0);
        assert_eq!(games.len(), 1);
    }
    run_tick(&mut tile, &mut games, &mut rng);
    assert_eq!(tile.agents[0].resources.get(AnyResource::Coins), 5);
    assert!(games.is_empty());
}

#[test]
fn unplayed_game_propagates_no_consequent() {
    let mut tile = tile_with(vec![]);
    let mut games = vec![Game {
        roles: fixed_mint_game().roles,
        consequent_game: Some(Box::new(grant_five_game())),
    }];
    let mut rng = SimRng::new(2);
    let played = run_tick(&mut tile, &mut games, &mut rng);
    assert!(played.is_empty());
    assert!(games.is_empty());
}

#[test]
fn every_pool_game_plays_when_agents_abound() {
    let agents: Vec<Agent> = (0..10).map(utility_agent).collect();
    let mut tile = tile_with(agents);
    let single_grant = || Game {
        roles: vec![RoleEntry {
            role: AnyRole::TheEndRole(TheEndRole::Anyone),
            description: RoleDescription {
                uniqueness: AnyUniqueness::RequiredMultipletRole(1, 1),
                transformer: AnyTransformer::ReplaceAll(AnyAction::MintFixed(5)),
            },
        }],
        consequent_game: None,
    };
    let mut games: Vec<Game> = (0..5).map(|_| single_grant()).collect();
    let mut rng = SimRng::new(77);
    let played = run_tick(&mut tile, &mut games, &mut rng);
    // The shuffled pool keeps all five games, and with ten agents for
    // five one-slot games every game is played.
    assert_eq!(played.len(), 5);
    let total: u64 = tile
        .agents
        .iter()
        .map(|a| a.resources.get(AnyResource::Coins))
        .sum();
    assert_eq!(total, 25);
}

#[test]
fn no_agent_assigned_twice_in_a_tick() {
    let agents: Vec<Agent> = (0..6).map(utility_agent).collect();
    let mut tile = tile_with(agents);
    // Two games with single-slot required roles: each consumes one agent.
    let one_slot = |_i: usize| Game {
        roles: vec![RoleEntry {
            role: AnyRole::KingdomRole(KingdomRole::King),
            description: RoleDescription {
                uniqueness: AnyUniqueness::RequiredMultipletRole(1, 1),
                transformer: AnyTransformer::AddAction(AnyAction::Work),
            },
        }],
        consequent_game: None,
    };
    let mut games: Vec<Game> = (0..4).map(one_slot).collect();
    let mut rng = SimRng::new(5);
    let played = run_tick(&mut tile, &mut games, &mut rng);
    assert_eq!(played.len(), 4);
    let mut seen = Vec::new();
    for pg in &played {
        for (id, _role) in &pg.assignment.pairs {
            assert!(!seen.contains(id));
            seen.push(*id);
        }
    }
    assert_eq!(seen.len(), 4);
}
