//! The shared tile and the per-tick execution of played games.
//!
//! The tile holds the whole mutable world of a run: the agent roster, the
//! shared commons ledger, and the reputation matrix.  Playing a game runs
//! Transformer, Decider and Action for every assigned agent, iterating the
//! assigned agents by increasing agent id whatever order they were matched
//! in, so the draw order is fixed.

use vstd::prelude::*;
use crate::actions::{execute_scoped, spec_execute_outcome, AnyAction};
use crate::agent::{Agent, AgentID};
use crate::assigner::Assignment;
use crate::game::{spec_has_role, Game};
use crate::resources::{sat_add_u64, Resources};
use crate::rng::SimRng;
use crate::roles::{spec_transform, AnyRole, RoleDescription, RoleEntry};

verus! {

/// Knobs of roster initialization.
pub struct Params {
    pub num_of_agents: usize,
}

/// The shared state of one run: every agent, the commons ledger, and the
/// agent-by-agent reputation matrix.
#[derive(Debug, PartialEq, Eq)]
pub struct Tile {
    pub agents: Vec<Agent>,
    pub resources: Resources,
    pub reputations: Vec<Vec<u64>>,
}

impl Tile {
    /// A well-formed tile: each agent's id is its position in the roster,
    /// so ids are unique and index the roster directly.
    pub open spec fn wf(self) -> bool {
        forall|i: int| 0 <= i < self.agents@.len() ==> (#[trigger] self.agents@[i]).id == i
    }

    /// A tile over the given roster and commons.  The ledger type holds a
    /// zero-initialized slot for every resource kind by construction.
    pub fn new(agents: Vec<Agent>, resources: Resources, reputations: Vec<Vec<u64>>) -> (t: Tile)
        ensures
            t.agents == agents,
            t.resources == resources,
            t.reputations == reputations,
    {
        Tile { agents, resources, reputations }
    }
}

/// The roster's coins, summed left to right with saturation.
pub open spec fn spec_agents_coins(agents: Seq<Agent>) -> u64
    decreases agents.len(),
{
    if agents.len() == 0 {
        0
    } else {
        sat_add_u64(spec_agents_coins(agents.drop_last()), agents.last().resources.coins)
    }
}

/// All coins in circulation: every agent's plus the commons'.
pub open spec fn spec_total_coins(agents: Seq<Agent>, tile_res: Resources) -> u64 {
    sat_add_u64(spec_agents_coins(agents), tile_res.coins)
}

/// Computes the coins in circulation.
pub fn total_coins(tile: &Tile) -> (t: u64)
    ensures
        t == spec_total_coins(tile.agents@, tile.resources),
{
    let mut acc: u64 = 0;
    let mut i: usize = 0;
    while i < tile.agents.len()
        invariant
            0 <= i <= tile.agents@.len(),
            acc == spec_agents_coins(tile.agents@.subrange(0, i as int)),
        decreases tile.agents@.len() - i,
    {
        let c = tile.agents[i].resources.coins;
        proof {
            assert(tile.agents@.subrange(0, i + 1).drop_last() =~= tile.agents@.subrange(
                0,
                i as int,
            ));
            assert(tile.agents@.subrange(0, i + 1).last() == tile.agents@[i as int]);
        }
        acc = if acc > u64::MAX - c {
            u64::MAX
        } else {
            acc + c
        };
        i = i + 1;
    }
    proof {
        assert(tile.agents@.subrange(0, tile.agents@.len() as int) =~= tile.agents@);
    }
    let t = tile.resources.coins;
    if acc > u64::MAX - t {
        u64::MAX
    } else {
        acc + t
    }
}

/// Everything of the two rosters but the ledgers agrees: same length, and
/// agent by agent the same id, repertoire and policies.  Ticks mutate only
/// ledgers, never identities.
pub open spec fn roster_shape_eq(a: Seq<Agent>, b: Seq<Agent>) -> bool {
    a.len() == b.len() && forall|i: int|
        0 <= i < a.len() ==> ((#[trigger] a[i]).id == b[i].id && a[i].base_actions@
            == b[i].base_actions@ && a[i].decider == b[i].decider && a[i].participation_checker
            == b[i].participation_checker)
}

/// `a` with only its ledger replaced.
pub open spec fn spec_with_resources(a: Agent, r: Resources) -> Agent {
    Agent {
        resources: r,
        base_actions: a.base_actions,
        decider: a.decider,
        participation_checker: a.participation_checker,
        id: a.id,
    }
}

/// Writes one agent's ledger back into the roster, leaving all else as is.
fn set_agent_resources(tile: &mut Tile, i: usize, res: Resources)
    requires
        i < old(tile).agents@.len(),
    ensures
        final(tile).agents@ == old(tile).agents@.update(
            i as int,
            spec_with_resources(old(tile).agents@[i as int], res),
        ),
        final(tile).resources == old(tile).resources,
        final(tile).reputations == old(tile).reputations,
{
    let a = &mut tile.agents[i];
    a.resources = res;
}

/// Executes one action effect on the tile, for the acting agent.  Exactly
/// the scoped outcome of the action on the acting agent's ledger and the
/// commons ledger; every other agent, the identities, and the reputation
/// matrix stay untouched.
pub fn execute_action(action: AnyAction, tile: &mut Tile, agent_id: usize, rng: &mut SimRng)
    requires
        agent_id < old(tile).agents@.len(),
    ensures
        final(tile).agents@.len() == old(tile).agents@.len(),
        roster_shape_eq(final(tile).agents@, old(tile).agents@),
        forall|j: int|
            0 <= j < old(tile).agents@.len() && j != agent_id ==> final(tile).agents@[j] == old(
                tile,
            ).agents@[j],
        final(tile).agents@ == old(tile).agents@.update(
            agent_id as int,
            spec_with_resources(
                old(tile).agents@[agent_id as int],
                final(tile).agents@[agent_id as int].resources,
            ),
        ),
        spec_execute_outcome(
            action,
            old(tile).agents@[agent_id as int].resources,
            old(tile).resources,
            final(tile).agents@[agent_id as int].resources,
            final(tile).resources,
        ),
        action == AnyAction::MintByChance && crate::actions::spec_mint_chance(
            spec_total_coins(old(tile).agents@, old(tile).resources),
        ) == crate::actions::FP_ONE as int ==> final(tile).agents@[
            agent_id as int
        ].resources == crate::actions::spec_preview(
            action,
            old(tile).agents@[agent_id as int].resources,
        ),
        action == AnyAction::MintByChance && crate::actions::spec_mint_chance(
            spec_total_coins(old(tile).agents@, old(tile).resources),
        ) == 0 ==> final(tile).agents@[agent_id as int].resources == old(tile).agents@[
            agent_id as int
        ].resources,
        final(tile).reputations == old(tile).reputations,
{
    let total = total_coins(tile);
    let mut agent_res = tile.agents[agent_id].resources;
    let mut tile_res = tile.resources;
    execute_scoped(action, &mut agent_res, &mut tile_res, total, rng);
    set_agent_resources(tile, agent_id, agent_res);
    tile.resources = tile_res;
}

/// `j` is one of the assigned agent ids.
pub open spec fn spec_pair_ids_contain(pairs: Seq<(AgentID, AnyRole)>, j: int) -> bool {
    exists|i: int| 0 <= i < pairs.len() && (#[trigger] pairs[i]).0 == j
}

proof fn lemma_seq_insert_multiset<T>(s: Seq<T>, k: int, x: T)
    requires
        0 <= k <= s.len(),
    ensures
        s.insert(k, x).to_multiset() =~= s.to_multiset().insert(x),
{
    broadcast use vstd::seq_lib::group_to_multiset_ensures;

    let s2 = s.insert(k, x);
    assert(s2[k] == x);
    assert(s2.remove(k) =~= s);
    assert(s2.remove(k).to_multiset() =~= s2.to_multiset().remove(x));
    assert(s2.contains(x));
    assert(s2.to_multiset().count(x) > 0);
    assert forall|y: T|
        #[trigger] s2.to_multiset().count(y) == s.to_multiset().insert(x).count(y) by {
        if y == x {
            assert(s.to_multiset().count(x) == s2.to_multiset().remove(x).count(x));
        } else {
            assert(s.to_multiset().count(y) == s2.to_multiset().remove(x).count(y));
        }
    }
}

/// The assigned pairs reordered by increasing agent id.  Requires the ids
/// to be pairwise distinct, as every assignment's are.
fn sort_pairs(pairs: &Vec<(AgentID, AnyRole)>) -> (out: Vec<(AgentID, AnyRole)>)
    requires
        forall|i: int, j: int|
            0 <= i < j < pairs@.len() ==> (#[trigger] pairs@[i]).0 != (#[trigger] pairs@[j]).0,
    ensures
        out@.to_multiset() == pairs@.to_multiset(),
        out@.len() == pairs@.len(),
        forall|p: (AgentID, AnyRole)| out@.contains(p) <==> pairs@.contains(p),
        forall|i: int, j: int| 0 <= i < j < out@.len() ==> out@[i].0 < out@[j].0,
{
    broadcast use vstd::seq_lib::group_to_multiset_ensures;

    let mut out: Vec<(AgentID, AnyRole)> = Vec::new();
    let mut i: usize = 0;
    proof {
        assert(pairs@.subrange(0, 0) =~= Seq::<(AgentID, AnyRole)>::empty());
        assert(out@.to_multiset() =~= pairs@.subrange(0, 0).to_multiset());
    }
    while i < pairs.len()
        invariant
            0 <= i <= pairs@.len(),
            out@.len() == i,
            out@.to_multiset() == pairs@.subrange(0, i as int).to_multiset(),
            forall|i2: int, j2: int|
                0 <= i2 < j2 < pairs@.len() ==> (#[trigger] pairs@[i2]).0 != (
                #[trigger] pairs@[j2]).0,
            forall|i2: int, j2: int| 0 <= i2 < j2 < out@.len() ==> out@[i2].0 < out@[j2].0,
        decreases pairs@.len() - i,
    {
        broadcast use vstd::seq_lib::group_to_multiset_ensures;

        let p = pairs[i];
        let ghost prefix = pairs@.subrange(0, i as int);
        proof {
            assert(pairs@.subrange(0, i + 1).drop_last() =~= prefix);
            assert(pairs@.subrange(0, i + 1).last() == p);
            assert(pairs@.subrange(0, i + 1) =~= prefix.push(p));
            assert(prefix.push(p).to_multiset() =~= prefix.to_multiset().insert(p));
            // The fresh id differs from every id already placed: placed
            // pairs are pairs of the strict prefix.
            assert forall|j2: int| 0 <= j2 < out@.len() implies (#[trigger] out@[j2]).0 != p.0 by {
                assert(out@.contains(out@[j2]));
                assert(out@.to_multiset().count(out@[j2]) > 0);
                assert(prefix.contains(out@[j2]));
                let k0 = choose|k0: int| 0 <= k0 < prefix.len() && prefix[k0] == out@[j2];
                assert(pairs@[k0] == out@[j2]);
            }
        }
        // Find the insertion slot: the first placed pair of larger id.
        let mut k: usize = 0;
        while k < out.len() && out[k].0 < p.0
            invariant
                0 <= k <= out@.len(),
                forall|j2: int| 0 <= j2 < k ==> (#[trigger] out@[j2]).0 < p.0,
            decreases out@.len() - k,
        {
            k = k + 1;
        }
        let ghost out_pre = out@;
        out.insert(k, p);
        proof {
            assert(out@ == out_pre.insert(k as int, p));
            lemma_seq_insert_multiset(out_pre, k as int, p);
            assert forall|i2: int, j2: int|
                0 <= i2 < j2 < out@.len() implies out@[i2].0 < out@[j2].0 by {
                if j2 < k {
                } else if i2 > k {
                } else if i2 == k && j2 > k {
                    assert(out@[j2] == out_pre[j2 - 1]);
                    assert(out_pre[j2 - 1].0 != p.0);
                    assert(!(out_pre[j2 - 1].0 < p.0));
                } else if j2 == k {
                    assert(out@[i2] == out_pre[i2]);
                } else {
                    // i2 < k < j2
                    assert(out@[i2] == out_pre[i2]);
                    assert(out@[j2] == out_pre[j2 - 1]);
                    assert(out_pre[i2].0 < p.0);
                    assert(!(out_pre[j2 - 1].0 < p.0));
                    assert(out_pre[j2 - 1].0 != p.0);
                }
            }
        }
        i = i + 1;
    }
    proof {
        assert(pairs@.subrange(0, pairs@.len() as int) =~= pairs@);
        assert forall|p: (AgentID, AnyRole)|
            #[trigger] out@.contains(p) <==> pairs@.contains(p) by {
            assert(out@.contains(p) <==> out@.to_multiset().count(p) > 0);
            assert(pairs@.contains(p) <==> pairs@.to_multiset().count(p) > 0);
        }
    }
    out
}

/// Looks up the description of a declared role (the first declaration,
/// which is the only one in a well-formed game).
pub open spec fn spec_find_role(roles: Seq<RoleEntry>, r: AnyRole) -> RoleDescription
    decreases roles.len(),
{
    if roles.len() == 0 {
        arbitrary()
    } else if roles[0].role == r {
        roles[0].description
    } else {
        spec_find_role(roles.drop_first(), r)
    }
}

/// Finds the description declared for role `r`.
fn find_role_description(roles: &Vec<RoleEntry>, r: AnyRole) -> (d: RoleDescription)
    requires
        spec_has_role(roles@, r),
    ensures
        d == spec_find_role(roles@, r),
{
    let mut i: usize = 0;
    proof {
        assert(roles@.skip(0) =~= roles@);
    }
    while i < roles.len()
        invariant
            0 <= i <= roles@.len(),
            spec_has_role(roles@, r),
            forall|j: int| 0 <= j < i ==> (#[trigger] roles@[j]).role != r,
            spec_find_role(roles@, r) == spec_find_role(roles@.skip(i as int), r),
        decreases roles@.len() - i,
    {
        proof {
            assert(roles@.skip(i as int)[0] == roles@[i as int]);
            assert(roles@.skip(i as int).drop_first() =~= roles@.skip(i as int + 1));
        }
        if roles[i].role == r {
            return roles[i].description;
        }
        i = i + 1;
    }
    proof {
        let w = choose|w: int| 0 <= w < roles@.len() && roles@[w].role == r;
        assert(false);
    }
    unreached()
}

/// The transient action set of one assigned agent: the id, and the base
/// repertoire of that agent transformed by its role.
pub open spec fn spec_transient_actions(
    roles: Seq<RoleEntry>,
    agents: Seq<Agent>,
    pair: (AgentID, AnyRole),
) -> Seq<AnyAction> {
    spec_transform(spec_find_role(roles, pair.1).transformer, agents[pair.0 as int].base_actions@)
}

/// One assigned agent's turn, relating the ledgers before it to the
/// ledgers after it: some candidate of the agent's transient action set —
/// exactly the previewed-utility argmax whenever the agent's policy is the
/// lookahead — was executed on the current ledgers, under some draw.  At
/// the chance extremes the probabilistic mint is moreover pinned: it
/// succeeds when its chance at the in-state ledgers is one, and does
/// nothing when that chance is zero.  The policy decides over `snap`, the
/// roster snapshot taken when the game started, while the effect lands on
/// the current ledgers.
pub open spec fn spec_turn(
    roles: Seq<RoleEntry>,
    snap: Seq<Agent>,
    p: (AgentID, AnyRole),
    agents_in: Seq<Agent>,
    tile_in: Resources,
    agents_out: Seq<Agent>,
    tile_out: Resources,
) -> bool {
    let cands = spec_transient_actions(roles, snap, p);
    let id = p.0 as int;
    agents_out == agents_in.update(
        id,
        spec_with_resources(agents_in[id], agents_out[id].resources),
    ) && exists|c: AnyAction|
        #![trigger spec_execute_outcome(c, agents_in[id].resources, tile_in, agents_out[id].resources, tile_out)]
        cands.contains(c) && (snap[id].decider == crate::decider::AnyDecider::UtilityDecider
            ==> c == cands[crate::decider::spec_utility_choice(cands, snap[id].resources)])
            && spec_execute_outcome(
            c,
            agents_in[id].resources,
            tile_in,
            agents_out[id].resources,
            tile_out,
        ) && (c == AnyAction::MintByChance && crate::actions::spec_mint_chance(
            spec_total_coins(agents_in, tile_in),
        ) == crate::actions::FP_ONE as int ==> agents_out[id].resources
            == crate::actions::spec_preview(c, agents_in[id].resources)) && (c
            == AnyAction::MintByChance && crate::actions::spec_mint_chance(
            spec_total_coins(agents_in, tile_in),
        ) == 0 ==> agents_out[id].resources == agents_in[id].resources)
}

/// The play relation of one game: the listed agents took their turns in
/// list order, each turn as `spec_turn` describes it.
pub open spec fn spec_play(
    roles: Seq<RoleEntry>,
    snap: Seq<Agent>,
    pairs: Seq<(AgentID, AnyRole)>,
    agents_in: Seq<Agent>,
    tile_in: Resources,
    agents_out: Seq<Agent>,
    tile_out: Resources,
) -> bool
    decreases pairs.len(),
{
    if pairs.len() == 0 {
        agents_out == agents_in && tile_out == tile_in
    } else {
        exists|a_mid: Seq<Agent>, t_mid: Resources|
            #![trigger spec_turn(roles, snap, pairs[0], agents_in, tile_in, a_mid, t_mid)]
            spec_turn(roles, snap, pairs[0], agents_in, tile_in, a_mid, t_mid) && spec_play(
                roles,
                snap,
                pairs.drop_first(),
                a_mid,
                t_mid,
                agents_out,
                tile_out,
            )
    }
}

/// Extends a play relation by one further turn.
proof fn lemma_play_snoc(
    roles: Seq<RoleEntry>,
    snap: Seq<Agent>,
    pairs: Seq<(AgentID, AnyRole)>,
    p: (AgentID, AnyRole),
    a0: Seq<Agent>,
    t0: Resources,
    a1: Seq<Agent>,
    t1: Resources,
    a2: Seq<Agent>,
    t2: Resources,
)
    requires
        spec_play(roles, snap, pairs, a0, t0, a1, t1),
        spec_turn(roles, snap, p, a1, t1, a2, t2),
    ensures
        spec_play(roles, snap, pairs.push(p), a0, t0, a2, t2),
    decreases pairs.len(),
{
    if pairs.len() == 0 {
        assert(pairs.push(p)[0] == p);
        assert(pairs.push(p).drop_first() =~= pairs);
        assert(spec_turn(roles, snap, p, a0, t0, a2, t2));
        assert(spec_play(roles, snap, pairs.push(p).drop_first(), a2, t2, a2, t2));
    } else {
        assert(exists|am: Seq<Agent>, tm: Resources|
            #![trigger spec_turn(roles, snap, pairs[0], a0, t0, am, tm)]
            spec_turn(roles, snap, pairs[0], a0, t0, am, tm) && spec_play(
                roles,
                snap,
                pairs.drop_first(),
                am,
                tm,
                a1,
                t1,
            ));
        let (am, tm) = choose|am: Seq<Agent>, tm: Resources|
            #![trigger spec_turn(roles, snap, pairs[0], a0, t0, am, tm)]
            spec_turn(roles, snap, pairs[0], a0, t0, am, tm) && spec_play(
                roles,
                snap,
                pairs.drop_first(),
                am,
                tm,
                a1,
                t1,
            );
        lemma_play_snoc(roles, snap, pairs.drop_first(), p, am, tm, a1, t1, a2, t2);
        assert(pairs.push(p)[0] == pairs[0]);
        assert(pairs.push(p).drop_first() =~= pairs.drop_first().push(p));
        assert(spec_turn(roles, snap, pairs.push(p)[0], a0, t0, am, tm));
    }
}

impl Game {
    /// Builds every assigned agent's transient action set: a copy of its
    /// base repertoire edited by its role's transformer.  Base repertoires
    /// themselves are never written.
    pub fn prepare_actions(
        &self,
        assigned_roles: &Assignment,
        ordered_agents: &Vec<Agent>,
    ) -> (out: Vec<(AgentID, Vec<AnyAction>)>)
        requires
            forall|i: int|
                0 <= i < assigned_roles.pairs@.len() ==> (#[trigger] assigned_roles.pairs@[
                i]).0 < ordered_agents@.len(),
            forall|i: int|
                0 <= i < assigned_roles.pairs@.len() ==> spec_has_role(
                    self.roles@,
                    (#[trigger] assigned_roles.pairs@[i]).1,
                ),
        ensures
            out@.len() == assigned_roles.pairs@.len(),
            forall|i: int|
                0 <= i < out@.len() ==> (#[trigger] out@[i]).0 == assigned_roles.pairs@[i].0
                    && out@[i].1@ == spec_transient_actions(
                    self.roles@,
                    ordered_agents@,
                    assigned_roles.pairs@[i],
                ),
    {
        let mut out: Vec<(AgentID, Vec<AnyAction>)> = Vec::new();
        let mut i: usize = 0;
        while i < assigned_roles.pairs.len()
            invariant
                0 <= i <= assigned_roles.pairs@.len(),
                out@.len() == i,
                forall|i2: int|
                    0 <= i2 < assigned_roles.pairs@.len() ==> (#[trigger] assigned_roles.pairs@[
                    i2]).0 < ordered_agents@.len(),
                forall|i2: int|
                    0 <= i2 < assigned_roles.pairs@.len() ==> spec_has_role(
                        self.roles@,
                        (#[trigger] assigned_roles.pairs@[i2]).1,
                    ),
                forall|i2: int|
                    0 <= i2 < i ==> (#[trigger] out@[i2]).0 == assigned_roles.pairs@[i2].0
                        && out@[i2].1@ == spec_transient_actions(
                        self.roles@,
                        ordered_agents@,
                        assigned_roles.pairs@[i2],
                    ),
            decreases assigned_roles.pairs@.len() - i,
        {
            let (id, role) = assigned_roles.pairs[i];
            let description = find_role_description(&self.roles, role);
            let mut actions = crate::agent::copy_actions(&ordered_agents[id].base_actions);
            description.transformer.transform(&mut actions);
            out.push((id, actions));
            i = i + 1;
        }
        out
    }

    /// Plays this game for one assignment: builds every assigned agent's
    /// transient action set from the current state, then, iterating the
    /// assigned agents by increasing agent id, lets each agent's policy
    /// choose one action (over the snapshot taken before any of this
    /// game's effects) and applies the chosen effect to the tile.  Agents
    /// the assignment does not name are untouched, and no identity,
    /// repertoire, policy or reputation changes.
    pub fn prepare_and_execute_actions(
        &self,
        tile: &mut Tile,
        assigned_roles: &Assignment,
        rng: &mut SimRng,
    )
        requires
            forall|i: int, j: int|
                0 <= i < j < assigned_roles.pairs@.len() ==> (#[trigger] assigned_roles.pairs@[
                i]).0 != (#[trigger] assigned_roles.pairs@[j]).0,
            forall|i: int|
                0 <= i < assigned_roles.pairs@.len() ==> (#[trigger] assigned_roles.pairs@[
                i]).0 < old(tile).agents@.len(),
            forall|i: int|
                0 <= i < assigned_roles.pairs@.len() ==> spec_has_role(
                    self.roles@,
                    (#[trigger] assigned_roles.pairs@[i]).1,
                ),
            forall|i: int|
                0 <= i < assigned_roles.pairs@.len() ==> spec_transient_actions(
                    self.roles@,
                    old(tile).agents@,
                    #[trigger] assigned_roles.pairs@[i],
                ).len() > 0,
        ensures
            final(tile).agents@.len() == old(tile).agents@.len(),
            roster_shape_eq(final(tile).agents@, old(tile).agents@),
            final(tile).reputations == old(tile).reputations,
            forall|j: int|
                0 <= j < old(tile).agents@.len() && !spec_pair_ids_contain(
                    assigned_roles.pairs@,
                    j,
                ) ==> final(tile).agents@[j] == old(tile).agents@[j],
            exists|sorted: Seq<(AgentID, AnyRole)>|
                #![trigger spec_play(self.roles@, old(tile).agents@, sorted, old(tile).agents@, old(tile).resources, final(tile).agents@, final(tile).resources)]
                sorted.to_multiset() == assigned_roles.pairs@.to_multiset() && (forall|
                    i: int,
                    j: int,
                |
                    0 <= i < j < sorted.len() ==> sorted[i].0 < sorted[j].0) && spec_play(
                    self.roles@,
                    old(tile).agents@,
                    sorted,
                    old(tile).agents@,
                    old(tile).resources,
                    final(tile).agents@,
                    final(tile).resources,
                ),
    {
        let ghost all_pairs = assigned_roles.pairs@;
        let ghost n = old(tile).agents@.len() as int;
        let sorted = sort_pairs(&assigned_roles.pairs);
        let ghost s = sorted@;
        proof {
            assert forall|i: int| 0 <= i < s.len() implies (#[trigger] s[i]).0 < n
                && spec_has_role(self.roles@, s[i].1) && spec_transient_actions(
                self.roles@,
                old(tile).agents@,
                s[i],
            ).len() > 0 && spec_pair_ids_contain(all_pairs, s[i].0 as int) by {
                assert(s.contains(s[i]));
                assert(all_pairs.contains(s[i]));
                let j0 = choose|j0: int| 0 <= j0 < all_pairs.len() && all_pairs[j0] == s[i];
            }
        }
        let sorted_assignment = Assignment { pairs: sorted };
        let snapshot = snapshot_resources(&tile.agents);
        let prepared = self.prepare_actions(&sorted_assignment, &tile.agents);
        let mut k: usize = 0;
        proof {
            assert(s.subrange(0, 0) =~= Seq::<(AgentID, AnyRole)>::empty());
        }
        while k < prepared.len()
            invariant
                0 <= k <= prepared@.len(),
                tile.agents@.len() == n,
                roster_shape_eq(tile.agents@, old(tile).agents@),
                tile.reputations == old(tile).reputations,
                forall|j: int|
                    0 <= j < n && !spec_pair_ids_contain(all_pairs, j) ==> tile.agents@[j] == old(
                        tile,
                    ).agents@[j],
                prepared@.len() == s.len(),
                snapshot@.len() == n,
                forall|i: int| 0 <= i < n ==> snapshot@[i] == old(tile).agents@[i].resources,
                forall|i: int|
                    0 <= i < s.len() ==> (#[trigger] prepared@[i]).0 == s[i].0 && prepared@[
                    i].1@.len() > 0 && prepared@[i].1@ == spec_transient_actions(
                        self.roles@,
                        old(tile).agents@,
                        s[i],
                    ),
                forall|i: int|
                    0 <= i < s.len() ==> (#[trigger] s[i]).0 < n && spec_pair_ids_contain(
                        all_pairs,
                        s[i].0 as int,
                    ),
                spec_play(
                    self.roles@,
                    old(tile).agents@,
                    s.subrange(0, k as int),
                    old(tile).agents@,
                    old(tile).resources,
                    tile.agents@,
                    tile.resources,
                ),
            decreases prepared@.len() - k,
        {
            let entry = &prepared[k];
            let id = entry.0;
            let decider = tile.agents[id].decider;
            let snap_res = snapshot[id];
            let choice = decider.decide(&entry.1, snap_res, rng);
            let ghost before = tile.agents@;
            let ghost before_res = tile.resources;
            let ghost pr = s[k as int];
            let ghost cands = spec_transient_actions(self.roles@, old(tile).agents@, pr);
            execute_action(choice, tile, id, rng);
            proof {
                assert forall|j: int|
                    0 <= j < n && !spec_pair_ids_contain(all_pairs, j) implies tile.agents@[j]
                    == old(tile).agents@[j] by {
                    assert(spec_pair_ids_contain(all_pairs, id as int));
                    assert(tile.agents@[j] == before[j]);
                }
                assert(roster_shape_eq(tile.agents@, old(tile).agents@));
                // The executed effect is one turn of the play relation:
                // the chosen candidate, utility-pinned for the lookahead
                // policy, applied to the ledgers as they stood.
                let wi = choose|wi: int|
                    0 <= wi < entry.1@.len() && choice == entry.1@[wi];
                assert(cands[wi] == choice);
                assert(cands.contains(choice));
                assert(decider == old(tile).agents@[id as int].decider);
                assert(spec_execute_outcome(
                    choice,
                    before[id as int].resources,
                    before_res,
                    tile.agents@[id as int].resources,
                    tile.resources,
                ));
                assert(spec_turn(
                    self.roles@,
                    old(tile).agents@,
                    pr,
                    before,
                    before_res,
                    tile.agents@,
                    tile.resources,
                ));
                assert(s.subrange(0, k + 1) =~= s.subrange(0, k as int).push(pr));
                lemma_play_snoc(
                    self.roles@,
                    old(tile).agents@,
                    s.subrange(0, k as int),
                    pr,
                    old(tile).agents@,
                    old(tile).resources,
                    before,
                    before_res,
                    tile.agents@,
                    tile.resources,
                );
            }
            k = k + 1;
        }
        proof {
            assert(s.subrange(0, s.len() as int) =~= s);
            assert(spec_play(
                self.roles@,
                old(tile).agents@,
                s,
                old(tile).agents@,
                old(tile).resources,
                tile.agents@,
                tile.resources,
            ));
        }
    }
}

/// One game played during a tick: its role declarations and the
/// assignment it was played under.
#[derive(Debug, PartialEq, Eq)]
pub struct PlayedGame {
    pub roles: Vec<RoleEntry>,
    pub assignment: Assignment,
}

/// No agent id appears in both pair lists.
pub open spec fn spec_pairs_id_disjoint(
    x: Seq<(AgentID, AnyRole)>,
    y: Seq<(AgentID, AnyRole)>,
) -> bool {
    forall|i: int, j: int|
        0 <= i < x.len() && 0 <= j < y.len() ==> (#[trigger] x[i]).0 != (#[trigger] y[j]).0
}

/// No agent id is assigned by two distinct played games.
pub open spec fn spec_played_disjoint(played: Seq<PlayedGame>) -> bool {
    forall|a: int, b: int|
        0 <= a < b < played.len() ==> spec_pairs_id_disjoint(
            (#[trigger] played[a]).assignment.pairs@,
            (#[trigger] played[b]).assignment.pairs@,
        )
}

/// Every played game meets the multiplicity contract of each of its
/// declared roles, assigns no id twice, and assigns only roster ids.
pub open spec fn spec_played_ok(played: Seq<PlayedGame>, n: int) -> bool {
    forall|k: int|
        0 <= k < played.len() ==> {
            let pg = #[trigger] played[k];
            (forall|r: int|
                0 <= r < pg.roles@.len() ==> crate::assigner::spec_role_count_ok(
                    #[trigger] pg.roles@[r],
                    pg.assignment.pairs@,
                )) && (forall|i: int, j: int|
                0 <= i < j < pg.assignment.pairs@.len() ==> (#[trigger] pg.assignment.pairs@[
                i]).0 != (#[trigger] pg.assignment.pairs@[j]).0) && (forall|i: int|
                0 <= i < pg.assignment.pairs@.len() ==> (#[trigger] pg.assignment.pairs@[i]).0
                    < n)
        }
}

/// The reported games, played in report order, take the ledgers from the
/// tick's start state to its end state: game by game, the agents of its
/// assignment took their turns by increasing agent id, as `spec_play`
/// describes, on the ledgers as the earlier games left them.
pub open spec fn spec_tick_play(
    played: Seq<PlayedGame>,
    agents_in: Seq<Agent>,
    res_in: Resources,
    agents_out: Seq<Agent>,
    res_out: Resources,
) -> bool
    decreases played.len(),
{
    if played.len() == 0 {
        agents_out == agents_in && res_out == res_in
    } else {
        exists|a_mid: Seq<Agent>, t_mid: Resources, sorted: Seq<(AgentID, AnyRole)>|
            #![trigger spec_play(played[0].roles@, agents_in, sorted, agents_in, res_in, a_mid, t_mid)]
            sorted.to_multiset() == played[0].assignment.pairs@.to_multiset() && (forall|
                i: int,
                j: int,
            |
                0 <= i < j < sorted.len() ==> sorted[i].0 < sorted[j].0) && spec_play(
                played[0].roles@,
                agents_in,
                sorted,
                agents_in,
                res_in,
                a_mid,
                t_mid,
            ) && spec_tick_play(played.drop_first(), a_mid, t_mid, agents_out, res_out)
    }
}

/// Extends a tick's play relation by one further played game.
proof fn lemma_tick_play_snoc(
    played: Seq<PlayedGame>,
    pg: PlayedGame,
    a0: Seq<Agent>,
    t0: Resources,
    a1: Seq<Agent>,
    t1: Resources,
    a2: Seq<Agent>,
    t2: Resources,
)
    requires
        spec_tick_play(played, a0, t0, a1, t1),
        exists|sorted: Seq<(AgentID, AnyRole)>|
            #![trigger spec_play(pg.roles@, a1, sorted, a1, t1, a2, t2)]
            sorted.to_multiset() == pg.assignment.pairs@.to_multiset() && (forall|i: int, j: int|
                0 <= i < j < sorted.len() ==> sorted[i].0 < sorted[j].0) && spec_play(
                pg.roles@,
                a1,
                sorted,
                a1,
                t1,
                a2,
                t2,
            ),
    ensures
        spec_tick_play(played.push(pg), a0, t0, a2, t2),
    decreases played.len(),
{
    if played.len() == 0 {
        assert(played.push(pg)[0] == pg);
        assert(played.push(pg).drop_first() =~= played);
        let so = choose|so: Seq<(AgentID, AnyRole)>|
            #![trigger spec_play(pg.roles@, a1, so, a1, t1, a2, t2)]
            so.to_multiset() == pg.assignment.pairs@.to_multiset() && (forall|i: int, j: int|
                0 <= i < j < so.len() ==> so[i].0 < so[j].0) && spec_play(
                pg.roles@,
                a1,
                so,
                a1,
                t1,
                a2,
                t2,
            );
        assert(spec_play(played.push(pg)[0].roles@, a0, so, a0, t0, a2, t2));
        assert(spec_tick_play(played.push(pg).drop_first(), a2, t2, a2, t2));
    } else {
        assert(exists|am: Seq<Agent>, tm: Resources, so: Seq<(AgentID, AnyRole)>|
            #![trigger spec_play(played[0].roles@, a0, so, a0, t0, am, tm)]
            so.to_multiset() == played[0].assignment.pairs@.to_multiset() && (forall|
                i: int,
                j: int,
            |
                0 <= i < j < so.len() ==> so[i].0 < so[j].0) && spec_play(
                played[0].roles@,
                a0,
                so,
                a0,
                t0,
                am,
                tm,
            ) && spec_tick_play(played.drop_first(), am, tm, a1, t1));
        let (am, tm, so) = choose|am: Seq<Agent>, tm: Resources, so: Seq<(AgentID, AnyRole)>|
            #![trigger spec_play(played[0].roles@, a0, so, a0, t0, am, tm)]
            so.to_multiset() == played[0].assignment.pairs@.to_multiset() && (forall|
                i: int,
                j: int,
            |
                0 <= i < j < so.len() ==> so[i].0 < so[j].0) && spec_play(
                played[0].roles@,
                a0,
                so,
                a0,
                t0,
                am,
                tm,
            ) && spec_tick_play(played.drop_first(), am, tm, a1, t1);
        lemma_tick_play_snoc(played.drop_first(), pg, am, tm, a1, t1, a2, t2);
        assert(played.push(pg)[0] == played[0]);
        assert(played.push(pg).drop_first() =~= played.drop_first().push(pg));
        assert(spec_play(played.push(pg)[0].roles@, a0, so, a0, t0, am, tm));
    }
}

/// The games of `order` that the assigner accepts, in that order, when
/// the available roster starts as `avail`: each game's turn runs
/// `spec_assign` on the roster the earlier games left available, and an
/// accepted game is kept (its matched agents consumed) while a refused
/// one is skipped (its partial consumption still persisting, as the
/// assigner specifies).
pub open spec fn spec_scheduled_games(order: Seq<Game>, avail: Seq<Agent>) -> Seq<Game>
    decreases order.len(),
{
    if order.len() == 0 {
        Seq::empty()
    } else {
        let r = crate::assigner::spec_assign(order[0].roles@, order[0], avail);
        match r.0 {
            Option::Some(_) => seq![order[0]] + spec_scheduled_games(order.drop_first(), r.1),
            Option::None => spec_scheduled_games(order.drop_first(), r.1),
        }
    }
}

/// The assignments of the accepted games of `order`: one pair list per
/// accepted game, in the same order.
pub open spec fn spec_scheduled_pairs(order: Seq<Game>, avail: Seq<Agent>) -> Seq<
    Seq<(AgentID, AnyRole)>,
>
    decreases order.len(),
{
    if order.len() == 0 {
        Seq::empty()
    } else {
        let r = crate::assigner::spec_assign(order[0].roles@, order[0], avail);
        match r.0 {
            Option::Some(pairs) => seq![pairs] + spec_scheduled_pairs(order.drop_first(), r.1),
            Option::None => spec_scheduled_pairs(order.drop_first(), r.1),
        }
    }
}

/// The consequents the accepted games of `order` hand to the next tick,
/// in the same order; a refused game propagates nothing.
pub open spec fn spec_scheduled_consequents(order: Seq<Game>, avail: Seq<Agent>) -> Seq<Game>
    decreases order.len(),
{
    if order.len() == 0 {
        Seq::empty()
    } else {
        let r = crate::assigner::spec_assign(order[0].roles@, order[0], avail);
        match r.0 {
            Option::Some(_) => match order[0].consequent_game {
                Option::Some(b) => seq![*b] + spec_scheduled_consequents(
                    order.drop_first(),
                    r.1,
                ),
                Option::None => spec_scheduled_consequents(order.drop_first(), r.1),
            },
            Option::None => spec_scheduled_consequents(order.drop_first(), r.1),
        }
    }
}

/// `g` is the direct consequent of some game of `pool`.
pub open spec fn spec_consequent_of(pool: Seq<Game>, g: Game) -> bool {
    exists|j: int|
        0 <= j < pool.len() && (match (#[trigger] pool[j]).consequent_game {
            Option::Some(b) => *b == g,
            Option::None => false,
        })
}

/// No agent id of the pairs is still available.
pub open spec fn spec_pairs_avail_disjoint(
    pairs: Seq<(AgentID, AnyRole)>,
    avail: Seq<Agent>,
) -> bool {
    forall|i: int, j: int|
        0 <= i < pairs.len() && 0 <= j < avail.len() ==> (#[trigger] pairs[i]).0 != (
        #[trigger] avail[j]).id
}

/// Plays one tick over the pool in `games`: shuffles the pool, then for
/// each game in shuffled order tries to assign agents (each agent is
/// consumed by the first game that takes it) and plays the game on
/// success.  Afterwards `games` holds exactly the gathered consequents of
/// the played games — an unplayed game propagates nothing — and the report
/// lists every played game's roles and assignment.  Whatever was drawn:
/// the roster's identities, repertoires, policies and the reputation
/// matrix are untouched; every reported assignment meets its game's
/// multiplicity contracts; and no agent id is assigned by two games.
pub fn run_tick(tile: &mut Tile, games: &mut Vec<Game>, rng: &mut SimRng) -> (played: Vec<
    PlayedGame,
>)
    requires
        old(tile).wf(),
        forall|i: int| 0 <= i < old(games)@.len() ==> (#[trigger] old(games)@[i]).wf(),
        forall|i: int|
            0 <= i < old(tile).agents@.len() ==> (#[trigger] old(tile).agents@[
            i]).base_actions@.len() > 0,
    ensures
        final(tile).wf(),
        final(tile).agents@.len() == old(tile).agents@.len(),
        roster_shape_eq(final(tile).agents@, old(tile).agents@),
        final(tile).reputations == old(tile).reputations,
        forall|i: int|
            0 <= i < final(games)@.len() ==> (#[trigger] final(games)@[i]).wf()
                && spec_consequent_of(old(games)@, final(games)@[i]),
        forall|j: int|
            0 <= j < old(games)@.len() && (#[trigger] old(games)@[j]).roles@.len() == 0
                ==> (match old(games)@[j].consequent_game {
                Option::Some(b) => final(games)@.contains(*b),
                Option::None => true,
            }),
        spec_played_ok(played@, old(tile).agents@.len() as int),
        spec_played_disjoint(played@),
        spec_tick_play(
            played@,
            old(tile).agents@,
            old(tile).resources,
            final(tile).agents@,
            final(tile).resources,
        ),
        exists|order: Seq<Game>, avail0: Seq<Agent>|
            #![trigger spec_scheduled_games(order, avail0)]
            order.to_multiset() == old(games)@.to_multiset() && avail0.len() == old(
                tile,
            ).agents@.len() && (forall|i: int|
                0 <= i < avail0.len() ==> crate::agent::agent_like(
                    #[trigger] avail0[i],
                    old(tile).agents@[i],
                )) && played@.len() == spec_scheduled_games(order, avail0).len()
                && spec_scheduled_pairs(order, avail0).len() == played@.len() && (forall|k: int|
                0 <= k < played@.len() ==> (#[trigger] played@[k]).roles@ == spec_scheduled_games(
                    order,
                    avail0,
                )[k].roles@ && played@[k].assignment.pairs@ == spec_scheduled_pairs(
                    order,
                    avail0,
                )[k]) && final(games)@ == spec_scheduled_consequents(order, avail0),
{
    let ghost pool0 = old(games)@;
    let ghost n = old(tile).agents@.len() as int;
    crate::rng::shuffle_games(games, rng);
    let ghost order = games@;
    let ghost mut processed: int = 0;
    proof {
        broadcast use vstd::seq_lib::group_to_multiset_ensures;

        assert forall|i: int| 0 <= i < games@.len() implies pool0.contains(
            #[trigger] games@[i],
        ) by {
            assert(games@.contains(games@[i]));
            assert(games@.to_multiset().count(games@[i]) > 0);
            assert(pool0.to_multiset().count(games@[i]) > 0);
        }
        assert(games@ =~= order.skip(0));
    }
    let mut available = crate::agent::clone_agents(&tile.agents);
    proof {
        assert forall|i: int, j: int|
            0 <= i < j < available@.len() implies available@[i].id != available@[j].id by {
            assert(crate::agent::agent_like(available@[i], tile.agents@[i]));
            assert(crate::agent::agent_like(available@[j], tile.agents@[j]));
        }
        assert forall|i: int|
            0 <= i < available@.len() implies (#[trigger] available@[i]).id < n && available@[
            i].base_actions@.len() > 0 by {
            assert(crate::agent::agent_like(available@[i], tile.agents@[i]));
        }
    }
    let ghost avail0 = available@;
    let ghost mut sched_games_acc: Seq<Game> = Seq::empty();
    let ghost mut sched_pairs_acc: Seq<Seq<(AgentID, AnyRole)>> = Seq::empty();
    let mut consequents: Vec<Game> = Vec::new();
    let mut played: Vec<PlayedGame> = Vec::new();
    proof {
        assert(order.skip(0) =~= order);
        assert(Seq::<Game>::empty() + spec_scheduled_games(order, avail0)
            =~= spec_scheduled_games(order, avail0));
        assert(Seq::<Seq<(AgentID, AnyRole)>>::empty() + spec_scheduled_pairs(order, avail0)
            =~= spec_scheduled_pairs(order, avail0));
        assert(Seq::<Game>::empty() + spec_scheduled_consequents(order, avail0)
            =~= spec_scheduled_consequents(order, avail0));
    }
    while games.len() > 0
        invariant
            tile.wf(),
            tile.agents@.len() == n,
            roster_shape_eq(tile.agents@, old(tile).agents@),
            tile.reputations == old(tile).reputations,
            forall|i: int|
                0 <= i < old(tile).agents@.len() ==> (#[trigger] old(tile).agents@[
                i]).base_actions@.len() > 0,
            forall|i: int| 0 <= i < games@.len() ==> pool0.contains(#[trigger] games@[i]),
            forall|i: int| 0 <= i < pool0.len() ==> (#[trigger] pool0[i]).wf(),
            forall|i: int|
                0 <= i < consequents@.len() ==> (#[trigger] consequents@[i]).wf()
                    && spec_consequent_of(pool0, consequents@[i]),
            0 <= processed <= order.len(),
            games@ == order.skip(processed),
            forall|j: int|
                0 <= j < processed && (#[trigger] order[j]).roles@.len() == 0
                    ==> (match order[j].consequent_game {
                    Option::Some(b) => consequents@.contains(*b),
                    Option::None => true,
                }),
            crate::assigner::distinct_ids(available@),
            forall|i: int|
                0 <= i < available@.len() ==> (#[trigger] available@[i]).id < n && available@[
                i].base_actions@.len() > 0,
            spec_played_ok(played@, n),
            spec_played_disjoint(played@),
            forall|k: int|
                0 <= k < played@.len() ==> spec_pairs_avail_disjoint(
                    (#[trigger] played@[k]).assignment.pairs@,
                    available@,
                ),
            spec_tick_play(
                played@,
                old(tile).agents@,
                old(tile).resources,
                tile.agents@,
                tile.resources,
            ),
            avail0.len() == n,
            forall|i: int|
                0 <= i < avail0.len() ==> crate::agent::agent_like(
                    #[trigger] avail0[i],
                    old(tile).agents@[i],
                ),
            spec_scheduled_games(order, avail0) == sched_games_acc + spec_scheduled_games(
                order.skip(processed),
                available@,
            ),
            spec_scheduled_pairs(order, avail0) == sched_pairs_acc + spec_scheduled_pairs(
                order.skip(processed),
                available@,
            ),
            spec_scheduled_consequents(order, avail0) == consequents@
                + spec_scheduled_consequents(order.skip(processed), available@),
            sched_games_acc.len() == played@.len(),
            sched_pairs_acc.len() == played@.len(),
            forall|k: int|
                0 <= k < played@.len() ==> (#[trigger] played@[k]).roles@ == sched_games_acc[
                k].roles@ && played@[k].assignment.pairs@ == sched_pairs_acc[k],
        decreases games@.len(),
    {
        let ghost games_pre = games@;
        let g = games.remove(0);
        proof {
            assert(g == games_pre[0]);
            assert(g == order[processed]);
            assert forall|i: int| 0 <= i < games@.len() implies pool0.contains(
                #[trigger] games@[i],
            ) by {
                assert(games@[i] == games_pre[i + 1]);
            }
            assert(games@ =~= order.skip(processed + 1));
            assert(pool0.contains(g));
            let w = choose|w: int| 0 <= w < pool0.len() && pool0[w] == g;
            assert(g.wf());
        }
        let ghost avail_pre = available@;
        let maybe_assigned = crate::assigner::assign_and_consume_agents(&g, &mut available);
        proof {
            crate::assigner::lemma_assign_consumption(g.roles@, g, avail_pre);
            crate::assigner::lemma_assign_multiplicity(g.roles@, g, avail_pre);
            crate::assigner::lemma_assign_pairs_roles(g.roles@, g, avail_pre);
            // What stays available is a selection of what was available,
            // with the same bounds and distinctness.
            assert forall|i: int|
                0 <= i < available@.len() implies (#[trigger] available@[i]).id < n && available@[
                i].base_actions@.len() > 0 by {
                assert(avail_pre.contains(available@[i]));
                let j0 = choose|j0: int| 0 <= j0 < avail_pre.len() && avail_pre[j0] == available@[i];
            }
            // Ids already assigned by earlier games are still not available.
            assert forall|k: int|
                0 <= k < played@.len() implies spec_pairs_avail_disjoint(
                (#[trigger] played@[k]).assignment.pairs@,
                available@,
            ) by {
                let pairs = played@[k].assignment.pairs@;
                assert forall|i: int, j: int|
                    0 <= i < pairs.len() && 0 <= j < available@.len() implies (#[trigger] pairs[
                    i]).0 != (#[trigger] available@[j]).id by {
                    assert(avail_pre.contains(available@[j]));
                    let j0 = choose|j0: int|
                        0 <= j0 < avail_pre.len() && avail_pre[j0] == available@[j];
                    assert(pairs[i].0 != avail_pre[j0].id);
                }
            }
        }
        match maybe_assigned {
            Option::Some(assigned) => {
                let ghost pairs = assigned.pairs@;
                proof {
                    // The assigned ids are roster ids, and the transient
                    // action set of every assigned agent is non-empty.
                    assert forall|i: int| 0 <= i < pairs.len() implies (#[trigger] pairs[i]).0
                        < n by {
                        let j0 = choose|j0: int|
                            0 <= j0 < avail_pre.len() && avail_pre[j0].id == pairs[i].0;
                    }
                    assert forall|i: int| 0 <= i < pairs.len() implies spec_has_role(
                        g.roles@,
                        (#[trigger] pairs[i]).1,
                    ) by {
                        let k0 = choose|k0: int|
                            0 <= k0 < g.roles@.len() && g.roles@[k0].role == pairs[i].1;
                    }
                    assert forall|i: int| 0 <= i < pairs.len() implies spec_transient_actions(
                        g.roles@,
                        tile.agents@,
                        #[trigger] pairs[i],
                    ).len() > 0 by {
                        let base = tile.agents@[pairs[i].0 as int].base_actions@;
                        assert(base == old(tile).agents@[pairs[i].0 as int].base_actions@);
                        assert(base.len() > 0);
                        match spec_find_role(g.roles@, pairs[i].1).transformer {
                            crate::roles::AnyTransformer::TrivialTransformer => {},
                            crate::roles::AnyTransformer::AddAction(_) => {},
                            crate::roles::AnyTransformer::ReplaceAll(_) => {},
                        }
                    }
                }
                let ghost tile_before = tile.agents@;
                let ghost res_before = tile.resources;
                let ghost played_pre = played@;
                g.prepare_and_execute_actions(tile, &assigned, rng);
                proof {
                    assert(roster_shape_eq(tile.agents@, old(tile).agents@));
                }
                let ghost g_value = g;
                let Game { roles: g_roles, consequent_game: g_consequent } = g;
                proof {
                    assert(g_roles@ == g_value.roles@);
                    assert(g_consequent == g_value.consequent_game);
                }
                played.push(PlayedGame { roles: g_roles, assignment: assigned });
                proof {
                    let new_pg = played@[played@.len() - 1];
                    assert(new_pg.assignment.pairs@ == pairs);
                    assert(new_pg.roles@ == g_value.roles@);
                    // The play of this game extends the tick's play
                    // relation from the start-of-tick ledgers to the
                    // current ones.
                    let so = choose|so: Seq<(AgentID, AnyRole)>|
                        #![trigger spec_play(g_value.roles@, tile_before, so, tile_before, res_before, tile.agents@, tile.resources)]
                        so.to_multiset() == pairs.to_multiset() && (forall|i: int, j: int|
                            0 <= i < j < so.len() ==> so[i].0 < so[j].0) && spec_play(
                            g_value.roles@,
                            tile_before,
                            so,
                            tile_before,
                            res_before,
                            tile.agents@,
                            tile.resources,
                        );
                    assert(so.to_multiset() == new_pg.assignment.pairs@.to_multiset() && (forall|
                        i: int,
                        j: int,
                    |
                        0 <= i < j < so.len() ==> so[i].0 < so[j].0) && spec_play(
                        new_pg.roles@,
                        tile_before,
                        so,
                        tile_before,
                        res_before,
                        tile.agents@,
                        tile.resources,
                    ));
                    lemma_tick_play_snoc(
                        played_pre,
                        new_pg,
                        old(tile).agents@,
                        old(tile).resources,
                        tile_before,
                        res_before,
                        tile.agents@,
                        tile.resources,
                    );
                    assert(played@ =~= played_pre.push(new_pg));
                    // The new entry is disjoint from every earlier one:
                    // earlier assigned ids were no longer available when
                    // this game drew its ids from the available list.
                    assert forall|a: int, b: int|
                        0 <= a < b < played@.len() implies spec_pairs_id_disjoint(
                        (#[trigger] played@[a]).assignment.pairs@,
                        (#[trigger] played@[b]).assignment.pairs@,
                    ) by {
                        if b == played@.len() - 1 {
                            let xp = played@[a].assignment.pairs@;
                            assert forall|i: int, j: int|
                                0 <= i < xp.len() && 0 <= j < pairs.len() implies (#[trigger] xp[
                                i]).0 != (#[trigger] pairs[j]).0 by {
                                let j0 = choose|j0: int|
                                    0 <= j0 < avail_pre.len() && avail_pre[j0].id == pairs[j].0;
                                assert(xp[i].0 != avail_pre[j0].id);
                            }
                        }
                    }
                }
                let ghost cons_top = consequents@;
                match g_consequent {
                    Option::Some(boxed) => {
                        proof {
                            assert(pool0.contains(g_value));
                            let w = choose|w: int| 0 <= w < pool0.len() && pool0[w] == g_value;
                            assert(spec_consequent_of(pool0, *boxed));
                        }
                        let ghost consequents_pre = consequents@;
                        consequents.push(*boxed);
                        proof {
                            assert forall|y: Game| consequents_pre.contains(y)
                                implies consequents@.contains(y) by {
                                let i0 = choose|i0: int|
                                    0 <= i0 < consequents_pre.len() && consequents_pre[i0] == y;
                                assert(consequents@[i0] == y);
                            }
                            assert(consequents@[consequents@.len() - 1] == *boxed);
                            assert(consequents@.contains(*boxed));
                        }
                    },
                    Option::None => {},
                }
                proof {
                    // This accepted game extends the tick's schedule: it
                    // is played, with exactly the pairs the assigner
                    // specifies, and hands over exactly its consequent.
                    let r = crate::assigner::spec_assign(g_value.roles@, g_value, avail_pre);
                    assert(order.skip(processed)[0] == g_value);
                    assert(order.skip(processed).drop_first() =~= order.skip(processed + 1));
                    assert(r.0 == Option::Some(pairs));
                    assert(available@ == r.1);
                    assert(spec_scheduled_games(order.skip(processed), avail_pre) == seq![g_value]
                        + spec_scheduled_games(order.skip(processed + 1), r.1));
                    assert(spec_scheduled_pairs(order.skip(processed), avail_pre) == seq![pairs]
                        + spec_scheduled_pairs(order.skip(processed + 1), r.1));
                    let acc_g_pre = sched_games_acc;
                    let acc_p_pre = sched_pairs_acc;
                    sched_games_acc = acc_g_pre + seq![g_value];
                    sched_pairs_acc = acc_p_pre + seq![pairs];
                    assert(acc_g_pre + (seq![g_value] + spec_scheduled_games(
                        order.skip(processed + 1),
                        r.1,
                    )) =~= sched_games_acc + spec_scheduled_games(order.skip(processed + 1), r.1));
                    assert(acc_p_pre + (seq![pairs] + spec_scheduled_pairs(
                        order.skip(processed + 1),
                        r.1,
                    )) =~= sched_pairs_acc + spec_scheduled_pairs(order.skip(processed + 1), r.1));
                    match g_value.consequent_game {
                        Option::Some(b) => {
                            assert(spec_scheduled_consequents(order.skip(processed), avail_pre)
                                == seq![*b] + spec_scheduled_consequents(
                                order.skip(processed + 1),
                                r.1,
                            ));
                            assert(consequents@ =~= cons_top + seq![*b]);
                            assert(cons_top + (seq![*b] + spec_scheduled_consequents(
                                order.skip(processed + 1),
                                r.1,
                            )) =~= consequents@ + spec_scheduled_consequents(
                                order.skip(processed + 1),
                                r.1,
                            ));
                        },
                        Option::None => {
                            assert(spec_scheduled_consequents(order.skip(processed), avail_pre)
                                == spec_scheduled_consequents(order.skip(processed + 1), r.1));
                        },
                    }
                    let new_pg = played@[played@.len() - 1];
                    assert forall|k: int|
                        0 <= k < played@.len() implies (#[trigger] played@[k]).roles@
                        == sched_games_acc[k].roles@ && played@[k].assignment.pairs@
                        == sched_pairs_acc[k] by {
                        if k < played@.len() - 1 {
                            assert(played@[k] == played_pre[k]);
                            assert(sched_games_acc[k] == acc_g_pre[k]);
                            assert(sched_pairs_acc[k] == acc_p_pre[k]);
                        } else {
                            assert(played@[k] == new_pg);
                            assert(sched_games_acc[k] == g_value);
                            assert(sched_pairs_acc[k] == pairs);
                        }
                    }
                }
            },
            Option::None => {
                proof {
                    // A game without roles always assigns (trivially), so
                    // a failed assignment means this game declared roles.
                    if g.roles@.len() == 0 {
                        assert(crate::assigner::spec_assign(g.roles@, g, avail_pre).0 is Some);
                    }
                    assert(g.roles@.len() != 0);
                    // A refused game is absent from the tick's schedule;
                    // only its partial consumption advances the roster.
                    let r = crate::assigner::spec_assign(g.roles@, g, avail_pre);
                    assert(order.skip(processed)[0] == g);
                    assert(order.skip(processed).drop_first() =~= order.skip(processed + 1));
                    assert(r.0 is None);
                    assert(available@ == r.1);
                    assert(spec_scheduled_games(order.skip(processed), avail_pre)
                        == spec_scheduled_games(order.skip(processed + 1), r.1));
                    assert(spec_scheduled_pairs(order.skip(processed), avail_pre)
                        == spec_scheduled_pairs(order.skip(processed + 1), r.1));
                    assert(spec_scheduled_consequents(order.skip(processed), avail_pre)
                        == spec_scheduled_consequents(order.skip(processed + 1), r.1));
                }
            },
        }
        proof {
            processed = processed + 1;
        }
    }
    proof {
        broadcast use vstd::seq_lib::group_to_multiset_ensures;

        assert(processed == order.len());
        assert forall|j: int|
            0 <= j < pool0.len() && (#[trigger] pool0[j]).roles@.len() == 0
            implies (match pool0[j].consequent_game {
            Option::Some(b) => consequents@.contains(*b),
            Option::None => true,
        }) by {
            assert(pool0.contains(pool0[j]));
            assert(pool0.to_multiset().count(pool0[j]) > 0);
            assert(order.to_multiset().count(pool0[j]) > 0);
            assert(order.contains(pool0[j]));
            let w = choose|w: int| 0 <= w < order.len() && order[w] == pool0[j];
            assert(order[w].roles@.len() == 0);
        }
        // The tick ran the whole schedule: the accumulators are exactly
        // the schedule of the shuffled order over the starting roster.
        assert(order.skip(processed) =~= Seq::<Game>::empty());
        assert(sched_games_acc + Seq::<Game>::empty() =~= sched_games_acc);
        assert(sched_pairs_acc + Seq::<Seq<(AgentID, AnyRole)>>::empty() =~= sched_pairs_acc);
        assert(consequents@ + Seq::<Game>::empty() =~= consequents@);
        assert(spec_scheduled_games(order, avail0) == sched_games_acc);
        assert(spec_scheduled_pairs(order, avail0) == sched_pairs_acc);
        assert(spec_scheduled_consequents(order, avail0) == consequents@);
    }
    *games = consequents;
    proof {
        assert(order.to_multiset() == pool0.to_multiset() && avail0.len() == old(
            tile,
        ).agents@.len() && (forall|i: int|
            0 <= i < avail0.len() ==> crate::agent::agent_like(
                #[trigger] avail0[i],
                old(tile).agents@[i],
            )) && played@.len() == spec_scheduled_games(order, avail0).len()
            && spec_scheduled_pairs(order, avail0).len() == played@.len() && (forall|k: int|
            0 <= k < played@.len() ==> (#[trigger] played@[k]).roles@ == spec_scheduled_games(
                order,
                avail0,
            )[k].roles@ && played@[k].assignment.pairs@ == spec_scheduled_pairs(order, avail0)[k])
            && games@ == spec_scheduled_consequents(order, avail0));
    }
    played
}

/// A copy of every agent's ledger, indexed like the roster.
fn snapshot_resources(agents: &Vec<Agent>) -> (snap: Vec<Resources>)
    ensures
        snap@.len() == agents@.len(),
        forall|i: int| 0 <= i < agents@.len() ==> snap@[i] == (#[trigger] agents@[i]).resources,
{
    let mut snap: Vec<Resources> = Vec::new();
    let mut i: usize = 0;
    while i < agents.len()
        invariant
            0 <= i <= agents@.len(),
            snap@.len() == i,
            forall|j: int| 0 <= j < i ==> snap@[j] == (#[trigger] agents@[j]).resources,
        decreases agents@.len() - i,
    {
        snap.push(agents[i].resources);
        i = i + 1;
    }
    snap
}

/// Ledger non-negativity over the whole tile: at every moment — so in
/// particular after every tick — every resource quantity of every agent
/// and of the shared pool is non-negative.  Amounts are unsigned by
/// representation, and every subtraction in the engine goes through the
/// guarded spend, which refuses rather than underflow.
pub proof fn lemma_tile_non_negative(t: Tile)
    ensures
        forall|i: int, k: crate::resources::AnyResource|
            0 <= i < t.agents@.len() ==> (#[trigger] t.agents@[i].resources.spec_get(k)) as int
                >= 0,
        forall|k: crate::resources::AnyResource| t.resources.spec_get(k) as int >= 0,
{
}

/// A kingdom game joins the pool every this many ticks.
pub const KINGDOM_PROVIDER_PERIOD: usize = 3;

/// A lottery game joins the pool every this many ticks.
pub const LOTTERY_PROVIDER_PERIOD: usize = 50;

/// The decider of the agent at roster position `i`: the first tenth of
/// the roster plans by utility lookahead, the rest choose uniformly.
pub open spec fn spec_initial_decider(i: int, agent_count: usize) -> crate::decider::AnyDecider {
    if i < agent_count as int / 10 {
        crate::decider::AnyDecider::UtilityDecider
    } else {
        crate::decider::AnyDecider::RngDecider
    }
}

/// Builds the initial roster from the configuration: ids `0 .. agent_count`
/// in order, empty ledgers, the trivial action as sole base repertoire,
/// deciders assigned by the index threshold, everyone eligible everywhere.
pub fn initialize_agents(configs: &crate::config::Configs) -> (agents: Vec<Agent>)
    ensures
        agents@.len() == configs.agent_count,
        forall|i: int|
            0 <= i < agents@.len() ==> {
                let a = #[trigger] agents@[i];
                a.id == i && a.resources == (Resources { coins: 0 }) && a.base_actions@ == seq![
                    AnyAction::Trivial,
                ] && a.decider == spec_initial_decider(i, configs.agent_count)
                    && a.participation_checker
                    == crate::roles::AnyParticipationChecker::TrivialChecker
            },
{
    let mut agents: Vec<Agent> = Vec::new();
    let border_index = configs.agent_count / 10;
    let mut i: usize = 0;
    while i < configs.agent_count
        invariant
            0 <= i <= configs.agent_count,
            agents@.len() == i,
            border_index == configs.agent_count / 10,
            forall|j: int|
                0 <= j < i ==> {
                    let a = #[trigger] agents@[j];
                    a.id == j && a.resources == (Resources { coins: 0 }) && a.base_actions@
                        == seq![AnyAction::Trivial] && a.decider == spec_initial_decider(
                        j,
                        configs.agent_count,
                    ) && a.participation_checker
                        == crate::roles::AnyParticipationChecker::TrivialChecker
                },
        decreases configs.agent_count - i,
    {
        let decider = if i < border_index {
            crate::decider::AnyDecider::UtilityDecider
        } else {
            crate::decider::AnyDecider::RngDecider
        };
        let mut base: Vec<AnyAction> = Vec::new();
        base.push(AnyAction::Trivial);
        proof {
            assert(base@ =~= seq![AnyAction::Trivial]);
        }
        agents.push(
            Agent::new(
                Resources::new(),
                base,
                decider,
                crate::roles::AnyParticipationChecker::TrivialChecker,
                i,
            ),
        );
        i = i + 1;
    }
    agents
}

/// The fresh games one tick contributes to the pool: a kingdom game every
/// `KINGDOM_PROVIDER_PERIOD` ticks and a lottery game every
/// `LOTTERY_PROVIDER_PERIOD` ticks, in that order.
pub open spec fn spec_provided_ok(tick: int, provided: Seq<Game>) -> bool {
    if tick % (KINGDOM_PROVIDER_PERIOD as int) == 0 && tick % (LOTTERY_PROVIDER_PERIOD as int)
        == 0 {
        provided.len() == 2 && crate::game::spec_is_kingdom_game(provided[0])
            && crate::game::spec_is_lottery_game(provided[1])
    } else if tick % (KINGDOM_PROVIDER_PERIOD as int) == 0 {
        provided.len() == 1 && crate::game::spec_is_kingdom_game(provided[0])
    } else if tick % (LOTTERY_PROVIDER_PERIOD as int) == 0 {
        provided.len() == 1 && crate::game::spec_is_lottery_game(provided[0])
    } else {
        provided.len() == 0
    }
}

/// Adds this tick's fresh games to the pool, leaving the games already
/// pooled in place: the appended block is exactly what `spec_provided_ok`
/// describes for this tick.
pub fn provide_all_games(gamepool: &mut Vec<Game>, tick: usize)
    ensures
        final(gamepool)@.len() == old(gamepool)@.len() + (if tick % KINGDOM_PROVIDER_PERIOD == 0 {
            1int
        } else {
            0int
        }) + (if tick % LOTTERY_PROVIDER_PERIOD == 0 {
            1int
        } else {
            0int
        }),
        forall|i: int|
            0 <= i < old(gamepool)@.len() ==> final(gamepool)@[i] == #[trigger] old(gamepool)@[i],
        forall|i: int|
            old(gamepool)@.len() <= i < final(gamepool)@.len() ==> (#[trigger] final(gamepool)@[
            i]).wf(),
        spec_provided_ok(tick as int, final(gamepool)@.skip(old(gamepool)@.len() as int)),
{
    let ghost len0 = gamepool@.len() as int;
    if tick % KINGDOM_PROVIDER_PERIOD == 0 {
        gamepool.push(crate::game::kingdom_game());
    }
    if tick % LOTTERY_PROVIDER_PERIOD == 0 {
        gamepool.push(crate::game::lottery_game());
    }
    proof {
        assert(gamepool@.skip(len0) =~= gamepool@.skip(len0));
    }
}

/// The uniform constant every reputation entry starts at.
pub const REPUTATION_INIT: u64 = 1;

/// The square reputation matrix, every entry at the uniform constant.
pub fn build_reputations(n: usize) -> (m: Vec<Vec<u64>>)
    ensures
        m@.len() == n,
        forall|i: int|
            0 <= i < n ==> (#[trigger] m@[i])@.len() == n && forall|j: int|
                0 <= j < n ==> m@[i]@[j] == REPUTATION_INIT,
{
    let mut m: Vec<Vec<u64>> = Vec::new();
    let mut i: usize = 0;
    while i < n
        invariant
            0 <= i <= n,
            m@.len() == i,
            forall|i2: int|
                0 <= i2 < i ==> (#[trigger] m@[i2])@.len() == n && forall|j: int|
                    0 <= j < n ==> m@[i2]@[j] == REPUTATION_INIT,
        decreases n - i,
    {
        let mut row: Vec<u64> = Vec::new();
        let mut j: usize = 0;
        while j < n
            invariant
                0 <= j <= n,
                row@.len() == j,
                forall|j2: int| 0 <= j2 < j ==> row@[j2] == REPUTATION_INIT,
            decreases n - j,
        {
            row.push(REPUTATION_INIT);
            j = j + 1;
        }
        m.push(row);
        i = i + 1;
    }
    m
}

/// One tick's advance of the whole simulation state, as `run_tick`'s
/// contract describes it: the pool gains this tick's provided games, some
/// shuffled order of that pool is scheduled over a duplicate of the
/// roster, the scheduled games' turns advance the ledgers, and the next
/// pool is exactly the gathered consequents.
pub open spec fn spec_tick_advance(
    tick: int,
    agents_in: Seq<Agent>,
    res_in: Resources,
    pool_in: Seq<Game>,
    agents_out: Seq<Agent>,
    res_out: Resources,
    pool_out: Seq<Game>,
) -> bool {
    exists|provided: Seq<Game>, order: Seq<Game>, avail0: Seq<Agent>, played: Seq<PlayedGame>|
        #![trigger spec_provided_ok(tick, provided), spec_scheduled_games(order, avail0), spec_tick_play(played, agents_in, res_in, agents_out, res_out)]
        spec_provided_ok(tick, provided) && order.to_multiset() == (pool_in
            + provided).to_multiset() && avail0.len() == agents_in.len() && (forall|i: int|
            0 <= i < avail0.len() ==> crate::agent::agent_like(#[trigger] avail0[i], agents_in[i]))
            && played.len() == spec_scheduled_games(order, avail0).len() && (forall|k: int|
            0 <= k < played.len() ==> (#[trigger] played[k]).assignment.pairs@
                == spec_scheduled_pairs(order, avail0)[k]) && spec_scheduled_pairs(
            order,
            avail0,
        ).len() == played.len() && spec_tick_play(played, agents_in, res_in, agents_out, res_out)
            && pool_out == spec_scheduled_consequents(order, avail0)
}

/// The iterated relation of a run: ticks `t .. k`, each advancing the
/// state as `spec_tick_advance` describes.
pub open spec fn spec_run(
    t: int,
    k: int,
    agents_in: Seq<Agent>,
    res_in: Resources,
    pool_in: Seq<Game>,
    agents_out: Seq<Agent>,
    res_out: Resources,
    pool_out: Seq<Game>,
) -> bool
    decreases k - t,
{
    if t >= k {
        agents_out == agents_in && res_out == res_in && pool_out == pool_in
    } else {
        exists|am: Seq<Agent>, rm: Resources, pm: Seq<Game>|
            #![trigger spec_tick_advance(t, agents_in, res_in, pool_in, am, rm, pm)]
            spec_tick_advance(t, agents_in, res_in, pool_in, am, rm, pm) && spec_run(
                t + 1,
                k,
                am,
                rm,
                pm,
                agents_out,
                res_out,
                pool_out,
            )
    }
}

/// Extends a run relation by one further tick.
proof fn lemma_run_snoc(
    t: int,
    k: int,
    a0: Seq<Agent>,
    r0: Resources,
    p0: Seq<Game>,
    a1: Seq<Agent>,
    r1: Resources,
    p1: Seq<Game>,
    a2: Seq<Agent>,
    r2: Resources,
    p2: Seq<Game>,
)
    requires
        t <= k,
        spec_run(t, k, a0, r0, p0, a1, r1, p1),
        spec_tick_advance(k, a1, r1, p1, a2, r2, p2),
    ensures
        spec_run(t, k + 1, a0, r0, p0, a2, r2, p2),
    decreases k - t,
{
    if t == k {
        assert(spec_tick_advance(t, a0, r0, p0, a2, r2, p2));
        assert(spec_run(t + 1, k + 1, a2, r2, p2, a2, r2, p2));
    } else {
        assert(exists|am: Seq<Agent>, rm: Resources, pm: Seq<Game>|
            #![trigger spec_tick_advance(t, a0, r0, p0, am, rm, pm)]
            spec_tick_advance(t, a0, r0, p0, am, rm, pm) && spec_run(
                t + 1,
                k,
                am,
                rm,
                pm,
                a1,
                r1,
                p1,
            ));
        let (am, rm, pm) = choose|am: Seq<Agent>, rm: Resources, pm: Seq<Game>|
            #![trigger spec_tick_advance(t, a0, r0, p0, am, rm, pm)]
            spec_tick_advance(t, a0, r0, p0, am, rm, pm) && spec_run(
                t + 1,
                k,
                am,
                rm,
                pm,
                a1,
                r1,
                p1,
            );
        lemma_run_snoc(t + 1, k, am, rm, pm, a1, r1, p1, a2, r2, p2);
    }
}

/// Runs one whole simulation: builds the roster and the tile from the
/// configuration, seeds the single random stream of the run, and plays
/// `tick_count` ticks, each gathering the tick's fresh games plus the
/// consequents collected by the previous tick.  Whatever was drawn, the
/// final tile keeps the initial identities, repertoires and policies, the
/// reputation matrix stays at its uniform initial value, and the final
/// ledgers are what iterating the tick relation from the initial state
/// produces; only the ledgers differ from the start state.
pub fn run_simulation(configs: &crate::config::Configs) -> (t: Tile)
    ensures
        t.wf(),
        t.agents@.len() == configs.agent_count,
        forall|i: int|
            0 <= i < t.agents@.len() ==> {
                let a = #[trigger] t.agents@[i];
                a.id == i && a.base_actions@ == seq![AnyAction::Trivial] && a.decider
                    == spec_initial_decider(i, configs.agent_count) && a.participation_checker
                    == crate::roles::AnyParticipationChecker::TrivialChecker
            },
        t.reputations@.len() == configs.agent_count,
        forall|i: int|
            0 <= i < configs.agent_count ==> (#[trigger] t.reputations@[i])@.len()
                == configs.agent_count && forall|j: int|
                0 <= j < configs.agent_count ==> t.reputations@[i]@[j] == REPUTATION_INIT,
        exists|roster0: Seq<Agent>, pool_end: Seq<Game>|
            #![trigger spec_run(0, configs.tick_count as int, roster0, (Resources { coins: 0 }), Seq::<Game>::empty(), t.agents@, t.resources, pool_end)]
            roster0.len() == configs.agent_count && (forall|i: int|
                0 <= i < roster0.len() ==> {
                    let a = #[trigger] roster0[i];
                    a.id == i && a.resources == (Resources { coins: 0 }) && a.base_actions@
                        == seq![AnyAction::Trivial] && a.decider == spec_initial_decider(
                        i,
                        configs.agent_count,
                    ) && a.participation_checker
                        == crate::roles::AnyParticipationChecker::TrivialChecker
                }) && spec_run(
                0,
                configs.tick_count as int,
                roster0,
                (Resources { coins: 0 }),
                Seq::<Game>::empty(),
                t.agents@,
                t.resources,
                pool_end,
            ),
{
    let agents = initialize_agents(configs);
    let reputations = build_reputations(configs.agent_count);
    let mut rng = SimRng::new(configs.seed as u64);
    let mut tile = Tile::new(agents, Resources::new(), reputations);
    let mut games: Vec<Game> = Vec::new();
    let ghost reputations0 = tile.reputations;
    let ghost roster0 = tile.agents@;
    let mut tick: usize = 0;
    proof {
        assert(games@ =~= Seq::<Game>::empty());
    }
    while tick < configs.tick_count
        invariant
            tile.wf(),
            tile.agents@.len() == configs.agent_count,
            forall|i: int|
                0 <= i < tile.agents@.len() ==> {
                    let a = #[trigger] tile.agents@[i];
                    a.id == i && a.base_actions@ == seq![AnyAction::Trivial] && a.decider
                        == spec_initial_decider(i, configs.agent_count) && a.participation_checker
                        == crate::roles::AnyParticipationChecker::TrivialChecker
                },
            tile.reputations == reputations0,
            reputations0@.len() == configs.agent_count,
            forall|i: int|
                0 <= i < configs.agent_count ==> (#[trigger] reputations0@[i])@.len()
                    == configs.agent_count && forall|j: int|
                    0 <= j < configs.agent_count ==> reputations0@[i]@[j] == REPUTATION_INIT,
            forall|i: int| 0 <= i < games@.len() ==> (#[trigger] games@[i]).wf(),
            tick <= configs.tick_count,
            roster0.len() == configs.agent_count,
            forall|i: int|
                0 <= i < roster0.len() ==> {
                    let a = #[trigger] roster0[i];
                    a.id == i && a.resources == (Resources { coins: 0 }) && a.base_actions@
                        == seq![AnyAction::Trivial] && a.decider == spec_initial_decider(
                        i,
                        configs.agent_count,
                    ) && a.participation_checker
                        == crate::roles::AnyParticipationChecker::TrivialChecker
                },
            spec_run(
                0,
                tick as int,
                roster0,
                (Resources { coins: 0 }),
                Seq::<Game>::empty(),
                tile.agents@,
                tile.resources,
                games@,
            ),
        decreases configs.tick_count - tick,
    {
        let ghost pool_pre = games@;
        provide_all_games(&mut games, tick);
        proof {
            assert forall|i: int| 0 <= i < games@.len() implies (#[trigger] games@[i]).wf() by {
                if i < pool_pre.len() {
                    assert(games@[i] == pool_pre[i]);
                }
            }
        }
        let ghost pool1 = games@;
        let ghost provided = pool1.skip(pool_pre.len() as int);
        let ghost roster_pre = tile.agents@;
        let ghost res_pre = tile.resources;
        let played_tick = run_tick(&mut tile, &mut games, &mut rng);
        proof {
            assert forall|i: int| 0 <= i < tile.agents@.len() implies {
                let a = #[trigger] tile.agents@[i];
                a.id == i && a.base_actions@ == seq![AnyAction::Trivial] && a.decider
                    == spec_initial_decider(i, configs.agent_count) && a.participation_checker
                    == crate::roles::AnyParticipationChecker::TrivialChecker
            } by {
                assert(roster_shape_eq(tile.agents@, roster_pre));
                assert(roster_pre[i].id == i);
            }
            // This tick advanced the state exactly as the tick relation
            // describes: the pool grew by the provided block, the tick's
            // schedule was played, and the pool became its consequents.
            assert(pool1 =~= pool_pre + provided);
            let (order, avx) = choose|order: Seq<Game>, avx: Seq<Agent>|
                #![trigger spec_scheduled_games(order, avx)]
                order.to_multiset() == pool1.to_multiset() && avx.len() == roster_pre.len() && (
                forall|i: int|
                    0 <= i < avx.len() ==> crate::agent::agent_like(
                        #[trigger] avx[i],
                        roster_pre[i],
                    )) && played_tick@.len() == spec_scheduled_games(order, avx).len()
                    && spec_scheduled_pairs(order, avx).len() == played_tick@.len() && (forall|
                    k: int,
                |
                    0 <= k < played_tick@.len() ==> (#[trigger] played_tick@[k]).roles@
                        == spec_scheduled_games(order, avx)[k].roles@ && played_tick@[
                    k].assignment.pairs@ == spec_scheduled_pairs(order, avx)[k]) && games@
                    == spec_scheduled_consequents(order, avx);
            assert((pool_pre + provided).to_multiset() == pool1.to_multiset());
            assert(spec_provided_ok(tick as int, provided));
            assert(spec_tick_play(
                played_tick@,
                roster_pre,
                res_pre,
                tile.agents@,
                tile.resources,
            ));
            assert(played_tick@.len() == spec_scheduled_games(order, avx).len());
            assert(spec_tick_advance(
                tick as int,
                roster_pre,
                res_pre,
                pool_pre,
                tile.agents@,
                tile.resources,
                games@,
            ));
            lemma_run_snoc(
                0,
                tick as int,
                roster0,
                (Resources { coins: 0 }),
                Seq::<Game>::empty(),
                roster_pre,
                res_pre,
                pool_pre,
                tile.agents@,
                tile.resources,
                games@,
            );
        }
        tick = tick + 1;
    }
    tile
}

} // verus!
