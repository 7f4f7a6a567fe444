//! The assigner: matching available agents to a game's role slots.
//!
//! Roles are processed in the game's declared order.  For each role the
//! available agents are scanned in their current order and matched
//! first-fit, up to the role's maximum multiplicity.  A role that reaches
//! its minimum consumes its matched agents (they leave the available list
//! and cannot be matched again this tick); an optional role short of its
//! minimum is simply left unfilled; a required role short of its minimum
//! aborts the whole assignment, and the game is not played.  There is no
//! backtracking: agents consumed by earlier roles stay consumed even when a
//! later required role fails because of it.  This greedy first-come,
//! first-served policy is deliberate.
//!
//! `spec_assign` is the complete functional specification of this process;
//! the executable assigner is proved to return exactly its result.

use vstd::prelude::*;
use crate::agent::{Agent, AgentID};
use crate::game::Game;
use crate::roles::{AnyParticipationChecker, AnyRole, RoleEntry};

verus! {

/// Whether the agent's capability check accepts filling `r` in `g`.
pub open spec fn spec_eligible(a: Agent, g: Game, r: AnyRole) -> bool {
    match a.participation_checker {
        AnyParticipationChecker::TrivialChecker => true,
    }
}

/// Runs the agent's capability check for a proposed role.
pub fn check_participation(a: &Agent, g: &Game, proposed_role: &AnyRole) -> (ok: bool)
    ensures
        ok == spec_eligible(*a, *g, *proposed_role),
{
    match a.participation_checker {
        AnyParticipationChecker::TrivialChecker => true,
    }
}

/// The ids matched to one role: the first eligible agents of `avail`, in
/// order, at most `k` of them.
pub open spec fn spec_take_ids(avail: Seq<Agent>, g: Game, r: AnyRole, k: int) -> Seq<AgentID>
    decreases avail.len(),
{
    if avail.len() == 0 || k <= 0 {
        Seq::empty()
    } else if spec_eligible(avail[0], g, r) {
        seq![avail[0].id] + spec_take_ids(avail.drop_first(), g, r, k - 1)
    } else {
        spec_take_ids(avail.drop_first(), g, r, k)
    }
}

/// The available list after the agents with the picked ids are consumed:
/// the unpicked agents, in their original order.
pub open spec fn spec_remove_ids(avail: Seq<Agent>, picked: Seq<AgentID>) -> Seq<Agent>
    decreases avail.len(),
{
    if avail.len() == 0 {
        Seq::empty()
    } else {
        let rest = spec_remove_ids(avail.drop_first(), picked);
        if picked.contains(avail[0].id) {
            rest
        } else {
            seq![avail[0]] + rest
        }
    }
}

/// The complete functional specification of the assigner: the produced
/// pairs (agent id, role) when the game can be played, or nothing when a
/// required role falls short — together with the available list left
/// behind in either case (consumption by earlier roles persists even when
/// a later required role aborts).
pub open spec fn spec_assign(roles: Seq<RoleEntry>, g: Game, avail: Seq<Agent>) -> (Option<
    Seq<(AgentID, AnyRole)>,
>, Seq<Agent>)
    decreases roles.len(),
{
    if roles.len() == 0 {
        (Option::Some(Seq::empty()), avail)
    } else {
        let e = roles[0];
        let min = e.description.uniqueness.spec_min() as int;
        let max = e.description.uniqueness.spec_max() as int;
        let picked = spec_take_ids(avail, g, e.role, max);
        if picked.len() >= min {
            let rest = spec_assign(roles.drop_first(), g, spec_remove_ids(avail, picked));
            let block = picked.map_values(|id: AgentID| (id, e.role));
            (
                match rest.0 {
                    Option::None => Option::<Seq<(AgentID, AnyRole)>>::None,
                    Option::Some(pairs) => Option::Some(block + pairs),
                },
                rest.1,
            )
        } else if e.description.uniqueness.spec_required() {
            (Option::None, avail)
        } else {
            spec_assign(roles.drop_first(), g, avail)
        }
    }
}

/// The pairs of a successful assignment (empty when the assignment fails).
pub open spec fn spec_assign_pairs(roles: Seq<RoleEntry>, g: Game, avail: Seq<Agent>) -> Seq<
    (AgentID, AnyRole),
> {
    match spec_assign(roles, g, avail).0 {
        Option::Some(pairs) => pairs,
        Option::None => Seq::empty(),
    }
}

/// A one-tick-lived assignment: which agent fills which role of one game.
#[derive(Debug, PartialEq, Eq)]
pub struct Assignment {
    pub pairs: Vec<(AgentID, AnyRole)>,
}

/// Whether `ids` holds `id`.
fn id_in(ids: &Vec<AgentID>, id: AgentID) -> (found: bool)
    ensures
        found == ids@.contains(id),
{
    let mut i: usize = 0;
    while i < ids.len()
        invariant
            0 <= i <= ids@.len(),
            forall|j: int| 0 <= j < i ==> ids@[j] != id,
        decreases ids@.len() - i,
    {
        if ids[i] == id {
            assert(ids@.contains(id));
            return true;
        }
        i = i + 1;
    }
    false
}

/// Consumes the agents with the picked ids: they leave `v`; everyone else
/// stays, in order.
fn remove_agents(v: &mut Vec<Agent>, picked: &Vec<AgentID>)
    ensures
        final(v)@ == spec_remove_ids(old(v)@, picked@),
{
    let mut out: Vec<Agent> = Vec::new();
    while v.len() > 0
        invariant
            spec_remove_ids(old(v)@, picked@) == out@ + spec_remove_ids(v@, picked@),
        decreases v@.len(),
    {
        let ghost pre = v@;
        let a = v.remove(0);
        proof {
            assert(pre =~= seq![a] + v@);
            assert(pre.drop_first() =~= v@);
            assert(pre[0] == a);
        }
        if id_in(picked, a.id) {
            proof {
                assert(spec_remove_ids(pre, picked@) == spec_remove_ids(v@, picked@));
            }
        } else {
            proof {
                assert(spec_remove_ids(pre, picked@) == seq![a] + spec_remove_ids(v@, picked@));
            }
            let ghost out_pre = out@;
            out.push(a);
            proof {
                assert(out@ + spec_remove_ids(v@, picked@) =~= out_pre + (seq![a]
                    + spec_remove_ids(v@, picked@)));
            }
        }
    }
    proof {
        assert(spec_remove_ids(v@, picked@) =~= Seq::<Agent>::empty());
        assert(out@ + Seq::<Agent>::empty() =~= out@);
    }
    *v = out;
}

/// Appends `(id, role)` for every picked id.
fn append_pairs(assigned: &mut Vec<(AgentID, AnyRole)>, picked: &Vec<AgentID>, role: AnyRole)
    ensures
        final(assigned)@ == old(assigned)@ + picked@.map_values(|id: AgentID| (id, role)),
{
    let mut i: usize = 0;
    while i < picked.len()
        invariant
            0 <= i <= picked@.len(),
            assigned@ =~= old(assigned)@ + picked@.subrange(0, i as int).map_values(
                |id: AgentID| (id, role),
            ),
        decreases picked@.len() - i,
    {
        assigned.push((picked[i], role));
        proof {
            assert(picked@.subrange(0, i + 1).map_values(|id: AgentID| (id, role)) =~= picked@
                .subrange(0, i as int).map_values(|id: AgentID| (id, role)).push(
                (picked@[i as int], role),
            ));
        }
        i = i + 1;
    }
    proof {
        assert(picked@.subrange(0, picked@.len() as int) =~= picked@);
    }
}

/// Matches available agents to the game's role slots, greedily and in
/// declared role order, consuming every matched agent from
/// `available_agents`.  Returns the assignment exactly as `spec_assign`
/// describes it, or nothing when a required role falls short (consumption
/// by the roles already accepted persists either way).
///
/// An unreachable multiplicity contract or a role declared twice is a
/// configuration-time defect, never a runtime condition, so the sane role
/// list is demanded up front; the engine maintains it for every game it
/// handles, and unverified callers test it with `Game::is_well_formed`.
pub fn assign_and_consume_agents(game: &Game, available_agents: &mut Vec<Agent>) -> (r: Option<
    Assignment,
>)
    requires
        crate::game::roles_wf(game.roles@),
    ensures
        final(available_agents)@ == spec_assign(game.roles@, *game, old(available_agents)@).1,
        match r {
            Option::Some(asg) => spec_assign(game.roles@, *game, old(available_agents)@).0
                == Option::Some(asg.pairs@),
            Option::None => spec_assign(game.roles@, *game, old(available_agents)@).0 is None,
        },
{
    let ghost avail0 = available_agents@;
    let mut assigned: Vec<(AgentID, AnyRole)> = Vec::new();
    let mut ri: usize = 0;
    proof {
        assert(game.roles@.skip(0) =~= game.roles@);
    }
    while ri < game.roles.len()
        invariant
            0 <= ri <= game.roles@.len(),
            avail0 == old(available_agents)@,
            spec_assign(game.roles@, *game, avail0).1 == spec_assign(
                game.roles@.skip(ri as int),
                *game,
                available_agents@,
            ).1,
            spec_assign(game.roles@, *game, avail0).0 == (match spec_assign(
                game.roles@.skip(ri as int),
                *game,
                available_agents@,
            ).0 {
                Option::None => Option::<Seq<(AgentID, AnyRole)>>::None,
                Option::Some(p) => Option::Some(assigned@ + p),
            }),
        decreases game.roles@.len() - ri,
    {
        let ghost roles_rest = game.roles@.skip(ri as int);
        let ghost avail_cur = available_agents@;
        proof {
            assert(roles_rest[0] == game.roles@[ri as int]);
            assert(roles_rest.drop_first() =~= game.roles@.skip(ri as int + 1));
        }
        let e = game.roles[ri];
        let (min, max) = match e.description.uniqueness {
            crate::roles::AnyUniqueness::RequiredMultipletRole(a, b) => (a, b),
            crate::roles::AnyUniqueness::OptionalMultipletRole(a, b) => (a, b),
        };
        // Scan the available agents in order, first-fit, up to `max`.
        let mut picked: Vec<AgentID> = Vec::new();
        let mut k_rem: usize = max;
        let mut ai: usize = 0;
        proof {
            assert(available_agents@.skip(0) =~= available_agents@);
            assert(Seq::<AgentID>::empty() + spec_take_ids(available_agents@, *game, e.role, max as int)
                =~= spec_take_ids(available_agents@, *game, e.role, max as int));
        }
        while ai < available_agents.len() && k_rem > 0
            invariant
                0 <= ai <= available_agents@.len(),
                available_agents@ == avail_cur,
                k_rem <= max,
                picked@.len() == max - k_rem,
                e == game.roles@[ri as int],
                ri < game.roles@.len(),
                max == e.description.uniqueness.spec_max(),
                spec_take_ids(avail_cur, *game, e.role, max as int) == picked@ + spec_take_ids(
                    avail_cur.skip(ai as int),
                    *game,
                    e.role,
                    k_rem as int,
                ),
            decreases avail_cur.len() - ai,
        {
            let ghost rest_avail = avail_cur.skip(ai as int);
            let ghost k_old = k_rem as int;
            let ghost picked_old = picked@;
            proof {
                assert(rest_avail[0] == avail_cur[ai as int]);
                assert(rest_avail.drop_first() =~= avail_cur.skip(ai as int + 1));
            }
            let eligible = check_participation(&available_agents[ai], game, &e.role);
            if eligible {
                let id = available_agents[ai].id;
                picked.push(id);
                k_rem = k_rem - 1;
                proof {
                    assert(spec_take_ids(rest_avail, *game, e.role, k_old) == seq![id]
                        + spec_take_ids(
                        avail_cur.skip(ai as int + 1),
                        *game,
                        e.role,
                        k_old - 1,
                    ));
                    assert(picked@ + spec_take_ids(
                        avail_cur.skip(ai as int + 1),
                        *game,
                        e.role,
                        k_old - 1,
                    ) =~= picked_old + spec_take_ids(rest_avail, *game, e.role, k_old));
                }
            } else {
                proof {
                    assert(spec_take_ids(rest_avail, *game, e.role, k_old) == spec_take_ids(
                        avail_cur.skip(ai as int + 1),
                        *game,
                        e.role,
                        k_old,
                    ));
                }
            }
            ai = ai + 1;
        }
        proof {
            if ai == avail_cur.len() {
                assert(avail_cur.skip(ai as int) =~= Seq::<Agent>::empty());
            }
            assert(spec_take_ids(avail_cur.skip(ai as int), *game, e.role, k_rem as int)
                =~= Seq::<AgentID>::empty());
            assert(picked@ + Seq::<AgentID>::empty() =~= picked@);
            assert(picked@ == spec_take_ids(avail_cur, *game, e.role, max as int));
        }
        if picked.len() >= min {
            let ghost pre_assigned = assigned@;
            remove_agents(available_agents, &picked);
            append_pairs(&mut assigned, &picked, e.role);
            proof {
                let block = picked@.map_values(|id: AgentID| (id, e.role));
                let rest_cur = spec_assign(roles_rest, *game, avail_cur);
                let rest_new = spec_assign(
                    game.roles@.skip(ri as int + 1),
                    *game,
                    available_agents@,
                );
                assert(available_agents@ == spec_remove_ids(avail_cur, picked@));
                assert(rest_cur.1 == rest_new.1);
                assert(rest_cur.0 == (match rest_new.0 {
                    Option::None => Option::<Seq<(AgentID, AnyRole)>>::None,
                    Option::Some(p) => Option::Some(block + p),
                }));
                match rest_new.0 {
                    Option::Some(p) => {
                        assert(pre_assigned + (block + p) =~= (pre_assigned + block) + p);
                    },
                    Option::None => {},
                }
            }
        } else {
            match e.description.uniqueness {
                crate::roles::AnyUniqueness::RequiredMultipletRole(_, _) => {
                    proof {
                        let rest_cur = spec_assign(roles_rest, *game, avail_cur);
                        assert(rest_cur.0 is None);
                        assert(rest_cur.1 == avail_cur);
                    }
                    return Option::None;
                },
                crate::roles::AnyUniqueness::OptionalMultipletRole(_, _) => {},
            }
        }
        ri = ri + 1;
    }
    proof {
        assert(game.roles@.skip(game.roles@.len() as int) =~= Seq::<RoleEntry>::empty());
        assert(assigned@ + Seq::<(AgentID, AnyRole)>::empty() =~= assigned@);
    }
    Option::Some(Assignment { pairs: assigned })
}

/// How many of the pairs assign role `r`.
pub open spec fn spec_count_role(pairs: Seq<(AgentID, AnyRole)>, r: AnyRole) -> int
    decreases pairs.len(),
{
    if pairs.len() == 0 {
        0
    } else {
        (if pairs[0].1 == r {
            1int
        } else {
            0int
        }) + spec_count_role(pairs.drop_first(), r)
    }
}

proof fn lemma_count_concat(a: Seq<(AgentID, AnyRole)>, b: Seq<(AgentID, AnyRole)>, r: AnyRole)
    ensures
        spec_count_role(a + b, r) == spec_count_role(a, r) + spec_count_role(b, r),
    decreases a.len(),
{
    if a.len() == 0 {
        assert(a + b =~= b);
    } else {
        assert((a + b).drop_first() =~= a.drop_first() + b);
        lemma_count_concat(a.drop_first(), b, r);
    }
}

proof fn lemma_count_block(ids: Seq<AgentID>, role: AnyRole, r: AnyRole)
    ensures
        spec_count_role(ids.map_values(|id: AgentID| (id, role)), r) == (if role == r {
            ids.len() as int
        } else {
            0int
        }),
    decreases ids.len(),
{
    let block = ids.map_values(|id: AgentID| (id, role));
    if ids.len() > 0 {
        assert(block.drop_first() =~= ids.drop_first().map_values(|id: AgentID| (id, role)));
        lemma_count_block(ids.drop_first(), role, r);
    }
}

proof fn lemma_count_zero_when_absent(pairs: Seq<(AgentID, AnyRole)>, r: AnyRole)
    requires
        forall|i: int| 0 <= i < pairs.len() ==> (#[trigger] pairs[i]).1 != r,
    ensures
        spec_count_role(pairs, r) == 0,
    decreases pairs.len(),
{
    if pairs.len() > 0 {
        lemma_count_zero_when_absent(pairs.drop_first(), r);
    }
}

/// At most `k` agents are matched to one role.
proof fn lemma_take_ids_len(avail: Seq<Agent>, g: Game, r: AnyRole, k: int)
    ensures
        spec_take_ids(avail, g, r, k).len() <= (if k >= 0 {
            k
        } else {
            0int
        }),
    decreases avail.len(),
{
    if avail.len() > 0 && k > 0 {
        lemma_take_ids_len(avail.drop_first(), g, r, k - 1);
        lemma_take_ids_len(avail.drop_first(), g, r, k);
    }
}

/// Every role of a successful assignment is one of the game's declared
/// roles.
pub proof fn lemma_assign_pairs_roles(roles: Seq<RoleEntry>, g: Game, avail: Seq<Agent>)
    ensures
        match spec_assign(roles, g, avail).0 {
            Option::Some(pairs) => forall|i: int|
                0 <= i < pairs.len() ==> exists|k: int|
                    0 <= k < roles.len() && roles[k].role == (#[trigger] pairs[i]).1,
            Option::None => true,
        },
    decreases roles.len(),
{
    if roles.len() > 0 {
        let e = roles[0];
        let maxv = e.description.uniqueness.spec_max() as int;
        let minv = e.description.uniqueness.spec_min() as int;
        let picked = spec_take_ids(avail, g, e.role, maxv);
        if picked.len() >= minv {
            let ravail = spec_remove_ids(avail, picked);
            lemma_assign_pairs_roles(roles.drop_first(), g, ravail);
            let block = picked.map_values(|id: AgentID| (id, e.role));
            match spec_assign(roles.drop_first(), g, ravail).0 {
                Option::Some(p) => {
                    let pairs = block + p;
                    assert forall|i: int| 0 <= i < pairs.len() implies exists|k: int|
                        0 <= k < roles.len() && roles[k].role == (#[trigger] pairs[i]).1 by {
                        if i < block.len() {
                            assert(roles[0].role == pairs[i].1);
                        } else {
                            assert(pairs[i] == p[i - block.len()]);
                            let k0 = choose|k0: int|
                                0 <= k0 < roles.drop_first().len() && roles.drop_first()[k0].role
                                    == p[i - block.len()].1;
                            assert(roles[k0 + 1].role == pairs[i].1);
                        }
                    }
                },
                Option::None => {},
            }
        } else if !e.description.uniqueness.spec_required() {
            lemma_assign_pairs_roles(roles.drop_first(), g, avail);
            match spec_assign(roles.drop_first(), g, avail).0 {
                Option::Some(p) => {
                    assert forall|i: int| 0 <= i < p.len() implies exists|k: int|
                        0 <= k < roles.len() && roles[k].role == (#[trigger] p[i]).1 by {
                        let k0 = choose|k0: int|
                            0 <= k0 < roles.drop_first().len() && roles.drop_first()[k0].role
                                == p[i].1;
                        assert(roles[k0 + 1].role == p[i].1);
                    }
                },
                Option::None => {},
            }
        }
    }
}

/// The multiplicity bound one declared role must meet in a successful
/// assignment: within `min ..= max` when required; unfilled or within
/// `min ..= max` when optional.
pub open spec fn spec_role_count_ok(e: RoleEntry, pairs: Seq<(AgentID, AnyRole)>) -> bool {
    let cnt = spec_count_role(pairs, e.role);
    let minv = e.description.uniqueness.spec_min() as int;
    let maxv = e.description.uniqueness.spec_max() as int;
    if e.description.uniqueness.spec_required() {
        minv <= cnt <= maxv
    } else {
        cnt == 0 || (minv <= cnt <= maxv)
    }
}

/// The multiplicity invariant: in every successful assignment of a game
/// whose declared roles are distinct, every required role is filled within
/// its `min ..= max` bounds, and every optional role is unfilled or within
/// its bounds.
pub proof fn lemma_assign_multiplicity(roles: Seq<RoleEntry>, g: Game, avail: Seq<Agent>)
    requires
        forall|i: int, j: int| 0 <= i < j < roles.len() ==> roles[i].role != roles[j].role,
    ensures
        match spec_assign(roles, g, avail).0 {
            Option::Some(pairs) => forall|k: int|
                0 <= k < roles.len() ==> spec_role_count_ok(#[trigger] roles[k], pairs),
            Option::None => true,
        },
    decreases roles.len(),
{
    if roles.len() > 0 {
        let e = roles[0];
        let maxv = e.description.uniqueness.spec_max() as int;
        let minv = e.description.uniqueness.spec_min() as int;
        let picked = spec_take_ids(avail, g, e.role, maxv);
        if picked.len() >= minv {
            let ravail = spec_remove_ids(avail, picked);
            lemma_assign_multiplicity(roles.drop_first(), g, ravail);
            lemma_assign_pairs_roles(roles.drop_first(), g, ravail);
            let block = picked.map_values(|id: AgentID| (id, e.role));
            match spec_assign(roles.drop_first(), g, ravail).0 {
                Option::Some(p) => {
                    let pairs = block + p;
                    assert forall|k: int| 0 <= k < roles.len() implies spec_role_count_ok(
                        #[trigger] roles[k],
                        pairs,
                    ) by {
                        let r = roles[k].role;
                        lemma_count_concat(block, p, r);
                        lemma_count_block(picked, e.role, r);
                        if k == 0 {
                            assert forall|i: int| 0 <= i < p.len() implies (#[trigger] p[i]).1
                                != e.role by {
                                let k0 = choose|k0: int|
                                    0 <= k0 < roles.drop_first().len() && roles.drop_first()[
                                        k0
                                    ].role == p[i].1;
                                assert(roles[k0 + 1].role == p[i].1);
                            }
                            lemma_count_zero_when_absent(p, e.role);
                            lemma_take_ids_len(avail, g, e.role, maxv);
                        } else {
                            assert(roles.drop_first()[k - 1] == roles[k]);
                            assert(roles[k].role != e.role);
                        }
                    }
                },
                Option::None => {},
            }
        } else if !e.description.uniqueness.spec_required() {
            lemma_assign_multiplicity(roles.drop_first(), g, avail);
            lemma_assign_pairs_roles(roles.drop_first(), g, avail);
            match spec_assign(roles.drop_first(), g, avail).0 {
                Option::Some(p) => {
                    assert forall|k: int| 0 <= k < roles.len() implies spec_role_count_ok(
                        #[trigger] roles[k],
                        p,
                    ) by {
                        if k == 0 {
                            assert forall|i: int| 0 <= i < p.len() implies (#[trigger] p[i]).1
                                != e.role by {
                                let k0 = choose|k0: int|
                                    0 <= k0 < roles.drop_first().len() && roles.drop_first()[
                                        k0
                                    ].role == p[i].1;
                                assert(roles[k0 + 1].role == p[i].1);
                            }
                            lemma_count_zero_when_absent(p, e.role);
                        } else {
                            assert(roles.drop_first()[k - 1] == roles[k]);
                        }
                    }
                },
                Option::None => {},
            }
        }
    }
}

/// What one role's turn does to the available list: its matched agents
/// are consumed when the role reaches its minimum, nothing otherwise.
pub open spec fn spec_assign_step(avail: Seq<Agent>, e: RoleEntry, g: Game) -> Seq<Agent> {
    let picked = spec_take_ids(avail, g, e.role, e.description.uniqueness.spec_max() as int);
    if picked.len() >= e.description.uniqueness.spec_min() as int {
        spec_remove_ids(avail, picked)
    } else {
        avail
    }
}

/// The available list at the moment role `i` is considered, after the
/// earlier roles took their turns.
pub open spec fn spec_avail_at(roles: Seq<RoleEntry>, g: Game, avail: Seq<Agent>, i: int) -> Seq<
    Agent,
>
    decreases i,
{
    if i <= 0 {
        avail
    } else {
        spec_avail_at(roles.drop_first(), g, spec_assign_step(avail, roles[0], g), i - 1)
    }
}

/// Why a game is skipped: whenever the assigner returns nothing, some
/// required role could gather fewer than its minimum multiplicity of
/// eligible agents at the moment of its turn.
pub proof fn lemma_assign_none_witness(roles: Seq<RoleEntry>, g: Game, avail: Seq<Agent>)
    requires
        spec_assign(roles, g, avail).0 is None,
    ensures
        exists|i: int|
            0 <= i < roles.len() && (#[trigger] roles[i]).description.uniqueness.spec_required()
                && spec_take_ids(
                spec_avail_at(roles, g, avail, i),
                g,
                roles[i].role,
                roles[i].description.uniqueness.spec_max() as int,
            ).len() < roles[i].description.uniqueness.spec_min() as int,
    decreases roles.len(),
{
    let e = roles[0];
    let maxv = e.description.uniqueness.spec_max() as int;
    let minv = e.description.uniqueness.spec_min() as int;
    let picked = spec_take_ids(avail, g, e.role, maxv);
    if picked.len() >= minv {
        let ravail = spec_remove_ids(avail, picked);
        lemma_assign_none_witness(roles.drop_first(), g, ravail);
        let i0 = choose|i0: int|
            0 <= i0 < roles.drop_first().len() && (#[trigger] roles.drop_first()[
            i0]).description.uniqueness.spec_required() && spec_take_ids(
                spec_avail_at(roles.drop_first(), g, ravail, i0),
                g,
                roles.drop_first()[i0].role,
                roles.drop_first()[i0].description.uniqueness.spec_max() as int,
            ).len() < roles.drop_first()[i0].description.uniqueness.spec_min() as int;
        assert(spec_assign_step(avail, e, g) == ravail);
        assert(spec_avail_at(roles, g, avail, i0 + 1) == spec_avail_at(
            roles.drop_first(),
            g,
            ravail,
            i0,
        ));
        assert(roles[i0 + 1] == roles.drop_first()[i0]);
    } else if e.description.uniqueness.spec_required() {
        assert(spec_avail_at(roles, g, avail, 0) == avail);
        assert(roles[0].description.uniqueness.spec_required() && spec_take_ids(
            spec_avail_at(roles, g, avail, 0),
            g,
            roles[0].role,
            roles[0].description.uniqueness.spec_max() as int,
        ).len() < roles[0].description.uniqueness.spec_min() as int);
    } else {
        lemma_assign_none_witness(roles.drop_first(), g, avail);
        let i0 = choose|i0: int|
            0 <= i0 < roles.drop_first().len() && (#[trigger] roles.drop_first()[
            i0]).description.uniqueness.spec_required() && spec_take_ids(
                spec_avail_at(roles.drop_first(), g, avail, i0),
                g,
                roles.drop_first()[i0].role,
                roles.drop_first()[i0].description.uniqueness.spec_max() as int,
            ).len() < roles.drop_first()[i0].description.uniqueness.spec_min() as int;
        assert(spec_assign_step(avail, e, g) == avail);
        assert(spec_avail_at(roles, g, avail, i0 + 1) == spec_avail_at(
            roles.drop_first(),
            g,
            avail,
            i0,
        ));
        assert(roles[i0 + 1] == roles.drop_first()[i0]);
    }
}

/// No two agents of a roster share an id.
pub open spec fn distinct_ids(s: Seq<Agent>) -> bool {
    forall|i: int, j: int| 0 <= i < j < s.len() ==> s[i].id != s[j].id
}

/// Ids matched to a role are ids of available agents.
proof fn lemma_take_ids_membership(avail: Seq<Agent>, g: Game, r: AnyRole, k: int)
    ensures
        forall|i: int| 0 <= i < spec_take_ids(avail, g, r, k).len() ==> exists|j: int|
            0 <= j < avail.len() && avail[j].id == #[trigger] spec_take_ids(avail, g, r, k)[i],
    decreases avail.len(),
{
    let taken = spec_take_ids(avail, g, r, k);
    if avail.len() == 0 || k <= 0 {
    } else {
        lemma_take_ids_membership(avail.drop_first(), g, r, k - 1);
        lemma_take_ids_membership(avail.drop_first(), g, r, k);
        let sub1 = spec_take_ids(avail.drop_first(), g, r, k - 1);
        let subk = spec_take_ids(avail.drop_first(), g, r, k);
        assert forall|i: int| 0 <= i < taken.len() implies exists|j: int|
            0 <= j < avail.len() && avail[j].id == #[trigger] taken[i] by {
            if spec_eligible(avail[0], g, r) {
                if i == 0 {
                    assert(avail[0].id == taken[0]);
                } else {
                    assert(taken[i] == sub1[i - 1]);
                    let j0 = choose|j0: int|
                        0 <= j0 < avail.drop_first().len() && avail.drop_first()[j0].id == sub1[
                            i - 1
                        ];
                    assert(avail[j0 + 1].id == taken[i]);
                }
            } else {
                assert(taken[i] == subk[i]);
                let j0 = choose|j0: int|
                    0 <= j0 < avail.drop_first().len() && avail.drop_first()[j0].id == subk[i];
                assert(avail[j0 + 1].id == taken[i]);
            }
        }
    }
}

/// Matched ids are pairwise distinct when the available ids are.
proof fn lemma_take_ids_distinct(avail: Seq<Agent>, g: Game, r: AnyRole, k: int)
    requires
        distinct_ids(avail),
    ensures
        forall|i: int, j: int|
            0 <= i < j < spec_take_ids(avail, g, r, k).len() ==> spec_take_ids(avail, g, r, k)[i]
                != spec_take_ids(avail, g, r, k)[j],
    decreases avail.len(),
{
    let taken = spec_take_ids(avail, g, r, k);
    if avail.len() == 0 || k <= 0 {
    } else {
        assert(distinct_ids(avail.drop_first()));
        lemma_take_ids_distinct(avail.drop_first(), g, r, k - 1);
        lemma_take_ids_distinct(avail.drop_first(), g, r, k);
        lemma_take_ids_membership(avail.drop_first(), g, r, k - 1);
        let sub1 = spec_take_ids(avail.drop_first(), g, r, k - 1);
        let subk = spec_take_ids(avail.drop_first(), g, r, k);
        assert forall|i: int, j: int| 0 <= i < j < taken.len() implies taken[i] != taken[j] by {
            if spec_eligible(avail[0], g, r) {
                if i == 0 {
                    assert(taken[j] == sub1[j - 1]);
                    let j0 = choose|j0: int|
                        0 <= j0 < avail.drop_first().len() && avail.drop_first()[j0].id == sub1[
                            j - 1
                        ];
                    assert(avail[j0 + 1].id == taken[j]);
                    assert(avail[0].id != avail[j0 + 1].id);
                } else {
                    assert(taken[i] == sub1[i - 1] && taken[j] == sub1[j - 1]);
                }
            } else {
                assert(taken[i] == subk[i] && taken[j] == subk[j]);
            }
        }
    }
}

/// What consumption leaves: agents of the available list whose id was not
/// picked, all of them still pairwise distinct.
proof fn lemma_remove_ids_membership(avail: Seq<Agent>, picked: Seq<AgentID>)
    ensures
        forall|i: int| 0 <= i < spec_remove_ids(avail, picked).len() ==> avail.contains(
            #[trigger] spec_remove_ids(avail, picked)[i],
        ) && !picked.contains(spec_remove_ids(avail, picked)[i].id),
    decreases avail.len(),
{
    let rem = spec_remove_ids(avail, picked);
    if avail.len() > 0 {
        lemma_remove_ids_membership(avail.drop_first(), picked);
        let sub = spec_remove_ids(avail.drop_first(), picked);
        assert forall|i: int| 0 <= i < rem.len() implies avail.contains(#[trigger] rem[i])
            && !picked.contains(rem[i].id) by {
            if picked.contains(avail[0].id) {
                assert(rem[i] == sub[i]);
                let j0 = choose|j0: int|
                    0 <= j0 < avail.drop_first().len() && avail.drop_first()[j0] == sub[i];
                assert(avail[j0 + 1] == rem[i]);
            } else {
                if i == 0 {
                    assert(avail[0] == rem[0]);
                } else {
                    assert(rem[i] == sub[i - 1]);
                    let j0 = choose|j0: int|
                        0 <= j0 < avail.drop_first().len() && avail.drop_first()[j0] == sub[i - 1];
                    assert(avail[j0 + 1] == rem[i]);
                }
            }
        }
    }
}

proof fn lemma_remove_ids_distinct(avail: Seq<Agent>, picked: Seq<AgentID>)
    requires
        distinct_ids(avail),
    ensures
        distinct_ids(spec_remove_ids(avail, picked)),
    decreases avail.len(),
{
    let rem = spec_remove_ids(avail, picked);
    if avail.len() > 0 {
        assert(distinct_ids(avail.drop_first()));
        lemma_remove_ids_distinct(avail.drop_first(), picked);
        lemma_remove_ids_membership(avail.drop_first(), picked);
        let sub = spec_remove_ids(avail.drop_first(), picked);
        if !picked.contains(avail[0].id) {
            assert forall|i: int, j: int| 0 <= i < j < rem.len() implies rem[i].id != rem[j].id by {
                if i == 0 {
                    assert(rem[j] == sub[j - 1]);
                    assert(avail.drop_first().contains(sub[j - 1]));
                    let j0 = choose|j0: int|
                        0 <= j0 < avail.drop_first().len() && avail.drop_first()[j0] == sub[j - 1];
                    assert(avail[j0 + 1] == rem[j]);
                    assert(avail[0].id != avail[j0 + 1].id);
                } else {
                    assert(rem[i] == sub[i - 1] && rem[j] == sub[j - 1]);
                }
            }
        }
    }
}

/// Consumption and no-double-assignment, over one game: a successful
/// assignment draws its ids from the available list, assigns no id twice,
/// and consumes every assigned id, so the ids still available afterwards
/// are disjoint from the assigned ones; what stays available is a
/// selection of what was available, whether or not the game was played.
pub proof fn lemma_assign_consumption(roles: Seq<RoleEntry>, g: Game, avail: Seq<Agent>)
    requires
        distinct_ids(avail),
    ensures
        ({
            let res = spec_assign(roles, g, avail);
            distinct_ids(res.1) && (forall|i: int|
                0 <= i < res.1.len() ==> avail.contains(#[trigger] res.1[i])) && match res.0 {
                Option::Some(pairs) => (forall|i: int|
                    0 <= i < pairs.len() ==> exists|j: int|
                        0 <= j < avail.len() && avail[j].id == (#[trigger] pairs[i]).0) && (
                forall|i: int, j: int|
                    0 <= i < j < pairs.len() ==> pairs[i].0 != pairs[j].0) && (forall|
                    i: int,
                    j: int,
                |
                    0 <= i < pairs.len() && 0 <= j < res.1.len() ==> (#[trigger] pairs[i]).0 != (
                    #[trigger] res.1[j]).id),
                Option::None => true,
            }
        }),
    decreases roles.len(),
{
    let res = spec_assign(roles, g, avail);
    if roles.len() == 0 {
    } else {
        let e = roles[0];
        let maxv = e.description.uniqueness.spec_max() as int;
        let minv = e.description.uniqueness.spec_min() as int;
        let picked = spec_take_ids(avail, g, e.role, maxv);
        if picked.len() >= minv {
            let ravail = spec_remove_ids(avail, picked);
            lemma_take_ids_membership(avail, g, e.role, maxv);
            lemma_take_ids_distinct(avail, g, e.role, maxv);
            lemma_remove_ids_membership(avail, picked);
            lemma_remove_ids_distinct(avail, picked);
            lemma_assign_consumption(roles.drop_first(), g, ravail);
            let rest = spec_assign(roles.drop_first(), g, ravail);
            // What stays available comes from the available list.
            assert forall|i: int| 0 <= i < res.1.len() implies avail.contains(
                #[trigger] res.1[i],
            ) by {
                assert(ravail.contains(res.1[i]));
                let j0 = choose|j0: int| 0 <= j0 < ravail.len() && ravail[j0] == res.1[i];
            }
            match rest.0 {
                Option::Some(p) => {
                    let block = picked.map_values(|id: AgentID| (id, e.role));
                    let pairs = block + p;
                    // Every assigned id is an id of the available list.
                    assert forall|i: int| 0 <= i < pairs.len() implies exists|j: int|
                        0 <= j < avail.len() && avail[j].id == (#[trigger] pairs[i]).0 by {
                        if i < block.len() {
                            assert(pairs[i].0 == picked[i]);
                        } else {
                            assert(pairs[i] == p[i - block.len()]);
                            let j0 = choose|j0: int|
                                0 <= j0 < ravail.len() && ravail[j0].id == p[i - block.len()].0;
                            assert(avail.contains(ravail[j0]));
                            let j1 = choose|j1: int|
                                0 <= j1 < avail.len() && avail[j1] == ravail[j0];
                            assert(avail[j1].id == pairs[i].0);
                        }
                    }
                    // No id is assigned twice.
                    assert forall|i: int, j: int| 0 <= i < j < pairs.len() implies pairs[i].0
                        != pairs[j].0 by {
                        if j < block.len() {
                            assert(pairs[i].0 == picked[i] && pairs[j].0 == picked[j]);
                        } else if i >= block.len() {
                            assert(pairs[i] == p[i - block.len()] && pairs[j] == p[j
                                - block.len()]);
                        } else {
                            assert(pairs[i].0 == picked[i]);
                            assert(pairs[j] == p[j - block.len()]);
                            let j0 = choose|j0: int|
                                0 <= j0 < ravail.len() && ravail[j0].id == p[j - block.len()].0;
                            assert(!picked.contains(ravail[j0].id));
                            assert(picked[i] == picked.index(i));
                            assert(picked.contains(picked[i]));
                        }
                    }
                    // Assigned ids are consumed: disjoint from what stays.
                    assert forall|i: int, j: int|
                        0 <= i < pairs.len() && 0 <= j < res.1.len() implies (#[trigger] pairs[
                        i
                    ]).0 != (#[trigger] res.1[j]).id by {
                        if i < block.len() {
                            assert(pairs[i].0 == picked[i]);
                            assert(picked.contains(picked[i]));
                            assert(ravail.contains(res.1[j]));
                            let j0 = choose|j0: int|
                                0 <= j0 < ravail.len() && ravail[j0] == res.1[j];
                            assert(!picked.contains(ravail[j0].id));
                        } else {
                            assert(pairs[i] == p[i - block.len()]);
                        }
                    }
                },
                Option::None => {},
            }
        } else if e.description.uniqueness.spec_required() {
        } else {
            lemma_assign_consumption(roles.drop_first(), g, avail);
        }
    }
}

} // verus!
