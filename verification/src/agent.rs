//! Agents: identity, ledger, base repertoire, and decision policy.
//!
//! An agent is created once during initialization and never destroyed.  Its
//! base repertoire is the default action list; a role transformer edits a
//! copy of it for the duration of one tick, never the base list itself.

use vstd::prelude::*;
use crate::actions::AnyAction;
use crate::decider::AnyDecider;
use crate::resources::{utility_key, utility_key_spec, Resources};
use crate::roles::AnyParticipationChecker;

verus! {

/// The stable identity of an agent: unique within a run, never reused.
pub type AgentID = usize;

/// A participant: identity, ledger, base repertoire, decision policy, and
/// the capability check the assigner consults.
#[derive(Debug, PartialEq, Eq)]
pub struct Agent {
    pub resources: Resources,
    pub base_actions: Vec<AnyAction>,
    pub decider: AnyDecider,
    pub participation_checker: AnyParticipationChecker,
    pub id: AgentID,
}

/// `a` carries the same agent as `b`: every field agrees, the repertoires
/// element for element.  This is what duplicating an agent preserves.
pub open spec fn agent_like(a: Agent, b: Agent) -> bool {
    a.resources == b.resources && a.base_actions@ == b.base_actions@ && a.decider == b.decider
        && a.participation_checker == b.participation_checker && a.id == b.id
}

impl Agent {
    /// A fresh agent.  The ledger type holds a zero-initialized slot for
    /// every resource kind by construction, so `initial_resources` is
    /// already total over the kind set.
    pub fn new(
        initial_resources: Resources,
        base_actions: Vec<AnyAction>,
        decider: AnyDecider,
        participation_checker: AnyParticipationChecker,
        id: AgentID,
    ) -> (a: Agent)
        ensures
            a.resources == initial_resources,
            a.base_actions@ == base_actions@,
            a.decider == decider,
            a.participation_checker == participation_checker,
            a.id == id,
    {
        Agent { resources: initial_resources, base_actions, decider, participation_checker, id }
    }

    /// The agent's current utility key (see the resources module: an
    /// integer whose base-10 logarithm is the classic utility score).
    pub fn get_utility(&self) -> (u: u128)
        ensures
            u == utility_key_spec(self.resources),
    {
        utility_key(&self.resources)
    }
}

/// An element-for-element copy of an action list.
pub fn copy_actions(v: &Vec<AnyAction>) -> (r: Vec<AnyAction>)
    ensures
        r@ == v@,
{
    let mut r: Vec<AnyAction> = Vec::new();
    let mut i: usize = 0;
    while i < v.len()
        invariant
            0 <= i <= v@.len(),
            r@ =~= v@.subrange(0, i as int),
        decreases v@.len() - i,
    {
        r.push(v[i]);
        i = i + 1;
    }
    proof {
        assert(r@ =~= v@);
    }
    r
}

/// A duplicate of an agent, carrying the same identity, ledger, repertoire
/// and policies.
pub fn clone_agent(a: &Agent) -> (r: Agent)
    ensures
        agent_like(r, *a),
{
    Agent {
        resources: a.resources,
        base_actions: copy_actions(&a.base_actions),
        decider: a.decider,
        participation_checker: a.participation_checker,
        id: a.id,
    }
}

/// A duplicate of a whole roster, agent for agent.
pub fn clone_agents(v: &Vec<Agent>) -> (r: Vec<Agent>)
    ensures
        r@.len() == v@.len(),
        forall|i: int| 0 <= i < v@.len() ==> agent_like(#[trigger] r@[i], v@[i]),
{
    let mut r: Vec<Agent> = Vec::new();
    let mut i: usize = 0;
    while i < v.len()
        invariant
            0 <= i <= v@.len(),
            r@.len() == i,
            forall|j: int| 0 <= j < i ==> agent_like(#[trigger] r@[j], v@[j]),
        decreases v@.len() - i,
    {
        r.push(clone_agent(&v[i]));
        i = i + 1;
    }
    r
}

} // verus!
