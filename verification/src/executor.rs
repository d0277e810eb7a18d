//! Turning an accepted declaration into a runnable plan: one execution
//! unit per stage and one bounded channel per edge, allocated only after
//! validation passes, so no stage ever initializes for a bad graph. Also
//! the scheduler's two small rules: how a control signal changes a
//! unit's subscription, and how a fatal error closes every channel.

use vstd::prelude::*;
use crate::channel::Channel;
use crate::dag::{validate, Dag, Edge, GraphError};
use crate::node::NextStep;

verus! {

/// One stage's concurrent execution unit: subscribed while the scheduler
/// keeps delivering to it.
#[derive(Clone, Copy, Debug, PartialEq, Eq, Structural)]
pub struct ExecutionUnit {
    pub node: usize,
    pub subscribed: bool,
}

/// A validated pipeline, ready to run: exactly one unit per declared
/// stage and one channel per declared edge.
#[derive(Debug)]
pub struct ExecutionPlan {
    pub units: Vec<ExecutionUnit>,
    pub channels: Vec<Channel>,
    pub edges: Vec<Edge>,
}

/// Builds the execution plan: validates the declaration and, only when
/// it passes, allocates one subscribed unit per stage and one open,
/// empty channel of the given capacity per edge.
pub fn build_plan(d: &Dag, capacity: usize) -> (r: Result<ExecutionPlan, GraphError>)
    ensures
        r is Ok <==> crate::dag::spec_valid(*d),
        r matches Ok(p) ==> p.units@.len() == d.nodes@.len() && p.channels@.len()
            == d.edges@.len() && p.edges@ == d.edges@ && (forall|i: int|
            0 <= i < p.units@.len() ==> (#[trigger] p.units@[i]).node == i
                && p.units@[i].subscribed) && (forall|k: int|
            0 <= k < p.channels@.len() ==> (#[trigger] p.channels@[k])@.len() == 0
                && p.channels@[k].capacity == capacity && !p.channels@[k].closed),
        r matches Err(GraphError::DuplicateHandle(v)) ==> v < d.nodes@.len()
            && crate::dag::node_has_duplicate(*d, v as int),
        r matches Err(GraphError::DanglingPort(k)) ==> crate::dag::no_duplicate_handles(*d) && k
            < d.edges@.len() && !crate::dag::edge_valid(*d, d.edges@[k as int]),
        r matches Err(GraphError::Cycle) ==> crate::dag::no_duplicate_handles(*d)
            && crate::dag::edges_valid(*d) && !crate::dag::spec_acyclic(*d),
{
    match validate(d) {
        Err(e) => {
            return Err(e);
        },
        Ok(()) => {},
    }
    let mut units: Vec<ExecutionUnit> = Vec::new();
    let mut i: usize = 0;
    while i < d.nodes.len()
        invariant
            i <= d.nodes@.len(),
            units@.len() == i,
            forall|u: int|
                0 <= u < i ==> (#[trigger] units@[u]).node == u && units@[u].subscribed,
        decreases d.nodes@.len() - i,
    {
        units.push(ExecutionUnit { node: i, subscribed: true });
        i += 1;
    }
    let mut channels: Vec<Channel> = Vec::new();
    let mut edges: Vec<Edge> = Vec::new();
    let mut k: usize = 0;
    while k < d.edges.len()
        invariant
            k <= d.edges@.len(),
            channels@.len() == k,
            edges@ == d.edges@.subrange(0, k as int),
            forall|c: int|
                0 <= c < k ==> (#[trigger] channels@[c])@.len() == 0 && channels@[c].capacity
                    == capacity && !channels@[c].closed,
        decreases d.edges@.len() - k,
    {
        channels.push(Channel::new(capacity));
        edges.push(d.edges[k]);
        k += 1;
    }
    proof {
        assert(edges@ =~= d.edges@);
    }
    Ok(ExecutionPlan { units, channels, edges })
}

/// Interprets one control signal: `Continue` keeps the unit subscribed,
/// `Stop` unsubscribes it, and an unsubscribed unit never comes back.
pub fn apply_control(unit: &mut ExecutionUnit, signal: NextStep)
    ensures
        final(unit).node == old(unit).node,
        final(unit).subscribed == (old(unit).subscribed && signal == NextStep::Continue),
{
    match signal {
        NextStep::Continue => {},
        NextStep::Stop => {
            unit.subscribed = false;
        },
    }
}

/// Closes every channel, as the scheduler does on a fatal error or on
/// cancellation: downstream stages drain what is buffered, then observe
/// end of stream and terminate.
pub fn close_all(channels: &mut Vec<Channel>)
    ensures
        final(channels)@.len() == old(channels)@.len(),
        forall|k: int|
            0 <= k < old(channels)@.len() ==> (#[trigger] final(channels)@[k]).closed && final(channels)@[k]@ == old(channels)@[k]@ && final(channels)@[k].capacity == old(channels)@[k].capacity,
{
    let mut k: usize = 0;
    while k < channels.len()
        invariant
            channels@.len() == old(channels)@.len(),
            k <= channels@.len(),
            forall|c: int|
                0 <= c < k ==> (#[trigger] channels@[c]).closed && channels@[c]@ == old(channels)@[c]@ && channels@[c].capacity == old(channels)@[c].capacity,
            forall|c: int|
                k <= c < channels@.len() ==> #[trigger] channels@[c] == old(channels)@[c],
        decreases channels@.len() - k,
    {
        let ghost pre = channels@;
        let mut c = channels.remove(k);
        c.close();
        channels.insert(k, c);
        proof {
            assert(channels@ =~= pre.update(k as int, channels@[k as int]));
        }
        k += 1;
    }
}

} // verus!
