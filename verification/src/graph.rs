//! The graph view: the full state set with a flat edge list, both as the
//! engine's own result type and as the serving layer's response shape.

use vstd::prelude::*;

verus! {

use vstd::arithmetic::power2::pow2;
use crate::combinatorics::{binom, popcount};
use crate::compute::{
    compute_transitions, flatten_transitions, edge_seq, transition_triples,
};
use crate::params::{GraphParams, Params, ParamsError};
use crate::state::{State, gen_seq};
use crate::transition::Transition;
use crate::MAX_MAX_HEIGHT;

/// A single edge of the state transition graph.
#[derive(Debug, Copy, Clone)]
pub struct Edge {
    /// The source state of this edge.
    pub from: State,
    /// The destination state of this edge.
    pub to: State,
    /// The throw height that causes this transition.
    pub throw_height: u8,
}

/// The `(source bits, height, destination bits)` triples of an edge list.
pub open spec fn edge_triples(es: Seq<Edge>) -> Seq<(nat, nat, nat)> {
    es.map_values(|e: Edge| ((e.from@ as nat), (e.throw_height as nat), (e.to@ as nat)))
}

/// A complete state transition graph for one set of parameters.
#[derive(Debug)]
pub struct StateGraph {
    /// All valid states in the graph, in enumeration order.
    pub states: Vec<State>,
    /// All edges between those states, grouped by source state.
    pub edges: Vec<Edge>,
    /// The ground state (lowest bits set): always the first state.
    pub ground_state: State,
    /// The number of props this graph was generated for.
    pub num_props: u8,
    /// The maximum throw height this graph was generated for.
    pub max_height: u8,
}

impl StateGraph {
    /// What `compute_graph` guarantees of a graph built for `params`: the same
    /// state set as the shared core, with the flattened transitions as edges,
    /// every endpoint a state of the graph with the right prop count.
    pub open spec fn wf(&self, params: Params) -> bool {
        &&& self.num_props == params.num_props
        &&& self.max_height == params.max_height
        &&& self.states@.len() == binom(params.max_height as nat, params.num_props as nat)
        &&& self.states@.len() >= 1
        &&& forall|i: int|
            0 <= i < self.states@.len() ==> (#[trigger] self.states@[i]@ as nat) == gen_seq(
                params.max_height as nat,
                0,
                params.num_props as nat,
                0,
            )[i]
        &&& forall|i: int|
            0 <= i < self.states@.len() ==> (#[trigger] self.states@[i]@ as nat) < pow2(
                params.max_height as nat,
            )
        &&& forall|i: int|
            0 <= i < self.states@.len() ==> popcount(#[trigger] self.states@[i]@ as nat)
                == params.num_props as nat
        &&& forall|i: int, j: int| 0 <= i < j < self.states@.len() ==> self.states@[i]@ != self.states@[j]@
        &&& self.ground_state == self.states@[0]
        &&& (self.ground_state@ as nat) == pow2(params.num_props as nat) - 1
        &&& forall|v: nat|
            v < pow2(params.max_height as nat) && #[trigger] popcount(v)
                == params.num_props as nat ==> exists|i: int|
                0 <= i < self.states@.len() && (#[trigger] self.states@[i]@ as nat) == v
        &&& edge_triples(self.edges@) == edge_seq(self.states@, params.max_height as nat)
        &&& forall|k: int|
            0 <= k < self.edges@.len() ==> {
                let e = #[trigger] self.edges@[k];
                &&& (e.from@ as nat) < pow2(params.max_height as nat)
                &&& (e.to@ as nat) < pow2(params.max_height as nat)
                &&& popcount(e.from@ as nat) == params.num_props as nat
                &&& popcount(e.to@ as nat) == params.num_props as nat
                &&& (exists|i: int|
                    0 <= i < self.states@.len() && #[trigger] self.states@[i] == e.from)
                &&& (exists|i: int|
                    0 <= i < self.states@.len() && #[trigger] self.states@[i] == e.to)
            }
    }
}

/// Turns a transition list into the edge shape, dropping the width tag.
fn transitions_to_edges(transitions: &Vec<Transition>) -> (r: Vec<Edge>)
    ensures
        r@.len() == transitions@.len(),
        forall|k: int|
            0 <= k < r@.len() ==> {
                let e = #[trigger] r@[k];
                e.from == transitions@[k].spec_from() && e.to == transitions@[k].spec_to()
                    && e.throw_height == transitions@[k].spec_throw_height()
            },
        edge_triples(r@) == transition_triples(transitions@),
{
    let mut edges: Vec<Edge> = Vec::new();
    let mut i: usize = 0;
    while i < transitions.len()
        invariant
            i <= transitions@.len(),
            edges@.len() == i,
            forall|k: int|
                0 <= k < i ==> {
                    let e = #[trigger] edges@[k];
                    e.from == transitions@[k].spec_from() && e.to == transitions@[k].spec_to()
                        && e.throw_height == transitions@[k].spec_throw_height()
                },
        decreases transitions@.len() - i,
    {
        let t = &transitions[i];
        edges.push(Edge { from: t.from(), to: t.to(), throw_height: t.throw_height() });
        i = i + 1;
    }
    proof {
        assert(edge_triples(edges@) =~= transition_triples(transitions@));
    }
    edges
}

/// Computes the full state transition graph for the given parameters.
/// Rejects invalid parameters with the same error that `Params::validate`
/// reports.
pub fn compute_graph(params: &Params) -> (r: Result<StateGraph, ParamsError>)
    ensures
        r is Ok <==> params.valid(),
        (r matches Ok(g) ==> g.wf(*params)),
        (r matches Err(e) ==> !params.valid() && e == params.validation_error()),
{
    let ts = match compute_transitions(params) {
        Ok(ts) => ts,
        Err(e) => {
            return Err(e);
        },
    };
    let edges = transitions_to_edges(&ts.transitions);
    let g = StateGraph {
        ground_state: ts.ground_state,
        states: ts.states,
        edges,
        num_props: ts.num_props,
        max_height: ts.max_height,
    };
    Ok(g)
}

/// The graph in the serving layer's response shape: nodes and edges under the
/// requested width and prop count.
#[derive(Debug)]
pub struct Graph {
    /// All valid states, in enumeration order.
    pub nodes: Vec<State>,
    /// The flattened transitions of every node.
    pub edges: Vec<Transition>,
    /// The maximum throw height the graph was generated for.
    pub max_height: u8,
    /// The number of props the graph was generated for.
    pub num_props: u8,
}

impl Graph {
    /// Builds the graph for request parameters whose width fits the bit
    /// width; a prop count above the width yields an empty graph.
    pub fn new(params: &GraphParams) -> (g: Graph)
        requires
            params.max_height <= MAX_MAX_HEIGHT,
        ensures
            g.max_height == params.max_height,
            g.num_props == params.num_props,
            g.nodes@.len() == binom(params.max_height as nat, params.num_props as nat),
            g.nodes@.len() == gen_seq(
                params.max_height as nat,
                0,
                params.num_props as nat,
                0,
            ).len(),
            forall|i: int|
                0 <= i < g.nodes@.len() ==> (#[trigger] g.nodes@[i]@ as nat) == gen_seq(
                    params.max_height as nat,
                    0,
                    params.num_props as nat,
                    0,
                )[i],
            forall|i: int|
                0 <= i < g.nodes@.len() ==> (#[trigger] g.nodes@[i]@ as nat) < pow2(
                    params.max_height as nat,
                ) && popcount(g.nodes@[i]@ as nat) == params.num_props as nat,
            params.num_props <= params.max_height ==> g.nodes@.len() >= 1 && (
            g.nodes@[0]@ as nat) == pow2(params.num_props as nat) - 1,
            transition_triples(g.edges@) == edge_seq(g.nodes@, params.max_height as nat),
            forall|k: int|
                0 <= k < g.edges@.len() ==> popcount(#[trigger] g.edges@[k].spec_to()@ as nat)
                    == popcount(g.edges@[k].spec_from()@ as nat),
    {
        let nodes = State::generate(params.num_props, params.max_height);
        let edges = flatten_transitions(&nodes, params.max_height);
        Graph { nodes, edges, max_height: params.max_height, num_props: params.num_props }
    }
}

} // verus!
