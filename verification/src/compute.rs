//! The shared computation core: every valid state for a set of parameters
//! together with every transition between them, which the graph and table
//! views both build on.

use vstd::prelude::*;

verus! {

use vstd::arithmetic::power2::pow2;
use crate::combinatorics::{binom, popcount};
use crate::params::{Params, ParamsError};
use crate::state::{State, gen_seq};
use crate::transition::{Transition, transition_seq};
use crate::MAX_MAX_HEIGHT;

/// The `(height, destination)` pairs of one source state, tagged with it.
pub open spec fn tagged_triples(bits: nat, pairs: Seq<(nat, nat)>) -> Seq<(nat, nat, nat)> {
    pairs.map_values(|p: (nat, nat)| (bits, p.0, p.1))
}

/// The transitions of a run of states, flattened in order: one
/// `(source bits, height, destination bits)` triple per transition, the
/// transitions of `states[0]` first.
pub open spec fn edge_seq(states: Seq<State>, max_height: nat) -> Seq<(nat, nat, nat)>
    decreases states.len(),
{
    if states.len() == 0 {
        Seq::empty()
    } else {
        tagged_triples((states[0]@ as nat), transition_seq((states[0]@ as nat), max_height))
            + edge_seq(states.drop_first(), max_height)
    }
}

/// The `(source bits, height, destination bits)` triples of a transition list.
pub open spec fn transition_triples(ts: Seq<Transition>) -> Seq<(nat, nat, nat)> {
    ts.map_values(
        |t: Transition|
            ((t.spec_from()@ as nat), (t.spec_throw_height() as nat), (t.spec_to()@ as nat)),
    )
}

/// Flattening distributes over concatenation of state runs.
proof fn lemma_edge_seq_concat(a: Seq<State>, b: Seq<State>, max_height: nat)
    ensures
        edge_seq(a + b, max_height) == edge_seq(a, max_height) + edge_seq(b, max_height),
    decreases a.len(),
{
    if a.len() == 0 {
        assert(a + b =~= b);
        assert(edge_seq(a, max_height) + edge_seq(b, max_height) =~= edge_seq(b, max_height));
    } else {
        lemma_edge_seq_concat(a.drop_first(), b, max_height);
        assert((a + b).drop_first() =~= a.drop_first() + b);
        assert((a + b)[0] == a[0]);
        assert(edge_seq(a + b, max_height) =~= edge_seq(a, max_height) + edge_seq(b, max_height));
    }
}

/// Every flattened triple carries the bits of one of the run's states as its
/// source.
pub(crate) proof fn lemma_edge_seq_sources(states: Seq<State>, max_height: nat)
    ensures
        forall|k: int|
            0 <= k < edge_seq(states, max_height).len() ==> exists|i: int|
                0 <= i < states.len() && (#[trigger] edge_seq(states, max_height)[k]).0 == (
                #[trigger] states[i]@ as nat),
    decreases states.len(),
{
    if states.len() > 0 {
        let es = edge_seq(states, max_height);
        let block = tagged_triples(
            (states[0]@ as nat),
            transition_seq((states[0]@ as nat), max_height),
        );
        let rest = edge_seq(states.drop_first(), max_height);
        lemma_edge_seq_sources(states.drop_first(), max_height);
        assert forall|k: int| 0 <= k < es.len() implies exists|i: int|
            0 <= i < states.len() && (#[trigger] es[k]).0 == (#[trigger] states[i]@ as nat) by {
            if k < block.len() {
                assert(es[k] == block[k]);
                assert(es[k].0 == (states[0]@ as nat));
            } else {
                assert(es[k] == rest[k - block.len()]);
                let i = choose|i: int|
                    0 <= i < states.drop_first().len() && (#[trigger] rest[k - block.len()]).0 == (
                    states.drop_first()[i]@ as nat);
                assert(states.drop_first()[i] == states[i + 1]);
            }
        }
    }
}

/// No two flattened triples of a run of distinct states share both their
/// source and their destination.
pub(crate) proof fn lemma_edge_seq_pair_unique(states: Seq<State>, max_height: nat)
    requires
        forall|i: int| 0 <= i < states.len() ==> (#[trigger] states[i]@ as nat) < pow2(max_height),
        forall|i: int, j: int| 0 <= i < j < states.len() ==> states[i]@ != states[j]@,
    ensures
        forall|k1: int, k2: int|
            0 <= k1 < k2 < edge_seq(states, max_height).len() ==> !((#[trigger] edge_seq(
                states,
                max_height,
            )[k1]).0 == (#[trigger] edge_seq(states, max_height)[k2]).0 && edge_seq(
                states,
                max_height,
            )[k1].2 == edge_seq(states, max_height)[k2].2),
    decreases states.len(),
{
    if states.len() > 0 {
        let es = edge_seq(states, max_height);
        let bits = states[0]@ as nat;
        let pairs = transition_seq(bits, max_height);
        let block = tagged_triples(bits, pairs);
        let tail_states = states.drop_first();
        let rest = edge_seq(tail_states, max_height);
        crate::transition::lemma_transition_seq_distinct(bits, max_height);
        lemma_edge_seq_pair_unique(tail_states, max_height);
        lemma_edge_seq_sources(tail_states, max_height);
        assert forall|k1: int, k2: int| 0 <= k1 < k2 < es.len() implies !((#[trigger] es[k1]).0 == (
        #[trigger] es[k2]).0 && es[k1].2 == es[k2].2) by {
            if k2 < block.len() {
                assert(es[k1] == block[k1] && es[k2] == block[k2]);
                assert(pairs[k1].1 != pairs[k2].1);
            } else if k1 < block.len() {
                assert(es[k1] == block[k1]);
                assert(es[k2] == rest[k2 - block.len()]);
                let i = choose|i: int|
                    0 <= i < tail_states.len() && (#[trigger] rest[k2 - block.len()]).0 == (
                    tail_states[i]@ as nat);
                assert(tail_states[i] == states[i + 1]);
                assert(states[0]@ != states[i + 1]@);
            } else {
                assert(es[k1] == rest[k1 - block.len()] && es[k2] == rest[k2 - block.len()]);
            }
        }
    }
}

/// All valid states and transitions for one set of parameters.
#[derive(Debug)]
pub struct TransitionSet {
    /// All valid states for the given parameters, in enumeration order.
    pub states: Vec<State>,
    /// All transitions between those states, grouped by source state.
    pub transitions: Vec<Transition>,
    /// The ground state (lowest bits set): always the first state.
    pub ground_state: State,
    /// The number of props this set was generated for.
    pub num_props: u8,
    /// The maximum throw height this set was generated for.
    pub max_height: u8,
}

impl TransitionSet {
    /// What `compute_transitions` guarantees of a set built for `params`:
    /// the states are exactly the valid masks in enumeration order, headed by
    /// the ground state, and the transitions are their flattened successors,
    /// every endpoint a valid state of the same prop count.
    pub open spec fn wf(&self, params: Params) -> bool {
        &&& self.num_props == params.num_props
        &&& self.max_height == params.max_height
        &&& self.states@.len() == binom(params.max_height as nat, params.num_props as nat)
        &&& self.states@.len() >= 1
        &&& forall|i: int|
            0 <= i < self.states@.len() ==> (#[trigger] self.states@[i]@ as nat) == gen_seq(
                params.max_height as nat,
                0,
                params.num_props as nat,
                0,
            )[i]
        &&& forall|i: int|
            0 <= i < self.states@.len() ==> (#[trigger] self.states@[i]@ as nat) < pow2(
                params.max_height as nat,
            )
        &&& forall|i: int|
            0 <= i < self.states@.len() ==> popcount(#[trigger] self.states@[i]@ as nat)
                == params.num_props as nat
        &&& forall|i: int, j: int| 0 <= i < j < self.states@.len() ==> self.states@[i]@ != self.states@[j]@
        &&& self.ground_state == self.states@[0]
        &&& (self.ground_state@ as nat) == pow2(params.num_props as nat) - 1
        &&& forall|v: nat|
            v < pow2(params.max_height as nat) && #[trigger] popcount(v)
                == params.num_props as nat ==> exists|i: int|
                0 <= i < self.states@.len() && (#[trigger] self.states@[i]@ as nat) == v
        &&& transition_triples(self.transitions@) == edge_seq(
            self.states@,
            params.max_height as nat,
        )
        &&& forall|k: int|
            0 <= k < self.transitions@.len() ==> {
                let t = #[trigger] self.transitions@[k];
                &&& t.spec_max_height() == params.max_height
                &&& (t.spec_from()@ as nat) < pow2(params.max_height as nat)
                &&& (t.spec_to()@ as nat) < pow2(params.max_height as nat)
                &&& popcount(t.spec_from()@ as nat) == params.num_props as nat
                &&& popcount(t.spec_to()@ as nat) == params.num_props as nat
                &&& (exists|i: int|
                    0 <= i < self.states@.len() && #[trigger] self.states@[i] == t.spec_from())
                &&& (exists|i: int|
                    0 <= i < self.states@.len() && #[trigger] self.states@[i] == t.spec_to())
            }
    }
}

/// Flattens the transitions of every state in `states`, in order: the one
/// shared derivation routine behind every view.
pub fn flatten_transitions(states: &Vec<State>, max_height: u8) -> (r: Vec<Transition>)
    requires
        max_height <= MAX_MAX_HEIGHT,
        forall|i: int|
            0 <= i < states@.len() ==> (#[trigger] states@[i]@ as nat) < pow2(max_height as nat),
    ensures
        transition_triples(r@) == edge_seq(states@, max_height as nat),
        forall|k: int|
            0 <= k < r@.len() ==> {
                let t = #[trigger] r@[k];
                &&& t.spec_max_height() == max_height
                &&& (t.spec_from()@ as nat) < pow2(max_height as nat)
                &&& (t.spec_to()@ as nat) < pow2(max_height as nat)
                &&& popcount(t.spec_to()@ as nat) == popcount(t.spec_from()@ as nat)
                &&& (exists|i: int|
                    0 <= i < states@.len() && #[trigger] states@[i] == t.spec_from())
            },
{
    let ghost mh = max_height as nat;
    let mut transitions: Vec<Transition> = Vec::new();
    let mut si: usize = 0;
    while si < states.len()
        invariant
            max_height <= MAX_MAX_HEIGHT,
            mh == max_height as nat,
            si <= states@.len(),
            forall|i: int| 0 <= i < states@.len() ==> (#[trigger] states@[i]@ as nat) < pow2(mh),
            transition_triples(transitions@) == edge_seq(states@.take(si as int), mh),
            forall|k: int|
                0 <= k < transitions@.len() ==> {
                    let t = #[trigger] transitions@[k];
                    &&& t.spec_max_height() == max_height
                    &&& (t.spec_from()@ as nat) < pow2(mh)
                    &&& (t.spec_to()@ as nat) < pow2(mh)
                    &&& popcount(t.spec_to()@ as nat) == popcount(t.spec_from()@ as nat)
                    &&& (exists|i: int|
                        0 <= i < states@.len() && #[trigger] states@[i] == t.spec_from())
                },
        decreases states@.len() - si,
    {
        let state = states[si];
        let mut batch = Transition::from_state(state, max_height);
        let ghost old_transitions = transitions@;
        let ghost old_batch = batch@;
        transitions.append(&mut batch);
        proof {
            let taken = states@.take(si as int);
            let taken1 = states@.take(si as int + 1);
            assert(taken1 =~= taken + seq![state]);
            lemma_edge_seq_concat(taken, seq![state], mh);
            assert(edge_seq(seq![state], mh) =~= tagged_triples(
                (state@ as nat),
                transition_seq((state@ as nat), mh),
            )) by {
                assert(seq![state].drop_first() =~= Seq::<State>::empty());
                assert(edge_seq(Seq::<State>::empty(), mh) == Seq::<(nat, nat, nat)>::empty());
                assert(seq![state][0] == state);
            }
            assert(transition_triples(transitions@) =~= edge_seq(taken1, mh)) by {
                assert(transitions@ =~= old_transitions + old_batch);
                assert forall|k: int| 0 <= k < transitions@.len() implies transition_triples(
                    transitions@,
                )[k] == edge_seq(taken1, mh)[k] by {
                    if k < old_transitions.len() {
                        assert(transitions@[k] == old_transitions[k]);
                        assert(transition_triples(old_transitions)[k] == edge_seq(taken, mh)[k]);
                    } else {
                        let j = k - old_transitions.len();
                        assert(transitions@[k] == old_batch[j]);
                        assert((old_batch[j].spec_throw_height() as nat) == transition_seq(
                            (state@ as nat),
                            mh,
                        )[j].0);
                        assert((old_batch[j].spec_to()@ as nat) == transition_seq(
                            (state@ as nat),
                            mh,
                        )[j].1);
                        assert(old_batch[j].spec_from() == state);
                        assert(edge_seq(taken1, mh)[k] == tagged_triples(
                            (state@ as nat),
                            transition_seq((state@ as nat), mh),
                        )[j]);
                    }
                }
            }
            assert forall|k: int| 0 <= k < transitions@.len() implies {
                let t = #[trigger] transitions@[k];
                &&& t.spec_max_height() == max_height
                &&& (t.spec_from()@ as nat) < pow2(mh)
                &&& (t.spec_to()@ as nat) < pow2(mh)
                &&& popcount(t.spec_to()@ as nat) == popcount(t.spec_from()@ as nat)
                &&& (exists|i: int|
                    0 <= i < states@.len() && #[trigger] states@[i] == t.spec_from())
            } by {
                if k < old_transitions.len() {
                    assert(transitions@[k] == old_transitions[k]);
                } else {
                    let j = k - old_transitions.len();
                    assert(transitions@[k] == old_batch[j]);
                    assert(states@[si as int] == old_batch[j].spec_from());
                }
            }
        }
        si = si + 1;
    }
    proof {
        assert(states@.take(states@.len() as int) =~= states@);
    }
    transitions
}

/// Computes every state and every transition for the given parameters.
/// Rejects invalid parameters with the same error that `Params::validate`
/// reports, and computes nothing for them.
pub fn compute_transitions(params: &Params) -> (r: Result<TransitionSet, ParamsError>)
    ensures
        r is Ok <==> params.valid(),
        (r matches Ok(ts) ==> ts.wf(*params)),
        (r matches Err(e) ==> !params.valid() && e == params.validation_error()),
{
    if let Err(e) = params.validate() {
        return Err(e);
    }
    let states = State::generate(params.num_props, params.max_height);
    let ghost mh = params.max_height as nat;
    let transitions = flatten_transitions(&states, params.max_height);
    let ground_state = states[0];
    let ts = TransitionSet {
        ground_state,
        states,
        transitions,
        num_props: params.num_props,
        max_height: params.max_height,
    };
    proof {
        assert forall|k: int| 0 <= k < ts.transitions@.len() implies {
            let t = #[trigger] ts.transitions@[k];
            &&& popcount(t.spec_from()@ as nat) == params.num_props as nat
            &&& popcount(t.spec_to()@ as nat) == params.num_props as nat
            &&& (exists|i: int|
                0 <= i < ts.states@.len() && #[trigger] ts.states@[i] == t.spec_to())
        } by {
            let t = ts.transitions@[k];
            let i = choose|i: int|
                0 <= i < ts.states@.len() && #[trigger] ts.states@[i] == t.spec_from();
            assert(popcount(t.spec_from()@ as nat) == params.num_props as nat);
            let v = t.spec_to()@ as nat;
            assert(popcount(v) == params.num_props as nat);
            let j = choose|j: int| 0 <= j < ts.states@.len() && (#[trigger] ts.states@[j]@ as nat) == v;
            crate::state::lemma_state_eq(ts.states@[j], t.spec_to());
        }
    }
    Ok(ts)
}

} // verus!
