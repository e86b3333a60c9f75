//! Hand-rolled JSON rendering of the graph and throws views: the exact bytes
//! that the serving layer caches and returns.

use vstd::prelude::*;

verus! {

use vstd::arithmetic::power2::pow2;
use vstd::slice::slice_to_vec;
use vstd::string::{is_ascii, is_ascii_spec_bytes, StringSliceAdditionalSpecFns};
use crate::compute::{edge_seq, flatten_transitions, tagged_triples, transition_triples};
use crate::params::{GraphParams, ThrowsQuery};
use crate::state::{State, bit_at, binary_chars, gen_seq};
use crate::text::decimal_chars;
use crate::transition::{Throw, transition_seq};
use crate::MAX_MAX_HEIGHT;

/// ASCII text as its byte sequence.
pub open spec fn ascii_bytes(s: Seq<char>) -> Seq<u8> {
    s.map_values(|c: char| c as u8)
}

/// The decimal rendering of `n` as bytes.
pub open spec fn decimal_bytes(n: nat) -> Seq<u8> {
    ascii_bytes(decimal_chars(n))
}

/// The binary rendering of the low `max_height` bits, least significant first.
pub open spec fn binary_chars_reversed(bits: nat, max_height: nat) -> Seq<char> {
    Seq::new(max_height, |i: int| if bit_at(bits, i as nat) { '1' } else { '0' })
}

/// The reversed rendering is exactly the usual binary rendering read backwards.
pub proof fn lemma_binary_chars_reversed(bits: nat, max_height: nat)
    ensures
        binary_chars_reversed(bits, max_height) == binary_chars(bits, max_height).reverse(),
{
    assert(binary_chars_reversed(bits, max_height) =~= binary_chars(bits, max_height).reverse());
}

/// One state value as JSON: the raw integer when `compact`, otherwise the
/// quoted binary string, character-reversed when `reversed`.
pub open spec fn state_value_bytes(bits: nat, max_height: nat, compact: bool, reversed: bool) -> Seq<
    u8,
> {
    if compact {
        decimal_bytes(bits)
    } else if reversed {
        ascii_bytes(seq!['"'] + binary_chars_reversed(bits, max_height) + seq!['"'])
    } else {
        ascii_bytes(seq!['"'] + binary_chars(bits, max_height) + seq!['"'])
    }
}

/// One edge as a JSON object.
pub open spec fn edge_json(t: (nat, nat, nat), max_height: nat, compact: bool) -> Seq<u8> {
    ascii_bytes("{\"from\":"@) + state_value_bytes(t.0, max_height, compact, false) + ascii_bytes(
        ",\"to\":"@,
    ) + state_value_bytes(t.2, max_height, compact, false) + ascii_bytes(",\"throw_height\":"@)
        + decimal_bytes(t.1) + ascii_bytes("}"@)
}

/// The node values joined with commas.
pub open spec fn joined_nodes(masks: Seq<nat>, max_height: nat, compact: bool) -> Seq<u8>
    decreases masks.len(),
{
    if masks.len() == 0 {
        Seq::empty()
    } else if masks.len() == 1 {
        state_value_bytes(masks[0], max_height, compact, false)
    } else {
        joined_nodes(masks.drop_last(), max_height, compact) + ascii_bytes(","@)
            + state_value_bytes(masks.last(), max_height, compact, false)
    }
}

/// The edge objects joined with commas.
pub open spec fn joined_edges(es: Seq<(nat, nat, nat)>, max_height: nat, compact: bool) -> Seq<u8>
    decreases es.len(),
{
    if es.len() == 0 {
        Seq::empty()
    } else if es.len() == 1 {
        edge_json(es[0], max_height, compact)
    } else {
        joined_edges(es.drop_last(), max_height, compact) + ascii_bytes(","@) + edge_json(
            es.last(),
            max_height,
            compact,
        )
    }
}

/// The transitions of a run of bitmasks, flattened in order.
pub open spec fn mask_edges(masks: Seq<nat>, max_height: nat) -> Seq<(nat, nat, nat)>
    decreases masks.len(),
{
    if masks.len() == 0 {
        Seq::empty()
    } else {
        tagged_triples(masks[0], transition_seq(masks[0], max_height)) + mask_edges(
            masks.drop_first(),
            max_height,
        )
    }
}

/// Flattening a run of states and flattening their bitmasks agree.
proof fn lemma_mask_edges_matches(states: Seq<State>, masks: Seq<nat>, max_height: nat)
    requires
        masks.len() == states.len(),
        forall|i: int| 0 <= i < masks.len() ==> masks[i] == (#[trigger] states[i]@ as nat),
    ensures
        mask_edges(masks, max_height) == edge_seq(states, max_height),
    decreases masks.len(),
{
    if masks.len() > 0 {
        lemma_mask_edges_matches(states.drop_first(), masks.drop_first(), max_height);
        assert(masks[0] == (states[0]@ as nat));
        assert(mask_edges(masks, max_height) =~= edge_seq(states, max_height));
    }
}

/// The whole graph response: nodes, edges, and the counts and parameters they
/// were generated from.
pub open spec fn graph_json(masks: Seq<nat>, max_height: nat, num_props: nat, compact: bool) -> Seq<
    u8,
> {
    ascii_bytes("{\"nodes\":["@) + joined_nodes(masks, max_height, compact) + ascii_bytes(
        "],\"edges\":["@,
    ) + joined_edges(mask_edges(masks, max_height), max_height, compact) + ascii_bytes(
        "],\"num_nodes\":"@,
    ) + decimal_bytes(masks.len()) + ascii_bytes(",\"num_edges\":"@) + decimal_bytes(
        mask_edges(masks, max_height).len(),
    ) + ascii_bytes(",\"max_height\":"@) + decimal_bytes(max_height) + ascii_bytes(
        ",\"num_props\":"@,
    ) + decimal_bytes(num_props) + ascii_bytes("}"@)
}

/// One throw as a JSON object.
pub open spec fn throw_json(p: (nat, nat), max_height: nat, compact: bool, reversed: bool) -> Seq<
    u8,
> {
    ascii_bytes("{\"height\":"@) + decimal_bytes(p.0) + ascii_bytes(",\"destination\":"@)
        + state_value_bytes(p.1, max_height, compact, reversed) + ascii_bytes("}"@)
}

/// The throw objects joined with commas.
pub open spec fn joined_throws(
    ps: Seq<(nat, nat)>,
    max_height: nat,
    compact: bool,
    reversed: bool,
) -> Seq<u8>
    decreases ps.len(),
{
    if ps.len() == 0 {
        Seq::empty()
    } else if ps.len() == 1 {
        throw_json(ps[0], max_height, compact, reversed)
    } else {
        joined_throws(ps.drop_last(), max_height, compact, reversed) + ascii_bytes(","@)
            + throw_json(ps.last(), max_height, compact, reversed)
    }
}

/// The `(height, destination bits)` pairs of a throw list.
pub open spec fn throw_pairs(ts: Seq<Throw>) -> Seq<(nat, nat)> {
    ts.map_values(|t: Throw| ((t.spec_height() as nat), (t.spec_destination()@ as nat)))
}

/// The whole throws response: the throws of one state, the state itself, and
/// the parameters they were derived from.
pub open spec fn throws_json(
    state: nat,
    ps: Seq<(nat, nat)>,
    max_height: nat,
    compact: bool,
    reversed: bool,
) -> Seq<u8> {
    ascii_bytes("{\"throws\":["@) + joined_throws(ps, max_height, compact, reversed) + ascii_bytes(
        "],\"state\":"@,
    ) + state_value_bytes(state, max_height, compact, reversed) + ascii_bytes(",\"max_height\":"@)
        + decimal_bytes(max_height) + ascii_bytes(",\"num_throws\":"@) + decimal_bytes(ps.len())
        + ascii_bytes("}"@)
}

/// Appends an ASCII string's bytes.
fn push_literal(buf: &mut Vec<u8>, s: &str)
    requires
        is_ascii(s),
    ensures
        final(buf)@ == old(buf)@ + ascii_bytes(s@),
{
    let bytes = s.as_bytes();
    let mut bv = slice_to_vec(bytes);
    buf.append(&mut bv);
    proof {
        broadcast use is_ascii_spec_bytes;

        assert(buf@ =~= old(buf)@ + ascii_bytes(s@));
    }
}

/// Appends the decimal rendering of `n`.
fn push_decimal_bytes(buf: &mut Vec<u8>, n: u64)
    ensures
        final(buf)@ == old(buf)@ + decimal_bytes(n as nat),
    decreases n,
{
    if n >= 10 {
        push_decimal_bytes(buf, n / 10);
    }
    let d: u8 = (n % 10) as u8;
    buf.push(48 + d);
    proof {
        assert(buf@ =~= old(buf)@ + decimal_bytes(n as nat));
    }
}

/// Appends one state value in the requested presentation.
fn push_state_value(buf: &mut Vec<u8>, bits: u32, max_height: u8, compact: bool, reversed: bool)
    requires
        max_height <= MAX_MAX_HEIGHT,
    ensures
        final(buf)@ == old(buf)@ + state_value_bytes(
            bits as nat,
            max_height as nat,
            compact,
            reversed,
        ),
{
    if compact {
        push_decimal_bytes(buf, bits as u64);
        return ;
    }
    let s = State::from_bits(bits);
    buf.push(34);
    if reversed {
        let mut i: u8 = 0;
        while i < max_height
            invariant
                i <= max_height <= MAX_MAX_HEIGHT,
                s@ == bits,
                buf@ =~= old(buf)@ + seq![34u8] + ascii_bytes(
                    binary_chars_reversed(bits as nat, max_height as nat).take(i as int),
                ),
            decreases max_height - i,
        {
            if s.prop_at(i) {
                buf.push(49);
            } else {
                buf.push(48);
            }
            i = i + 1;
            proof {
                assert(buf@ =~= old(buf)@ + seq![34u8] + ascii_bytes(
                    binary_chars_reversed(bits as nat, max_height as nat).take(i as int),
                ));
            }
        }
        proof {
            assert(binary_chars_reversed(bits as nat, max_height as nat).take(max_height as int)
                =~= binary_chars_reversed(bits as nat, max_height as nat));
        }
    } else {
        let mut i: u8 = max_height;
        while i > 0
            invariant
                i <= max_height <= MAX_MAX_HEIGHT,
                s@ == bits,
                buf@ =~= old(buf)@ + seq![34u8] + ascii_bytes(
                    binary_chars(bits as nat, max_height as nat).take((max_height - i) as int),
                ),
            decreases i,
        {
            i = i - 1;
            if s.prop_at(i) {
                buf.push(49);
            } else {
                buf.push(48);
            }
            proof {
                assert(buf@ =~= old(buf)@ + seq![34u8] + ascii_bytes(
                    binary_chars(bits as nat, max_height as nat).take((max_height - i) as int),
                ));
            }
        }
        proof {
            assert(binary_chars(bits as nat, max_height as nat).take(max_height as int)
                =~= binary_chars(bits as nat, max_height as nat));
        }
    }
    buf.push(34);
    proof {
        if reversed {
            assert(buf@ =~= old(buf)@ + ascii_bytes(
                seq!['"'] + binary_chars_reversed(bits as nat, max_height as nat) + seq!['"'],
            ));
        } else {
            assert(buf@ =~= old(buf)@ + ascii_bytes(
                seq!['"'] + binary_chars(bits as nat, max_height as nat) + seq!['"'],
            ));
        }
    }
}

/// The graph response for the given request, as JSON bytes: the node list,
/// the edge list, and their counts, states rendered per the `compact` flag.
#[verifier::rlimit(100)]
pub fn compute_graph(params: &GraphParams) -> (r: Vec<u8>)
    requires
        params.max_height <= MAX_MAX_HEIGHT,
    ensures
        r@ == graph_json(
            gen_seq(params.max_height as nat, 0, params.num_props as nat, 0),
            params.max_height as nat,
            params.num_props as nat,
            params.compact,
        ),
{
    let compact = params.compact;
    let max_height = params.max_height;
    let num_props = params.num_props;
    let ghost masks = gen_seq(max_height as nat, 0, num_props as nat, 0);

    let states = State::generate(num_props, max_height);
    let transitions = flatten_transitions(&states, max_height);
    let ghost es = mask_edges(masks, max_height as nat);
    proof {
        lemma_mask_edges_matches(states@, masks, max_height as nat);
        assert(es == transition_triples(transitions@));
    }

    let mut buf: Vec<u8> = Vec::new();
    proof {
        reveal_strlit("{\"nodes\":[");
        reveal_strlit("],\"edges\":[");
        reveal_strlit("],\"num_nodes\":");
        reveal_strlit(",\"num_edges\":");
        reveal_strlit(",\"max_height\":");
        reveal_strlit(",\"num_props\":");
        reveal_strlit("}");
        reveal_strlit(",");
    }
    push_literal(&mut buf, "{\"nodes\":[");

    let ghost nodes_start = buf@;
    let mut i: usize = 0;
    while i < states.len()
        invariant
            i <= states@.len(),
            max_height <= MAX_MAX_HEIGHT,
            masks == gen_seq(max_height as nat, 0, num_props as nat, 0),
            states@.len() == masks.len(),
            forall|k: int| 0 <= k < masks.len() ==> masks[k] == (#[trigger] states@[k]@ as nat),
            buf@ =~= nodes_start + joined_nodes(masks.take(i as int), max_height as nat, compact),
        decreases states@.len() - i,
    {
        proof {
            reveal_strlit(",");
        }
        if i > 0 {
            push_literal(&mut buf, ",");
        }
        let bits = states[i].bits();
        push_state_value(&mut buf, bits, max_height, compact, false);
        i = i + 1;
        proof {
            let taken = masks.take(i as int);
            assert(taken.drop_last() =~= masks.take(i as int - 1));
            assert(taken.last() == masks[i as int - 1]);
            assert(buf@ =~= nodes_start + joined_nodes(taken, max_height as nat, compact));
        }
    }
    proof {
        assert(masks.take(masks.len() as int) =~= masks);
    }

    push_literal(&mut buf, "],\"edges\":[");
    let ghost edges_start = buf@;
    let mut k: usize = 0;
    while k < transitions.len()
        invariant
            k <= transitions@.len(),
            max_height <= MAX_MAX_HEIGHT,
            es == transition_triples(transitions@),
            forall|j: int|
                0 <= j < transitions@.len() ==> (#[trigger] transitions@[j].spec_to()@ as nat)
                    < pow2(max_height as nat) && (transitions@[j].spec_from()@ as nat) < pow2(
                    max_height as nat,
                ),
            buf@ =~= edges_start + joined_edges(es.take(k as int), max_height as nat, compact),
        decreases transitions@.len() - k,
    {
        proof {
            reveal_strlit(",");
            reveal_strlit("{\"from\":");
            reveal_strlit(",\"to\":");
            reveal_strlit(",\"throw_height\":");
            reveal_strlit("}");
        }
        if k > 0 {
            push_literal(&mut buf, ",");
        }
        let t = &transitions[k];
        push_literal(&mut buf, "{\"from\":");
        push_state_value(&mut buf, t.from().bits(), max_height, compact, false);
        push_literal(&mut buf, ",\"to\":");
        push_state_value(&mut buf, t.to().bits(), max_height, compact, false);
        push_literal(&mut buf, ",\"throw_height\":");
        push_decimal_bytes(&mut buf, t.throw_height() as u64);
        push_literal(&mut buf, "}");
        k = k + 1;
        proof {
            let taken = es.take(k as int);
            assert(taken.drop_last() =~= es.take(k as int - 1));
            assert(taken.last() == es[k as int - 1]);
            assert(es[k as int - 1] == transition_triples(transitions@)[k as int - 1]);
            assert(buf@ =~= edges_start + joined_edges(taken, max_height as nat, compact));
        }
    }
    proof {
        assert(es.take(es.len() as int) =~= es);
    }

    push_literal(&mut buf, "],\"num_nodes\":");
    push_decimal_bytes(&mut buf, states.len() as u64);
    push_literal(&mut buf, ",\"num_edges\":");
    push_decimal_bytes(&mut buf, transitions.len() as u64);
    push_literal(&mut buf, ",\"max_height\":");
    push_decimal_bytes(&mut buf, max_height as u64);
    push_literal(&mut buf, ",\"num_props\":");
    push_decimal_bytes(&mut buf, num_props as u64);
    push_literal(&mut buf, "}");
    proof {
        assert(es.len() == transitions@.len());
        assert(buf@ =~= graph_json(masks, max_height as nat, num_props as nat, compact));
    }
    buf
}

/// The throws response for the given request, as JSON bytes: the given throws
/// and the state they came from, rendered per the `compact` and `reversed`
/// flags.
#[verifier::rlimit(100)]
pub fn serialize_throws(params: &ThrowsQuery, throws: &Vec<Throw>) -> (r: Vec<u8>)
    requires
        params.valid(),
    ensures
        r@ == throws_json(
            params.state as nat,
            throw_pairs(throws@),
            params.max_height as nat,
            params.compact,
            params.reversed,
        ),
{
    let compact = params.compact;
    let max_height = params.max_height;
    let reversed = params.reversed;
    let ghost ps = throw_pairs(throws@);

    let mut buf: Vec<u8> = Vec::new();
    proof {
        reveal_strlit("{\"throws\":[");
        reveal_strlit("],\"state\":");
        reveal_strlit(",\"max_height\":");
        reveal_strlit(",\"num_throws\":");
        reveal_strlit("}");
        reveal_strlit(",");
    }
    push_literal(&mut buf, "{\"throws\":[");
    let ghost throws_start = buf@;
    let mut k: usize = 0;
    while k < throws.len()
        invariant
            k <= throws@.len(),
            max_height <= MAX_MAX_HEIGHT,
            ps == throw_pairs(throws@),
            buf@ =~= throws_start + joined_throws(
                ps.take(k as int),
                max_height as nat,
                compact,
                reversed,
            ),
        decreases throws@.len() - k,
    {
        proof {
            reveal_strlit(",");
            reveal_strlit("{\"height\":");
            reveal_strlit(",\"destination\":");
            reveal_strlit("}");
        }
        if k > 0 {
            push_literal(&mut buf, ",");
        }
        let t = &throws[k];
        push_literal(&mut buf, "{\"height\":");
        push_decimal_bytes(&mut buf, t.height() as u64);
        push_literal(&mut buf, ",\"destination\":");
        push_state_value(&mut buf, t.destination().bits(), max_height, compact, reversed);
        push_literal(&mut buf, "}");
        k = k + 1;
        proof {
            let taken = ps.take(k as int);
            assert(taken.drop_last() =~= ps.take(k as int - 1));
            assert(taken.last() == ps[k as int - 1]);
            assert(buf@ =~= throws_start + joined_throws(
                taken,
                max_height as nat,
                compact,
                reversed,
            ));
        }
    }
    proof {
        assert(ps.take(ps.len() as int) =~= ps);
    }
    push_literal(&mut buf, "],\"state\":");
    push_state_value(&mut buf, params.state, max_height, compact, reversed);
    push_literal(&mut buf, ",\"max_height\":");
    push_decimal_bytes(&mut buf, max_height as u64);
    push_literal(&mut buf, ",\"num_throws\":");
    push_decimal_bytes(&mut buf, throws.len() as u64);
    push_literal(&mut buf, "}");
    proof {
        assert(buf@ =~= throws_json(
            params.state as nat,
            ps,
            max_height as nat,
            compact,
            reversed,
        ));
    }
    buf
}

} // verus!
