//! Transitions between juggling states: the one-beat advance rule that turns a
//! state into its legal successors, and the per-state throw view built on it.

use vstd::prelude::*;

verus! {

use vstd::arithmetic::power2::{pow2, lemma_pow2_pos, lemma_pow2_unfold, lemma_pow2_adds};
use vstd::arithmetic::div_mod::{lemma_fundamental_div_mod, lemma_div_denominator};
use vstd::bits::{lemma_u32_shr_is_div, lemma_u32_shl_is_mul, lemma_u32_pow2_no_overflow};
use crate::combinatorics::{popcount, lemma_popcount_add_pow2};
use crate::state::{State, bit_at};
use crate::{Bits, MAX_MAX_HEIGHT};

/// The throws available once the beat has advanced: for every free landing
/// slot `j` in `from_pos..max_height` of `shifted`, one `(height, destination)`
/// pair `(j + 1, shifted + pow2(j))`, lowest height first.
pub open spec fn throw_seq(shifted: nat, max_height: nat, from_pos: nat) -> Seq<(nat, nat)>
    decreases max_height - from_pos,
{
    if from_pos >= max_height {
        Seq::empty()
    } else if !bit_at(shifted, from_pos) {
        seq![((from_pos + 1) as nat, (shifted + pow2(from_pos)) as nat)] + throw_seq(
            shifted,
            max_height,
            from_pos + 1,
        )
    } else {
        throw_seq(shifted, max_height, from_pos + 1)
    }
}

/// All transitions out of `bits` under `max_height`, as `(height, destination)`
/// pairs: a single zero-throw to the shifted state when no prop lands on the
/// current beat, otherwise one throw per free landing slot.
pub open spec fn transition_seq(bits: nat, max_height: nat) -> Seq<(nat, nat)> {
    if bits % 2 == 0 {
        seq![(0 as nat, bits / 2)]
    } else {
        throw_seq(bits / 2, max_height, 0)
    }
}

/// Setting a free bit `j` of a mask below `pow2(m)` keeps it below `pow2(m)`
/// and raises its popcount by one.
proof fn lemma_set_free_bit(s: nat, j: nat, m: nat)
    requires
        s < pow2(m),
        j < m,
        !bit_at(s, j),
    ensures
        s + pow2(j) < pow2(m),
        popcount(s + pow2(j)) == popcount(s) + 1,
{
    lemma_popcount_add_pow2(s, j);
    let p = pow2(j);
    let pp = pow2(j + 1);
    lemma_pow2_unfold(j + 1);
    lemma_pow2_pos(j);
    lemma_pow2_pos(j + 1);
    lemma_pow2_adds(j + 1, (m - j - 1) as nat);
    let hi = pow2((m - j - 1) as nat);
    lemma_pow2_pos((m - j - 1) as nat);
    let q = s / pp;
    let r = s % pp;
    lemma_fundamental_div_mod(s as int, pp as int);
    assert(s == q * pp + r);
    assert(s / p == 2 * q + r / p) by (nonlinear_arith)
        requires
            s == q * pp + r,
            pp == 2 * p,
            p > 0,
            0 <= r < pp,
            q >= 0,
    ;
    assert((2 * q + r / p) % 2 == 0);
    assert(r / p < 2) by (nonlinear_arith)
        requires
            r < 2 * p,
            p > 0,
    ;
    assert(r / p == 0) by (nonlinear_arith)
        requires
            r / p < 2,
            (2 * q + r / p) % 2 == 0,
            q >= 0,
            r / p >= 0,
    ;
    assert(r < p) by (nonlinear_arith)
        requires
            r / p == 0,
            p > 0,
            r >= 0,
    ;
    assert(q < hi) by (nonlinear_arith)
        requires
            q * pp + r < pp * hi,
            pp > 0,
            r >= 0,
            q >= 0,
    ;
    assert(s + p < (q + 1) * pp) by (nonlinear_arith)
        requires
            s == q * pp + r,
            r + p < pp,
    ;
    assert((q + 1) * pp <= hi * pp) by (nonlinear_arith)
        requires
            q + 1 <= hi,
            pp > 0,
    ;
}

/// Out of `max_height - from_pos` scanned slots, exactly those not already
/// occupied yield a throw.
proof fn lemma_throw_seq_len(shifted: nat, max_height: nat, from_pos: nat)
    requires
        shifted < pow2(max_height),
        from_pos <= max_height,
    ensures
        throw_seq(shifted, max_height, from_pos).len() + popcount(shifted / pow2(from_pos))
            == max_height - from_pos,
    decreases max_height - from_pos,
{
    lemma_pow2_pos(from_pos);
    if from_pos == max_height {
        assert(shifted / pow2(max_height) == 0) by (nonlinear_arith)
            requires
                shifted < pow2(max_height),
                pow2(max_height) > 0,
        ;
    } else {
        lemma_throw_seq_len(shifted, max_height, from_pos + 1);
        lemma_pow2_unfold(from_pos + 1);
        lemma_pow2_pos(from_pos + 1);
        lemma_div_denominator(shifted as int, pow2(from_pos) as int, 2);
        assert(shifted / pow2(from_pos) / 2 == shifted / pow2(from_pos + 1));
        assert(popcount(shifted / pow2(from_pos)) == (shifted / pow2(from_pos)) % 2 + popcount(
            shifted / pow2(from_pos + 1),
        ));
    }
}

/// Every throw the scan yields lands in a slot that was free: its height lies
/// in `from_pos + 1 ..= max_height`, and its destination stays inside the
/// width with one more prop than `shifted`.
proof fn lemma_throw_seq_elems(shifted: nat, max_height: nat, from_pos: nat)
    requires
        shifted < pow2(max_height),
    ensures
        forall|k: int|
            0 <= k < throw_seq(shifted, max_height, from_pos).len() ==> {
                let (h, d) = #[trigger] throw_seq(shifted, max_height, from_pos)[k];
                from_pos + 1 <= h <= max_height && d == shifted + pow2((h - 1) as nat) && d < pow2(
                    max_height,
                ) && popcount(d) == popcount(shifted) + 1
            },
    decreases max_height - from_pos,
{
    if from_pos >= max_height {
    } else {
        lemma_throw_seq_elems(shifted, max_height, from_pos + 1);
        let s = throw_seq(shifted, max_height, from_pos);
        let rest = throw_seq(shifted, max_height, from_pos + 1);
        if !bit_at(shifted, from_pos) {
            lemma_set_free_bit(shifted, from_pos, max_height);
            assert forall|k: int| 0 <= k < s.len() implies {
                let (h, d) = #[trigger] s[k];
                from_pos + 1 <= h <= max_height && d == shifted + pow2((h - 1) as nat) && d < pow2(
                    max_height,
                ) && popcount(d) == popcount(shifted) + 1
            } by {
                if k > 0 {
                    assert(s[k] == rest[k - 1]);
                }
            }
        }
    }
}

/// Throws are listed in strictly increasing height order, and no two land in
/// the same slot.
proof fn lemma_throw_seq_distinct(shifted: nat, max_height: nat, from_pos: nat)
    requires
        shifted < pow2(max_height),
    ensures
        forall|k1: int, k2: int|
            0 <= k1 < k2 < throw_seq(shifted, max_height, from_pos).len() ==> #[trigger] throw_seq(
                shifted,
                max_height,
                from_pos,
            )[k1].0 < #[trigger] throw_seq(shifted, max_height, from_pos)[k2].0 && throw_seq(
                shifted,
                max_height,
                from_pos,
            )[k1].1 != throw_seq(shifted, max_height, from_pos)[k2].1,
    decreases max_height - from_pos,
{
    if from_pos >= max_height {
    } else {
        lemma_throw_seq_distinct(shifted, max_height, from_pos + 1);
        lemma_throw_seq_elems(shifted, max_height, from_pos + 1);
        let s = throw_seq(shifted, max_height, from_pos);
        let rest = throw_seq(shifted, max_height, from_pos + 1);
        if !bit_at(shifted, from_pos) {
            assert forall|k1: int, k2: int| 0 <= k1 < k2 < s.len() implies #[trigger] s[k1].0
                < #[trigger] s[k2].0 && s[k1].1 != s[k2].1 by {
                assert(s[k2] == rest[k2 - 1]);
                if k1 == 0 {
                    let (h2, d2) = rest[k2 - 1];
                    assert(d2 == shifted + pow2((h2 - 1) as nat));
                    vstd::arithmetic::power2::lemma_pow2_strictly_increases(
                        from_pos,
                        (h2 - 1) as nat,
                    );
                } else {
                    assert(s[k1] == rest[k1 - 1]);
                }
            }
        }
    }
}

/// No two transitions out of one state share a destination, and their heights
/// are pairwise distinct.
pub proof fn lemma_transition_seq_distinct(bits: nat, max_height: nat)
    requires
        bits < pow2(max_height),
    ensures
        forall|k1: int, k2: int|
            0 <= k1 < k2 < transition_seq(bits, max_height).len() ==> #[trigger] transition_seq(
                bits,
                max_height,
            )[k1].1 != #[trigger] transition_seq(bits, max_height)[k2].1,
{
    if bits % 2 == 0 {
    } else {
        assert(bits / 2 <= bits);
        lemma_throw_seq_distinct(bits / 2, max_height, 0);
        let s = transition_seq(bits, max_height);
        let ts = throw_seq(bits / 2, max_height, 0);
        assert forall|k1: int, k2: int| 0 <= k1 < k2 < s.len() implies #[trigger] s[k1].1
            != #[trigger] s[k2].1 by {
            assert(throw_seq(bits / 2, max_height, 0)[k1].0 < throw_seq(
                bits / 2,
                max_height,
                0,
            )[k2].0);
            assert(s[k1] == ts[k1] && s[k2] == ts[k2]);
        }
    }
}

/// One legal one-beat advance of the pattern: a throw of `throw_height` beats
/// taking `from` to `to`.
#[derive(Debug)]
pub struct Transition {
    from: State,
    to: State,
    throw_height: u8,
    max_height: u8,
}

impl Transition {
    /// The source state of this transition.
    pub closed spec fn spec_from(&self) -> State {
        self.from
    }

    /// The destination state of this transition.
    pub closed spec fn spec_to(&self) -> State {
        self.to
    }

    /// The throw height of this transition.
    pub closed spec fn spec_throw_height(&self) -> u8 {
        self.throw_height
    }

    /// The width this transition was derived under.
    pub closed spec fn spec_max_height(&self) -> u8 {
        self.max_height
    }

    /// The source state.
    pub fn from(&self) -> (r: State)
        ensures
            r == self.spec_from(),
    {
        self.from
    }

    /// The destination state.
    pub fn to(&self) -> (r: State)
        ensures
            r == self.spec_to(),
    {
        self.to
    }

    /// The throw height: how many beats until the thrown prop lands again;
    /// zero when no prop landed and none was thrown.
    pub fn throw_height(&self) -> (r: u8)
        ensures
            r == self.spec_throw_height(),
    {
        self.throw_height
    }

    /// The destination state and throw height as text: the destination's
    /// display form followed by the height in parentheses.
    pub fn display(&self) -> (r: String)
        requires
            self.spec_max_height() <= MAX_MAX_HEIGHT,
        ensures
            r@ == crate::state::display_chars(
                self.spec_to()@ as nat,
                self.spec_max_height() as nat,
            ) + " ("@ + crate::text::decimal_chars(self.spec_throw_height() as nat) + ")"@,
    {
        let mut s = self.to.display(self.max_height);
        crate::text::push_char(&mut s, ' ');
        crate::text::push_char(&mut s, '(');
        crate::text::push_decimal(&mut s, self.throw_height as u64);
        crate::text::push_char(&mut s, ')');
        proof {
            reveal_strlit(" (");
            reveal_strlit(")");
            assert(s@ =~= crate::state::display_chars(
                self.spec_to()@ as nat,
                self.spec_max_height() as nat,
            ) + " ("@ + crate::text::decimal_chars(self.spec_throw_height() as nat) + ")"@);
        }
        s
    }

    /// Every legal transition out of `state` under `max_height`, in ascending
    /// order of throw height. Conserves the prop count: each destination has
    /// exactly as many set bits as the source.
    pub fn from_state(state: State, max_height: u8) -> (r: Vec<Transition>)
        requires
            max_height <= MAX_MAX_HEIGHT,
            (state@ as nat) < pow2(max_height as nat),
        ensures
            r@.len() == transition_seq(state@ as nat, max_height as nat).len(),
            forall|i: int|
                0 <= i < r@.len() ==> {
                    let t = #[trigger] r@[i];
                    t.spec_from() == state && t.spec_max_height() == max_height && (
                    t.spec_throw_height() as nat) == transition_seq(
                        state@ as nat,
                        max_height as nat,
                    )[i].0 && (t.spec_to()@ as nat) == transition_seq(
                        state@ as nat,
                        max_height as nat,
                    )[i].1
                },
            forall|i: int|
                0 <= i < r@.len() ==> popcount(#[trigger] r@[i].spec_to()@ as nat) == popcount(
                    state@ as nat,
                ) && (r@[i].spec_to()@ as nat) < pow2(max_height as nat),
            (state@ as nat) % 2 == 1 ==> r@.len() + popcount((state@ as nat) / 2) == max_height
                as nat,
            (state@ as nat) % 2 == 0 ==> r@.len() == 1,
    {
        let ghost bits = state@ as nat;
        let ghost mh = max_height as nat;
        let mut transitions: Vec<Transition> = Vec::new();
        let rightmost = state.bits() & 1 != 0;
        proof {
            let b = state@;
            assert(b & 1 == b % 2) by (bit_vector);
        }
        let shifted = state.bits() >> 1;
        proof {
            lemma_u32_shr_is_div(state@, 1u32);
            assert(pow2(1) == 2) by {
                vstd::arithmetic::power2::lemma2_to64();
            }
            assert((shifted as nat) <= bits);
            lemma_pow2_pos(mh);
        }
        if !rightmost {
            transitions.push(
                Transition {
                    from: state,
                    to: State::from_bits(shifted),
                    throw_height: 0,
                    max_height,
                },
            );
            proof {
                assert(popcount(bits) == bits % 2 + popcount(bits / 2));
                assert(transitions@[0].spec_to()@ as nat == transition_seq(bits, mh)[0].1);
            }
        } else {
            proof {
                lemma_throw_seq_len(shifted as nat, mh, 0);
                lemma_throw_seq_elems(shifted as nat, mh, 0);
                assert(pow2(0) == 1) by {
                    vstd::arithmetic::power2::lemma2_to64();
                }
                assert((shifted as nat) / pow2(0) == shifted as nat);
                assert(popcount(bits) == 1 + popcount(shifted as nat));
            }
            let ghost whole = throw_seq(shifted as nat, mh, 0);
            let mut bit_pos: u8 = 0;
            while bit_pos < max_height
                invariant
                    max_height <= MAX_MAX_HEIGHT,
                    bit_pos <= max_height,
                    (shifted as nat) < pow2(mh),
                    mh == max_height as nat,
                    whole == throw_seq(shifted as nat, mh, 0),
                    transitions@.len() + throw_seq(shifted as nat, mh, bit_pos as nat).len()
                        == whole.len(),
                    forall|i: int|
                        0 <= i < transitions@.len() ==> {
                            let t = #[trigger] transitions@[i];
                            t.spec_from() == state && t.spec_max_height() == max_height && (
                            t.spec_throw_height() as nat) == whole[i].0 && (t.spec_to()@ as nat)
                                == whole[i].1
                        },
                    forall|j: int|
                        0 <= j < throw_seq(shifted as nat, mh, bit_pos as nat).len()
                            ==> #[trigger] throw_seq(shifted as nat, mh, bit_pos as nat)[j]
                            == whole[transitions@.len() + j],
                decreases max_height - bit_pos,
            {
                let ghost before = transitions@;
                let ghost tail = throw_seq(shifted as nat, mh, bit_pos as nat);
                let free = (shifted >> bit_pos) & 1 == 0;
                proof {
                    let b = shifted;
                    lemma_u32_shr_is_div(b, bit_pos as u32);
                    assert((b >> (bit_pos as u32)) & 1 == (b >> (bit_pos as u32)) % 2)
                        by (bit_vector);
                }
                if free {
                    proof {
                        lemma_u32_pow2_no_overflow(bit_pos as nat);
                        lemma_u32_shl_is_mul(1u32, bit_pos as u32);
                        lemma_set_free_bit(shifted as nat, bit_pos as nat, mh);
                        if mh < 32 {
                            vstd::arithmetic::power2::lemma_pow2_strictly_increases(mh, 32);
                        }
                        vstd::arithmetic::power2::lemma2_to64();
                    }
                    let new_bits = shifted + (1u32 << bit_pos);
                    let throw_height = bit_pos + 1;
                    transitions.push(
                        Transition {
                            from: state,
                            to: State::from_bits(new_bits),
                            throw_height,
                            max_height,
                        },
                    );
                    proof {
                        assert(tail[0] == (
                            (bit_pos + 1) as nat,
                            (shifted as nat + pow2(bit_pos as nat)) as nat,
                        ));
                        let rest = throw_seq(shifted as nat, mh, bit_pos as nat + 1);
                        assert(tail =~= seq![tail[0]] + rest);
                        assert forall|j: int| 0 <= j < rest.len() implies #[trigger] rest[j]
                            == whole[transitions@.len() + j] by {
                            assert(rest[j] == tail[j + 1]);
                            assert(tail[j + 1] == whole[before.len() + (j + 1)]);
                        }
                    }
                } else {
                    proof {
                        let rest = throw_seq(shifted as nat, mh, bit_pos as nat + 1);
                        assert(tail =~= rest);
                        assert forall|j: int| 0 <= j < rest.len() implies #[trigger] rest[j]
                            == whole[transitions@.len() + j] by {
                            assert(tail[j] == whole[before.len() + j]);
                        }
                    }
                }
                bit_pos = bit_pos + 1;
            }
            proof {
                assert(throw_seq(shifted as nat, mh, mh).len() == 0);
            }
        }
        transitions
    }
}

/// A transition seen from its source state alone: the throw height and where
/// it leads.
#[derive(Debug)]
pub struct Throw {
    height: u8,
    destination: State,
}

impl Throw {
    /// The throw height of this throw.
    pub closed spec fn spec_height(&self) -> u8 {
        self.height
    }

    /// The destination state of this throw.
    pub closed spec fn spec_destination(&self) -> State {
        self.destination
    }

    /// The throw height.
    pub fn height(&self) -> (r: u8)
        ensures
            r == self.spec_height(),
    {
        self.height
    }

    /// The destination state.
    pub fn destination(&self) -> (r: State)
        ensures
            r == self.spec_destination(),
    {
        self.destination
    }
}

/// The outgoing throws of one externally supplied state, independent of any
/// prop-count constraint: the transition rule's output without the redundant
/// source field. Rejects a width above the bit width and a state that does not
/// fit under it.
pub fn compute_throws(state: State, max_height: u8) -> (r: Result<Vec<Throw>, String>)
    ensures
        r is Ok <==> max_height <= MAX_MAX_HEIGHT && (state@ as nat) < pow2(max_height as nat),
        r matches Ok(throws) ==> {
            &&& throws@.len() == transition_seq(state@ as nat, max_height as nat).len()
            &&& forall|i: int|
                0 <= i < throws@.len() ==> {
                    let t = #[trigger] throws@[i];
                    (t.spec_height() as nat) == transition_seq(state@ as nat, max_height as nat)[i].0
                        && (t.spec_destination()@ as nat) == transition_seq(
                        state@ as nat,
                        max_height as nat,
                    )[i].1
                }
        },
        max_height > MAX_MAX_HEIGHT ==> (r matches Err(m) && m@
            == "max_height exceeds the bit width"@),
        max_height <= MAX_MAX_HEIGHT && (state@ as nat) >= pow2(max_height as nat) ==> (
        r matches Err(m) && m@ == "bits set at or above max_height"@),
{
    if max_height > MAX_MAX_HEIGHT {
        return Err("max_height exceeds the bit width".to_owned());
    }
    proof {
        lemma_pow2_pos(max_height as nat);
        if max_height < MAX_MAX_HEIGHT {
            lemma_u32_shr_is_div(state@, max_height as u32);
            assert((state@ as nat) / pow2(max_height as nat) == 0 <==> (state@ as nat) < pow2(
                max_height as nat,
            )) by (nonlinear_arith)
                requires
                    pow2(max_height as nat) > 0,
            ;
        } else {
            vstd::arithmetic::power2::lemma2_to64();
        }
    }
    if max_height < MAX_MAX_HEIGHT && state.bits() >> max_height != 0 {
        return Err("bits set at or above max_height".to_owned());
    }
    let transitions = Transition::from_state(state, max_height);
    let mut throws: Vec<Throw> = Vec::new();
    let mut i: usize = 0;
    while i < transitions.len()
        invariant
            i <= transitions@.len(),
            throws@.len() == i,
            forall|j: int|
                0 <= j < i ==> {
                    let t = #[trigger] throws@[j];
                    t.spec_height() == transitions@[j].spec_throw_height()
                        && t.spec_destination() == transitions@[j].spec_to()
                },
        decreases transitions@.len() - i,
    {
        let t = &transitions[i];
        throws.push(Throw { height: t.throw_height(), destination: t.to() });
        i = i + 1;
    }
    Ok(throws)
}

} // verus!
