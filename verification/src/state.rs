//! The juggling state itself: a fixed-width bitmask in which bit `p` says that
//! a prop lands `p` beats from now, together with its textual renderings.

use vstd::prelude::*;

verus! {

use vstd::arithmetic::power2::{pow2, lemma_pow2_pos, lemma_pow2_unfold, lemma_pow2_adds, lemma2_to64};
use vstd::bits::{lemma_u32_shr_is_div, lemma_u32_shl_is_mul, lemma_u32_pow2_no_overflow};
use crate::combinatorics::{
    binom, popcount, lemma_popcount_mod_step, lemma_popcount_add_pow2, lemma_popcount_bound,
    lemma_binom_above, lemma_binom_pos,
};
use crate::text::push_char;
use crate::{Bits, MAX_MAX_HEIGHT};

/// Whether bit `pos` of `bits` is set.
pub open spec fn bit_at(bits: nat, pos: nat) -> bool {
    (bits / pow2(pos)) % 2 == 1
}

/// The binary rendering of the low `max_height` bits, most significant first:
/// `'1'` for an occupied beat, `'0'` for an empty one.
pub open spec fn binary_chars(bits: nat, max_height: nat) -> Seq<char> {
    Seq::new(
        max_height,
        |i: int| if bit_at(bits, (max_height - 1 - i) as nat) { '1' } else { '0' },
    )
}

/// The display rendering of the low `max_height` bits, most significant first:
/// `'x'` for an occupied beat, `'0'` for an empty one.
pub open spec fn display_chars(bits: nat, max_height: nat) -> Seq<char> {
    Seq::new(
        max_height,
        |i: int| if bit_at(bits, (max_height - 1 - i) as nat) { 'x' } else { '0' },
    )
}

/// The siteswap character for a gap of length `n`: `'0'`-`'9'` for 0-9,
/// `'a'`-`'z'` for 10-35, `'?'` beyond.
pub open spec fn siteswap_char_of(n: nat) -> char {
    if n <= 9 {
        ((48 + n) as u8) as char
    } else if n <= 35 {
        ((97 + (n - 10)) as u8) as char
    } else {
        '?'
    }
}

/// The abbreviated (siteswap) rendering of the low `pos` bits, scanning from
/// the most significant bit down with `gap` empty beats already seen: one
/// character per occupied beat, encoding the length of the gap before it.
pub open spec fn abbreviated_chars(bits: nat, pos: nat, gap: nat) -> Seq<char>
    decreases pos,
{
    if pos == 0 {
        Seq::empty()
    } else if bit_at(bits, (pos - 1) as nat) {
        seq![siteswap_char_of(gap)] + abbreviated_chars(bits, (pos - 1) as nat, 0)
    } else {
        abbreviated_chars(bits, (pos - 1) as nat, gap + 1)
    }
}

/// A juggling state. Bit positions count beats from now; the state is only
/// meaningful together with the `max_height` it was validated against.
#[derive(Clone, Copy, PartialEq, Eq, Hash, Debug, Structural)]
pub struct State(Bits);

impl View for State {
    type V = Bits;

    closed spec fn view(&self) -> Bits {
        self.0
    }
}

/// Two states are equal exactly when their bitmasks are equal.
pub proof fn lemma_state_eq(a: State, b: State)
    ensures
        (a == b) <==> (a@ == b@),
{
}

/// The siteswap character for a gap of length `n`.
pub fn siteswap_char(n: u8) -> (c: char)
    ensures
        c == siteswap_char_of(n as nat),
{
    if n <= 9 {
        (48 + n) as char
    } else if n <= 35 {
        (97 + (n - 10)) as char
    } else {
        '?'
    }
}

impl State {
    /// Wraps `bits` after checking that it fits under `max_height`: no bit at
    /// or above position `max_height` may be set.
    pub fn new(bits: Bits, max_height: u8) -> (r: Result<State, String>)
        ensures
            r is Ok <==> max_height <= MAX_MAX_HEIGHT && (bits as nat) < pow2(max_height as nat),
            (r matches Ok(s) ==> s@ == bits),
            max_height > MAX_MAX_HEIGHT ==> (r matches Err(m) && m@
                == "max_height exceeds the bit width"@),
            max_height <= MAX_MAX_HEIGHT && (bits as nat) >= pow2(max_height as nat) ==> (
            r matches Err(m) && m@ == "bits set at or above max_height"@),
    {
        if max_height > MAX_MAX_HEIGHT {
            return Err("max_height exceeds the bit width".to_owned());
        }
        if max_height < MAX_MAX_HEIGHT {
            proof {
                lemma_u32_shr_is_div(bits, max_height as u32);
                lemma_pow2_pos(max_height as nat);
                assert((bits as nat) / pow2(max_height as nat) == 0 <==> (bits as nat) < pow2(
                    max_height as nat,
                )) by (nonlinear_arith)
                    requires
                        pow2(max_height as nat) > 0,
                ;
            }
            if bits >> max_height != 0 {
                return Err("bits set at or above max_height".to_owned());
            }
        } else {
            proof {
                lemma2_to64();
            }
        }
        Ok(State(bits))
    }

    /// Wraps `bits` unchecked; for internal use where the arithmetic already
    /// guarantees that the mask fits.
    pub(crate) fn from_bits(bits: Bits) -> (r: State)
        ensures
            r@ == bits,
    {
        State(bits)
    }

    /// The raw bitmask underlying this state.
    pub fn bits(&self) -> (r: Bits)
        ensures
            r == self@,
    {
        self.0
    }

    /// Whether a prop is scheduled to land `pos` beats from now.
    pub fn prop_at(&self, pos: u8) -> (r: bool)
        requires
            pos < MAX_MAX_HEIGHT,
        ensures
            r == bit_at(self@ as nat, pos as nat),
    {
        proof {
            let b = self.0;
            lemma_u32_shr_is_div(b, pos as u32);
            assert((b >> (pos as u32)) & 1 == (b >> (pos as u32)) % 2) by (bit_vector);
        }
        (self.0 >> pos) & 1 != 0
    }

    /// The state as a string of `'x'` and `'0'`, most significant beat first.
    pub fn display(&self, max_height: u8) -> (r: String)
        requires
            max_height <= MAX_MAX_HEIGHT,
        ensures
            r@ == display_chars(self@ as nat, max_height as nat),
    {
        let mut s = String::new();
        let mut i: u8 = max_height;
        while i > 0
            invariant
                i <= max_height <= MAX_MAX_HEIGHT,
                s@ =~= display_chars(self@ as nat, max_height as nat).take(
                    (max_height - i) as int,
                ),
            decreases i,
        {
            i = i - 1;
            if self.prop_at(i) {
                push_char(&mut s, 'x');
            } else {
                push_char(&mut s, '0');
            }
            proof {
                assert(s@ =~= display_chars(self@ as nat, max_height as nat).take(
                    (max_height - i) as int,
                ));
            }
        }
        proof {
            assert(s@ =~= display_chars(self@ as nat, max_height as nat));
        }
        s
    }

    /// The state as a string of `'1'` and `'0'`, most significant beat first.
    pub fn to_binary_string(self, max_height: u8) -> (r: String)
        requires
            max_height <= MAX_MAX_HEIGHT,
        ensures
            r@ == binary_chars(self@ as nat, max_height as nat),
    {
        let mut s = String::new();
        let mut i: u8 = max_height;
        while i > 0
            invariant
                i <= max_height <= MAX_MAX_HEIGHT,
                s@ =~= binary_chars(self@ as nat, max_height as nat).take((max_height - i) as int),
            decreases i,
        {
            i = i - 1;
            if self.prop_at(i) {
                push_char(&mut s, '1');
            } else {
                push_char(&mut s, '0');
            }
            proof {
                assert(s@ =~= binary_chars(self@ as nat, max_height as nat).take(
                    (max_height - i) as int,
                ));
            }
        }
        proof {
            assert(s@ =~= binary_chars(self@ as nat, max_height as nat));
        }
        s
    }

    /// The state in abbreviated siteswap notation: one character per occupied
    /// beat, giving the run of empty beats before it, scanned from the most
    /// significant beat down. The length equals the state's number of props.
    pub fn to_abbreviated_string(self, max_height: u8) -> (r: String)
        requires
            max_height <= MAX_MAX_HEIGHT,
        ensures
            r@ == abbreviated_chars(self@ as nat, max_height as nat, 0),
            r@.len() == popcount((self@ as nat) % pow2(max_height as nat)),
            (self@ as nat) < pow2(max_height as nat) ==> r@.len() == popcount(self@ as nat),
    {
        let mut s = String::new();
        let mut gap: u8 = 0;
        let mut i: u8 = max_height;
        while i > 0
            invariant
                i <= max_height <= MAX_MAX_HEIGHT,
                gap <= max_height - i,
                s@ + abbreviated_chars(self@ as nat, i as nat, gap as nat) =~= abbreviated_chars(
                    self@ as nat,
                    max_height as nat,
                    0,
                ),
            decreases i,
        {
            i = i - 1;
            if self.prop_at(i) {
                push_char(&mut s, siteswap_char(gap));
                gap = 0;
            } else {
                gap = gap + 1;
            }
            proof {
                assert(s@ + abbreviated_chars(self@ as nat, i as nat, gap as nat)
                    =~= abbreviated_chars(self@ as nat, max_height as nat, 0));
            }
        }
        proof {
            assert(s@ =~= abbreviated_chars(self@ as nat, max_height as nat, 0));
            lemma_abbreviated_len(self@ as nat, max_height as nat, 0);
            if (self@ as nat) < pow2(max_height as nat) {
                lemma_pow2_pos(max_height as nat);
                vstd::arithmetic::div_mod::lemma_small_mod(
                    self@ as nat,
                    pow2(max_height as nat),
                );
            }
        }
        s
    }
}

/// The sequence of bitmasks that the backtracking enumerator emits from one
/// search node: positions `pos..max_height` are still to decide (deciding bit
/// `max_height - 1 - pos` first, "leave unset" before "set"), `props_left`
/// bits are still to place, and `current` holds the bits already placed.
pub open spec fn gen_seq(max_height: nat, pos: nat, props_left: nat, current: nat) -> Seq<nat>
    decreases max_height - pos,
{
    if props_left > max_height - pos {
        Seq::empty()
    } else if pos == max_height {
        seq![current]
    } else {
        gen_seq(max_height, pos + 1, props_left, current) + (if props_left > 0 {
            gen_seq(
                max_height,
                pos + 1,
                (props_left - 1) as nat,
                current + pow2((max_height - 1 - pos) as nat),
            )
        } else {
            Seq::empty()
        })
    }
}

/// A multiple of `pow2(a + 1)` is a multiple of `pow2(a)` with an even quotient.
proof fn lemma_aligned_step(c: nat, a: nat)
    requires
        c % pow2(a + 1) == 0,
    ensures
        c % pow2(a) == 0,
        (c / pow2(a)) % 2 == 0,
{
    lemma_pow2_unfold(a + 1);
    lemma_pow2_pos(a);
    let p = pow2(a);
    let q = c / (2 * p);
    assert(c == q * (2 * p)) by (nonlinear_arith)
        requires
            c % (2 * p) == 0,
            p > 0,
            q == c / (2 * p),
    ;
    assert(c == (2 * q) * p) by (nonlinear_arith)
        requires
            c == q * (2 * p),
    ;
    vstd::arithmetic::div_mod::lemma_mod_multiples_basic(2 * (q as int), p as int);
    vstd::arithmetic::div_mod::lemma_div_by_multiple(2 * (q as int), p as int);
    assert(c % p == 0 && c / p == 2 * q);
}

/// A multiple of `pow2(a + 1)` below `pow2(b)` stays below `pow2(b)` after
/// setting bit `a`.
proof fn lemma_aligned_below(c: nat, a: nat, b: nat)
    requires
        c % pow2(a + 1) == 0,
        c < pow2(b),
        a + 1 <= b,
    ensures
        c + pow2(a + 1) <= pow2(b),
        c + pow2(a) < pow2(b),
{
    lemma_pow2_unfold(a + 1);
    lemma_pow2_pos(a);
    lemma_pow2_pos(a + 1);
    lemma_pow2_adds(a + 1, (b - a - 1) as nat);
    let p = pow2(a + 1);
    let m = pow2((b - a - 1) as nat);
    lemma_pow2_pos((b - a - 1) as nat);
    let q = c / p;
    assert(c == q * p) by (nonlinear_arith)
        requires
            c % p == 0,
            p > 0,
            q == c / p,
    ;
    assert(q * p < p * m ==> (q + 1) * p <= p * m) by (nonlinear_arith)
        requires
            p > 0,
            m > 0,
            q >= 0,
    ;
    assert(c + p == (q + 1) * p) by (nonlinear_arith)
        requires
            c == q * p,
    ;
}

/// Every node of the enumeration tree emits exactly `C(positions left, props left)`
/// bitmasks.
proof fn lemma_gen_seq_len(max_height: nat, pos: nat, props_left: nat, current: nat)
    requires
        pos <= max_height,
    ensures
        gen_seq(max_height, pos, props_left, current).len() == binom(
            (max_height - pos) as nat,
            props_left,
        ),
    decreases max_height - pos,
{
    let r = (max_height - pos) as nat;
    if props_left > r {
        lemma_binom_above(r, props_left);
    } else if pos == max_height {
    } else {
        lemma_gen_seq_len(max_height, pos + 1, props_left, current);
        if props_left > 0 {
            lemma_gen_seq_len(
                max_height,
                pos + 1,
                (props_left - 1) as nat,
                current + pow2((max_height - 1 - pos) as nat),
            );
        }
    }
}

/// Every emitted bitmask extends `current` inside the undecided low positions
/// and places exactly `props_left` more bits.
proof fn lemma_gen_seq_elems(max_height: nat, pos: nat, props_left: nat, current: nat)
    requires
        pos <= max_height,
        current % pow2((max_height - pos) as nat) == 0,
    ensures
        forall|j: int|
            0 <= j < gen_seq(max_height, pos, props_left, current).len() ==> {
                let v = #[trigger] gen_seq(max_height, pos, props_left, current)[j];
                current <= v < current + pow2((max_height - pos) as nat) && popcount(v)
                    == popcount(current) + props_left
            },
    decreases max_height - pos,
{
    let r = (max_height - pos) as nat;
    let s = gen_seq(max_height, pos, props_left, current);
    if props_left > r {
    } else if pos == max_height {
        lemma_pow2_pos(0);
    } else {
        let sh = (max_height - 1 - pos) as nat;
        lemma_aligned_step(current, sh);
        lemma_pow2_unfold(r);
        lemma_pow2_pos(sh);
        let left = gen_seq(max_height, pos + 1, props_left, current);
        lemma_gen_seq_elems(max_height, pos + 1, props_left, current);
        if props_left > 0 {
            let cur2 = current + pow2(sh);
            assert(cur2 % pow2(sh) == 0) by {
                let p = pow2(sh);
                let q = current / p;
                assert(current == q * p) by (nonlinear_arith)
                    requires
                        current % p == 0,
                        p > 0,
                        q == current / p,
                ;
                assert((q * p + p) % p == 0) by (nonlinear_arith)
                    requires
                        p > 0,
                        q >= 0,
                ;
            }
            lemma_gen_seq_elems(max_height, pos + 1, (props_left - 1) as nat, cur2);
            lemma_popcount_add_pow2(current, sh);
            let right = gen_seq(max_height, pos + 1, (props_left - 1) as nat, cur2);
            assert forall|j: int| 0 <= j < s.len() implies {
                let v = #[trigger] s[j];
                current <= v < current + pow2(r) && popcount(v) == popcount(current) + props_left
            } by {
                if j < left.len() {
                    assert(s[j] == left[j]);
                } else {
                    assert(s[j] == right[j - left.len()]);
                }
            }
        } else {
            assert forall|j: int| 0 <= j < s.len() implies {
                let v = #[trigger] s[j];
                current <= v < current + pow2(r) && popcount(v) == popcount(current) + props_left
            } by {
                assert(s[j] == left[j]);
            }
        }
    }
}

/// The first bitmask a feasible node emits packs all remaining props into the
/// lowest undecided positions.
proof fn lemma_gen_seq_first(max_height: nat, pos: nat, props_left: nat, current: nat)
    requires
        pos <= max_height,
        props_left <= max_height - pos,
    ensures
        gen_seq(max_height, pos, props_left, current).len() >= 1,
        gen_seq(max_height, pos, props_left, current)[0] == current + pow2(props_left) - 1,
    decreases max_height - pos,
{
    let r = (max_height - pos) as nat;
    lemma_gen_seq_len(max_height, pos, props_left, current);
    lemma_binom_pos(r, props_left);
    lemma_pow2_pos(props_left);
    if pos == max_height {
        assert(pow2(0) == 1) by {
            lemma2_to64();
        }
    } else {
        let sh = (max_height - 1 - pos) as nat;
        let left = gen_seq(max_height, pos + 1, props_left, current);
        if props_left <= r - 1 {
            lemma_gen_seq_first(max_height, pos + 1, props_left, current);
            assert(gen_seq(max_height, pos, props_left, current)[0] == left[0]);
        } else {
            // props_left == r: the skip branch is infeasible and empty
            lemma_gen_seq_len(max_height, pos + 1, props_left, current);
            lemma_binom_above((r - 1) as nat, props_left);
            assert(left.len() == 0);
            let cur2 = current + pow2(sh);
            lemma_gen_seq_first(max_height, pos + 1, (props_left - 1) as nat, cur2);
            assert(sh == props_left - 1);
            lemma_pow2_unfold(props_left);
            let right = gen_seq(max_height, pos + 1, (props_left - 1) as nat, cur2);
            assert(gen_seq(max_height, pos, props_left, current)[0] == right[0]);
            assert(cur2 + pow2((props_left - 1) as nat) - 1 == current + pow2(props_left) - 1);
        }
    }
}

/// No node emits the same bitmask twice.
proof fn lemma_gen_seq_distinct(max_height: nat, pos: nat, props_left: nat, current: nat)
    requires
        pos <= max_height,
        current % pow2((max_height - pos) as nat) == 0,
    ensures
        forall|i: int, j: int|
            0 <= i < j < gen_seq(max_height, pos, props_left, current).len() ==> #[trigger] gen_seq(
                max_height,
                pos,
                props_left,
                current,
            )[i] != #[trigger] gen_seq(max_height, pos, props_left, current)[j],
    decreases max_height - pos,
{
    let r = (max_height - pos) as nat;
    let s = gen_seq(max_height, pos, props_left, current);
    if props_left > r {
    } else if pos == max_height {
    } else {
        let sh = (max_height - 1 - pos) as nat;
        lemma_aligned_step(current, sh);
        lemma_pow2_unfold(r);
        let left = gen_seq(max_height, pos + 1, props_left, current);
        lemma_gen_seq_distinct(max_height, pos + 1, props_left, current);
        lemma_gen_seq_elems(max_height, pos + 1, props_left, current);
        if props_left > 0 {
            let cur2 = current + pow2(sh);
            assert(cur2 % pow2(sh) == 0) by {
                let p = pow2(sh);
                lemma_pow2_pos(sh);
                let q = current / p;
                assert(current == q * p) by (nonlinear_arith)
                    requires
                        current % p == 0,
                        p > 0,
                        q == current / p,
                ;
                assert((q * p + p) % p == 0) by (nonlinear_arith)
                    requires
                        p > 0,
                        q >= 0,
                ;
            }
            let right = gen_seq(max_height, pos + 1, (props_left - 1) as nat, cur2);
            lemma_gen_seq_distinct(max_height, pos + 1, (props_left - 1) as nat, cur2);
            lemma_gen_seq_elems(max_height, pos + 1, (props_left - 1) as nat, cur2);
            assert forall|i: int, j: int| 0 <= i < j < s.len() implies #[trigger] s[i]
                != #[trigger] s[j] by {
                if j < left.len() {
                    assert(s[i] == left[i] && s[j] == left[j]);
                } else if i >= left.len() {
                    assert(s[i] == right[i - left.len()] && s[j] == right[j - left.len()]);
                } else {
                    // the skip branch never sets bit `sh`, the place branch always does
                    assert(s[i] == left[i] && s[j] == right[j - left.len()]);
                    assert(left[i] < current + pow2(sh));
                    assert(right[j - left.len()] >= cur2);
                }
            }
        } else {
            assert forall|i: int, j: int| 0 <= i < j < s.len() implies #[trigger] s[i]
                != #[trigger] s[j] by {
                assert(s[i] == left[i] && s[j] == left[j]);
            }
        }
    }
}

/// Every bitmask that places `props_left` bits in the undecided positions is
/// emitted by the node.
proof fn lemma_gen_seq_complete(max_height: nat, pos: nat, props_left: nat, current: nat, v: nat)
    requires
        pos <= max_height,
        v < pow2((max_height - pos) as nat),
        popcount(v) == props_left,
    ensures
        gen_seq(max_height, pos, props_left, current).contains(current + v),
    decreases max_height - pos,
{
    let r = (max_height - pos) as nat;
    let s = gen_seq(max_height, pos, props_left, current);
    lemma_popcount_bound(v, r);
    if pos == max_height {
        assert(pow2(0) == 1) by {
            lemma2_to64();
        }
        assert(v == 0 && props_left == 0);
        assert(s[0] == current + v);
    } else {
        let sh = (max_height - 1 - pos) as nat;
        lemma_pow2_unfold(r);
        lemma_pow2_pos(sh);
        let left = gen_seq(max_height, pos + 1, props_left, current);
        let b = (v / pow2(sh)) % 2;
        assert(v / pow2(sh) < 2) by (nonlinear_arith)
            requires
                v < 2 * pow2(sh),
                pow2(sh) > 0,
        ;
        if b == 0 {
            assert(v / pow2(sh) == 0);
            assert(v < pow2(sh)) by (nonlinear_arith)
                requires
                    v / pow2(sh) == 0,
                    pow2(sh) > 0,
            ;
            lemma_gen_seq_complete(max_height, pos + 1, props_left, current, v);
            let i = choose|i: int| 0 <= i < left.len() && left[i] == current + v;
            assert(s[i] == current + v);
        } else {
            assert(v / pow2(sh) == 1);
            assert(v >= pow2(sh)) by (nonlinear_arith)
                requires
                    v / pow2(sh) == 1,
                    pow2(sh) > 0,
            ;
            let v2 = (v - pow2(sh)) as nat;
            assert(v2 < pow2(sh));
            assert(v2 / pow2(sh) == 0) by (nonlinear_arith)
                requires
                    v2 < pow2(sh),
                    pow2(sh) > 0,
            ;
            lemma_popcount_add_pow2(v2, sh);
            assert(popcount(v2) + 1 == props_left);
            let cur2 = current + pow2(sh);
            lemma_gen_seq_complete(max_height, pos + 1, (props_left - 1) as nat, cur2, v2);
            let right = gen_seq(max_height, pos + 1, (props_left - 1) as nat, cur2);
            assert(props_left <= r) by {
                lemma_popcount_bound(v, r);
            }
            let i = choose|i: int| 0 <= i < right.len() && right[i] == cur2 + v2;
            assert(s[left.len() + i] == right[i]);
            assert(cur2 + v2 == current + v);
        }
    }
}

impl State {
    /// One node of the backtracking search: decides positions `pos` and up,
    /// appending every completion of `current` that places `props_left` more
    /// bits to `states`, in skip-before-place order.
    fn backtrack(max_height: u8, pos: u8, props_left: u8, current: Bits, states: &mut Vec<State>)
        requires
            max_height <= MAX_MAX_HEIGHT,
            pos <= max_height,
            (current as nat) % pow2((max_height - pos) as nat) == 0,
            (current as nat) < pow2(max_height as nat),
        ensures
            final(states)@.len() == old(states)@.len() + gen_seq(
                max_height as nat,
                pos as nat,
                props_left as nat,
                current as nat,
            ).len(),
            forall|i: int| 0 <= i < old(states)@.len() ==> final(states)@[i] == old(states)@[i],
            forall|i: int|
                0 <= i < gen_seq(
                    max_height as nat,
                    pos as nat,
                    props_left as nat,
                    current as nat,
                ).len() ==> (#[trigger] final(states)@[old(states)@.len() + i]@ as nat) == gen_seq(
                    max_height as nat,
                    pos as nat,
                    props_left as nat,
                    current as nat,
                )[i],
        decreases max_height - pos,
    {
        let ghost mh = max_height as nat;
        let ghost whole = gen_seq(mh, pos as nat, props_left as nat, current as nat);
        let ghost pre = states@;
        let remaining = max_height - pos;
        if props_left > remaining {
            proof {
                assert(whole =~= Seq::<nat>::empty());
            }
            return ;
        }
        if pos == max_height {
            if props_left == 0 {
                states.push(State(current));
            }
            proof {
                assert(whole =~= seq![current as nat]);
                assert(states@[pre.len() as int]@ as nat == whole[0]);
            }
            return ;
        }
        let sh = max_height - 1 - pos;
        proof {
            lemma_aligned_step(current as nat, sh as nat);
        }
        Self::backtrack(max_height, pos + 1, props_left, current, states);
        let ghost left = gen_seq(mh, pos as nat + 1, props_left as nat, current as nat);
        let ghost mid = states@;
        if props_left > 0 {
            proof {
                lemma_u32_pow2_no_overflow(sh as nat);
                lemma_u32_shl_is_mul(1u32, sh as u32);
                lemma_aligned_below(current as nat, sh as nat, max_height as nat);
                if max_height < 32 {
                    vstd::arithmetic::power2::lemma_pow2_strictly_increases(mh, 32);
                }
                lemma2_to64();
                let p = pow2(sh as nat);
                lemma_pow2_pos(sh as nat);
                let q = (current as nat) / p;
                assert(current as nat == q * p) by (nonlinear_arith)
                    requires
                        (current as nat) % p == 0,
                        p > 0,
                        q == (current as nat) / p,
                ;
                assert((q * p + p) % p == 0) by (nonlinear_arith)
                    requires
                        p > 0,
                        q >= 0,
                ;
            }
            let placed = current + (1u32 << sh);
            Self::backtrack(max_height, pos + 1, props_left - 1, placed, states);
            proof {
                let right = gen_seq(mh, pos as nat + 1, (props_left - 1) as nat, placed as nat);
                assert(whole =~= left + right);
                assert forall|i: int| 0 <= i < whole.len() implies (#[trigger] states@[pre.len()
                    + i]@ as nat) == whole[i] by {
                    if i < left.len() {
                        assert(states@[pre.len() + i] == mid[pre.len() + i]);
                        assert(mid[pre.len() + i]@ as nat == left[i]);
                        assert(whole[i] == left[i]);
                    } else {
                        assert(states@[mid.len() + (i - left.len())]@ as nat == right[i
                            - left.len()]);
                        assert(whole[i] == right[i - left.len()]);
                    }
                }
            }
        } else {
            proof {
                assert(whole =~= left);
            }
        }
    }

    /// All states with exactly `num_props` props within `max_height` beats, in
    /// backtracking order: exactly `C(max_height, num_props)` distinct masks,
    /// each inside the width, each with popcount `num_props`, the ground state
    /// first, and no valid mask missing.
    pub fn generate(num_props: u8, max_height: u8) -> (r: Vec<State>)
        requires
            max_height <= MAX_MAX_HEIGHT,
        ensures
            r@.len() == binom(max_height as nat, num_props as nat),
            r@.len() == gen_seq(max_height as nat, 0, num_props as nat, 0).len(),
            forall|i: int|
                0 <= i < r@.len() ==> (#[trigger] r@[i]@ as nat) == gen_seq(
                    max_height as nat,
                    0,
                    num_props as nat,
                    0,
                )[i],
            forall|i: int|
                0 <= i < r@.len() ==> (#[trigger] r@[i]@ as nat) < pow2(max_height as nat),
            forall|i: int|
                0 <= i < r@.len() ==> popcount(#[trigger] r@[i]@ as nat) == num_props as nat,
            forall|i: int, j: int| 0 <= i < j < r@.len() ==> r@[i]@ != r@[j]@,
            num_props <= max_height ==> r@.len() >= 1 && (r@[0]@ as nat) == pow2(num_props as nat)
                - 1,
            forall|v: nat|
                v < pow2(max_height as nat) && #[trigger] popcount(v) == num_props as nat
                    ==> exists|i: int| 0 <= i < r@.len() && (#[trigger] r@[i]@ as nat) == v,
    {
        let mut states: Vec<State> = Vec::new();
        proof {
            lemma_pow2_pos(max_height as nat);
        }
        Self::backtrack(max_height, 0, num_props, 0, &mut states);
        proof {
            let mh = max_height as nat;
            let np = num_props as nat;
            let s = gen_seq(mh, 0, np, 0);
            assert forall|i: int| 0 <= i < states@.len() implies (#[trigger] states@[i]@ as nat)
                == s[i] by {
                assert((states@[0 + i]@ as nat) == s[i]);
            }
            lemma_gen_seq_len(mh, 0, np, 0);
            lemma_gen_seq_elems(mh, 0, np, 0);
            lemma_gen_seq_distinct(mh, 0, np, 0);
            if num_props <= max_height {
                lemma_gen_seq_first(mh, 0, np, 0);
                lemma_pow2_pos(np);
            }
            assert forall|v: nat| v < pow2(mh) && #[trigger] popcount(v) == np implies exists|i: int|
                0 <= i < states@.len() && (#[trigger] states@[i]@ as nat) == v by {
                lemma_gen_seq_complete(mh, 0, np, 0, v);
                assert(s.contains(0 + v));
                let i = choose|i: int| 0 <= i < s.len() && s[i] == 0 + v;
                assert((states@[i]@ as nat) == v);
            }
        }
        states
    }
}

/// The display and binary renderings of one state agree position for
/// position: `'x'` stands exactly where `'1'` does, and `'0'` exactly where
/// `'0'` does.
pub proof fn lemma_display_binary_agree(bits: nat, max_height: nat)
    ensures
        display_chars(bits, max_height).len() == binary_chars(bits, max_height).len(),
        forall|k: int|
            0 <= k < max_height ==> ((#[trigger] display_chars(bits, max_height)[k]) == 'x'
                <==> binary_chars(bits, max_height)[k] == '1'),
        forall|k: int|
            0 <= k < max_height ==> ((#[trigger] display_chars(bits, max_height)[k]) == '0'
                <==> binary_chars(bits, max_height)[k] == '0'),
{
}

/// The abbreviated rendering has one character per set bit among the low
/// `pos` bits, whatever gap count the scan starts with.
pub proof fn lemma_abbreviated_len(bits: nat, pos: nat, gap: nat)
    ensures
        abbreviated_chars(bits, pos, gap).len() == popcount(bits % pow2(pos)),
    decreases pos,
{
    if pos == 0 {
        assert(pow2(0) == 1) by {
            lemma2_to64();
        }
    } else {
        lemma_popcount_mod_step(bits, (pos - 1) as nat);
        if bit_at(bits, (pos - 1) as nat) {
            lemma_abbreviated_len(bits, (pos - 1) as nat, 0);
        } else {
            lemma_abbreviated_len(bits, (pos - 1) as nat, gap + 1);
        }
    }
}

} // verus!
