//! Binomial coefficients and population counts: the counting backbone of the
//! state enumerator and of the cache sizing helper.

use vstd::prelude::*;

verus! {

use vstd::arithmetic::power2::{pow2, lemma_pow2_unfold, lemma_pow2_pos, lemma_pow2_adds, lemma2_to64};
use vstd::arithmetic::div_mod::{lemma_mod_breakdown, lemma_div_denominator};

/// The binomial coefficient `C(n, k)`, defined by Pascal's rule.
pub open spec fn binom(n: nat, k: nat) -> nat
    decreases n, k,
{
    if k == 0 {
        1
    } else if n == 0 {
        0
    } else {
        binom((n - 1) as nat, (k - 1) as nat) + binom((n - 1) as nat, k)
    }
}

/// The number of set bits in the binary representation of `n`.
pub open spec fn popcount(n: nat) -> nat
    decreases n,
{
    if n == 0 {
        0
    } else {
        n % 2 + popcount(n / 2)
    }
}

/// Choosing more elements than are available is impossible.
pub proof fn lemma_binom_above(n: nat, k: nat)
    requires
        k > n,
    ensures
        binom(n, k) == 0,
    decreases n,
{
    if n > 0 {
        lemma_binom_above((n - 1) as nat, (k - 1) as nat);
        lemma_binom_above((n - 1) as nat, k);
    }
}

/// Choosing all elements can be done in exactly one way.
pub proof fn lemma_binom_full(n: nat)
    ensures
        binom(n, n) == 1,
    decreases n,
{
    if n > 0 {
        lemma_binom_full((n - 1) as nat);
        lemma_binom_above((n - 1) as nat, n);
    }
}

/// Any feasible choice can be made in at least one way.
pub proof fn lemma_binom_pos(n: nat, k: nat)
    requires
        k <= n,
    ensures
        binom(n, k) >= 1,
    decreases n,
{
    if k > 0 {
        lemma_binom_pos((n - 1) as nat, (k - 1) as nat);
    }
}

/// Choosing a single element can be done in `n` ways.
pub proof fn lemma_binom_one(n: nat)
    ensures
        binom(n, 1) == n,
    decreases n,
{
    if n == 0 {
        assert(binom(0, 1) == 0);
    } else {
        lemma_binom_one((n - 1) as nat);
        assert(binom(n, 1) == binom((n - 1) as nat, 0) + binom((n - 1) as nat, 1));
    }
}

/// Choosing `k` elements and leaving `n - k` behind are the same decision.
pub proof fn lemma_binom_sym(n: nat, k: nat)
    requires
        k <= n,
    ensures
        binom(n, k) == binom(n, (n - k) as nat),
    decreases n,
{
    if k == 0 {
        lemma_binom_full(n);
    } else if k == n {
        lemma_binom_full(n);
    } else {
        lemma_binom_sym((n - 1) as nat, (k - 1) as nat);
        lemma_binom_sym((n - 1) as nat, k);
    }
}

/// The ratio between neighbouring binomials: `C(n, i) * (n - i) == C(n, i + 1) * (i + 1)`.
pub proof fn lemma_binom_ratio(n: nat, i: nat)
    requires
        i < n,
    ensures
        binom(n, i) * (n - i) == binom(n, i + 1) * (i + 1),
    decreases n,
{
    if i == 0 {
        lemma_binom_one(n);
        assert(binom(n, 0) == 1);
        assert(binom(n, i) * (n - i) == binom(n, i + 1) * (i + 1)) by (nonlinear_arith)
            requires
                i == 0,
                binom(n, 0) == 1,
                binom(n, 1) == n,
        ;
    } else {
        let n1 = (n - 1) as nat;
        let a = binom(n1, (i - 1) as nat);
        let b = binom(n1, i);
        let c = binom(n1, (i + 1) as nat);
        assert(binom(n, i) == a + b);
        assert(binom(n, i + 1) == b + c);
        // a * (n - i) == b * i
        assert(a * ((n - i) as int) == b * (i as int)) by {
            lemma_binom_ratio(n1, (i - 1) as nat);
            assert(n1 - (i - 1) == n - i);
            assert(binom(n1, (i - 1) as nat + 1) == b);
        }
        // b * (n - 1 - i) == c * (i + 1), also valid at i == n - 1 where both sides vanish
        assert(b * (((n - 1) - i) as int) == c * ((i + 1) as int)) by {
            if i < n1 {
                lemma_binom_ratio(n1, i);
                assert(binom(n1, i + 1) == c);
            } else {
                lemma_binom_above(n1, i + 1);
                assert(c == 0);
                assert((n - 1) - i == 0);
            }
        }
        assert(binom(n, i) * (n - i) == binom(n, i + 1) * (i + 1)) by (nonlinear_arith)
            requires
                0 < i < n,
                binom(n, i) == a + b,
                binom(n, i + 1) == b + c,
                a * ((n - i) as int) == b * (i as int),
                b * (((n - 1) - i) as int) == c * ((i + 1) as int),
        ;
    }
}

/// Binomials grow towards the middle of a row.
pub proof fn lemma_binom_rising(n: nat, i: nat)
    requires
        2 * i + 1 <= n,
    ensures
        binom(n, i) <= binom(n, i + 1),
{
    lemma_binom_ratio(n, i);
    assert(binom(n, i) * (i + 1) <= binom(n, i) * (n - i)) by (nonlinear_arith)
        requires 2 * i + 1 <= n,
    ;
    assert(binom(n, i) * (i + 1) <= binom(n, i + 1) * (i + 1) ==> binom(n, i) <= binom(n, i + 1))
        by (nonlinear_arith);
}

/// Binomials are monotone from column `a` up to a column `b` in the lower half of a row.
pub proof fn lemma_binom_le_mid(n: nat, a: nat, b: nat)
    requires
        a <= b,
        2 * b <= n + 1,
    ensures
        binom(n, a) <= binom(n, b),
    decreases b - a,
{
    if a < b {
        lemma_binom_rising(n, a);
        lemma_binom_le_mid(n, (a + 1) as nat, b);
    }
}

/// Adding a power of two at an unset bit position raises the popcount by one.
pub proof fn lemma_popcount_add_pow2(a: nat, j: nat)
    requires
        (a / pow2(j)) % 2 == 0,
    ensures
        popcount(a + pow2(j)) == popcount(a) + 1,
    decreases j,
{
    lemma_pow2_pos(j);
    if j == 0 {
        assert(pow2(0) == 1) by { lemma2_to64(); }
        assert(a % 2 == 0);
        assert((a + 1) % 2 == 1 && (a + 1) / 2 == a / 2);
        if a == 0 {
            assert(popcount(1) == 1);
        }
    } else {
        lemma_pow2_unfold(j);
        let m = pow2((j - 1) as nat);
        lemma_pow2_pos((j - 1) as nat);
        assert((a + 2 * m) % 2 == a % 2 && (a + 2 * m) / 2 == a / 2 + m);
        lemma_div_denominator(a as int, 2, m as int);
        assert((a / 2) / m == a / (2 * m));
        lemma_popcount_add_pow2(a / 2, (j - 1) as nat);
        assert(a + 2 * m != 0);
        assert(popcount(a + 2 * m) == (a % 2) + popcount(a / 2 + m));
    }
}

/// A number below `pow2(m)` has at most `m` set bits.
pub proof fn lemma_popcount_bound(n: nat, m: nat)
    requires
        n < pow2(m),
    ensures
        popcount(n) <= m,
    decreases m,
{
    if m == 0 {
        assert(pow2(0) == 1) by { lemma2_to64(); }
    } else if n > 0 {
        lemma_pow2_unfold(m);
        lemma_popcount_bound(n / 2, (m - 1) as nat);
    }
}

/// Popcount splits at any bit position: bits below `m` plus bits at or above `m`.
pub proof fn lemma_popcount_split(n: nat, m: nat)
    ensures
        popcount(n) == popcount(n % pow2(m)) + popcount(n / pow2(m)),
    decreases m,
{
    lemma_pow2_pos(m);
    if m == 0 {
        assert(pow2(0) == 1) by { lemma2_to64(); }
        assert(n % 1 == 0 && n / 1 == n);
    } else {
        lemma_pow2_unfold(m);
        let m1 = pow2((m - 1) as nat);
        lemma_pow2_pos((m - 1) as nat);
        lemma_popcount_split(n / 2, (m - 1) as nat);
        lemma_div_denominator(n as int, 2, m1 as int);
        assert((n / 2) / m1 == n / (2 * m1));
        lemma_mod_breakdown(n as int, 2, m1 as int);
        assert(n % (2 * m1) == 2 * ((n / 2) % m1) + n % 2);
        let low = (n / 2) % m1;
        assert((2 * low + n % 2) / 2 == low && (2 * low + n % 2) % 2 == n % 2);
        if 2 * low + n % 2 == 0 {
            assert(popcount(n % (2 * m1)) == 0);
            assert(popcount(low) == 0);
        } else {
            assert(popcount(n % (2 * m1)) == n % 2 + popcount(low));
        }
    }
}

/// The number of ways to choose `k` items out of `n`, computed multiplicatively.
///
/// Works on the smaller of the two symmetric column indices; each intermediate
/// product saturates at `u64::MAX`, so the result is exact whenever the row's
/// largest intermediate product fits in a `u64`.
pub fn combinations(n: u64, k: u64) -> (r: u64)
    ensures
        k > n ==> r == 0,
        k <= n ==> ({
            let kk = (if k <= n - k { k as nat } else { (n - k) as nat });
            binom(n as nat, kk) * kk <= u64::MAX ==> r == binom(n as nat, k as nat)
        }),
{
    if k > n {
        return 0;
    }
    let kk: u64 = if k < n - k { k } else { n - k };
    let ghost exact: bool = binom(n as nat, kk as nat) * (kk as nat) <= u64::MAX;
    let mut result: u64 = 1;
    let mut i: u64 = 0;
    while i < kk
        invariant
            k <= n,
            kk <= n - k || kk <= k,
            2 * kk <= n + 1,
            i <= kk,
            exact == (binom(n as nat, kk as nat) * (kk as nat) <= u64::MAX),
            exact ==> result == binom(n as nat, i as nat),
        decreases kk - i,
    {
        let factor = n - i;
        proof {
            if exact {
                lemma_binom_ratio(n as nat, i as nat);
                lemma_binom_le_mid(n as nat, (i + 1) as nat, kk as nat);
                assert(binom(n as nat, (i + 1) as nat) * ((i + 1) as nat) <= binom(
                    n as nat,
                    kk as nat,
                ) * (kk as nat)) by (nonlinear_arith)
                    requires
                        binom(n as nat, (i + 1) as nat) <= binom(n as nat, kk as nat),
                        0 < i + 1 <= kk,
                ;
            }
        }
        let product = match result.checked_mul(factor) {
            Some(v) => v,
            None => u64::MAX,
        };
        proof {
            if exact {
                vstd::arithmetic::div_mod::lemma_div_by_multiple(
                    binom(n as nat, (i + 1) as nat) as int,
                    (i + 1) as int,
                );
            }
        }
        result = product / (i + 1);
        i = i + 1;
    }
    proof {
        if exact {
            if k < n - k {
            } else {
                lemma_binom_sym(n as nat, k as nat);
            }
        }
    }
    result
}

/// Splitting off the bit at position `m`: the low `m + 1` bits hold that bit
/// plus the low `m` bits.
pub proof fn lemma_popcount_mod_step(n: nat, m: nat)
    ensures
        popcount(n % pow2(m + 1)) == (n / pow2(m)) % 2 + popcount(n % pow2(m)),
{
    lemma_pow2_pos(m);
    lemma_pow2_adds(m, 1);
    assert(pow2(1) == 2) by { lemma2_to64(); }
    let p = pow2(m);
    lemma_mod_breakdown(n as int, p as int, 2);
    assert(n % (p * 2) == p * ((n / p) % 2) + n % p);
    if (n / p) % 2 == 0 {
        assert(n % (p * 2) == n % p);
    } else {
        let low = n % p;
        assert(n % (p * 2) == low + p);
        assert(low < p) by (nonlinear_arith)
            requires p > 0, low == n % p,
        ;
        assert((low / p) % 2 == 0) by (nonlinear_arith)
            requires p > 0, low < p,
        ;
        lemma_popcount_add_pow2(low, m);
    }
}

} // verus!
