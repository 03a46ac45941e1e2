//! Trailing-zero counting and the schedule it induces.
//!
//! The pink generator refreshes the noise source whose index is the number
//! of trailing zero bits of its counter. This module defines that count,
//! computes it, and proves the two structural facts the algorithm rests on:
//! a counter of `2^k` selects index `k`, and over one full counter cycle
//! `1 ..= 2^m` index `i` is selected exactly `2^m / 2^(i+1)` times (once for
//! `i == m`).

use vstd::prelude::*;

use vstd::arithmetic::power2::lemma2_to64;
use vstd::arithmetic::power2::lemma_pow2_pos;
use vstd::arithmetic::power2::lemma_pow2_strictly_increases;
use vstd::arithmetic::power2::lemma_pow2_subtracts;
use vstd::arithmetic::power2::lemma_pow2_unfold;
use vstd::arithmetic::power2::pow2;

verus! {

/// The number of trailing zero bits of `n` (zero when `n == 0`).
pub open spec fn low_zero_bits(n: nat) -> nat
    decreases n,
{
    if n % 2 == 1 || n == 0 {
        0
    } else {
        1 + low_zero_bits(n / 2)
    }
}

/// How many of the counter values `1 ..= n` have exactly `i` trailing
/// zero bits.
pub open spec fn low_zero_bits_count(n: nat, i: nat) -> nat
    decreases n,
{
    if n == 0 {
        0
    } else {
        low_zero_bits_count((n - 1) as nat, i) + if low_zero_bits(n) == i {
            1nat
        } else {
            0nat
        }
    }
}

/// Counts the trailing zero bits of a positive word. The extra clause
/// `pow2(r) <= n` is what bounds the selected index: a counter no larger
/// than `2^m` yields an index no larger than `m`.
pub fn count_low_zero_bits(n: u32) -> (r: u32)
    requires
        n >= 1,
    ensures
        r == low_zero_bits(n as nat),
        pow2(r as nat) <= n,
        r < 32,
{
    let mut c: u32 = n;
    let mut r: u32 = 0;
    proof {
        lemma2_to64();
    }
    while c % 2 == 0
        invariant
            1 <= c <= n,
            r < 32,
            low_zero_bits(n as nat) == r + low_zero_bits(c as nat),
            pow2(r as nat) * c <= n,
        decreases c,
    {
        proof {
            assert(low_zero_bits(c as nat) == 1 + low_zero_bits((c / 2) as nat));
            lemma_pow2_unfold((r + 1) as nat);
            assert(pow2((r + 1) as nat) * (c as nat / 2) == pow2(r as nat) * c) by (nonlinear_arith)
                requires
                    c as nat % 2 == 0,
                    pow2((r + 1) as nat) == 2 * pow2(r as nat),
            ;
            assert(pow2((r + 1) as nat) <= n) by {
                lemma_pow2_pos((r + 1) as nat);
                assert(pow2((r + 1) as nat) * 1 <= pow2((r + 1) as nat) * (c as nat / 2))
                    by (nonlinear_arith)
                    requires
                        c >= 2,
                        pow2((r + 1) as nat) >= 1,
                ;
            }
            assert(r + 1 < 32) by {
                lemma2_to64();
                if r + 1 >= 32 {
                    lemma_pow2_strictly_increases(32, (r + 1) as nat);
                }
            }
        }
        c = c / 2;
        r = r + 1;
    }
    proof {
        assert(pow2(r as nat) <= pow2(r as nat) * c) by (nonlinear_arith)
            requires
                c >= 1,
                pow2(r as nat) >= 0,
        ;
    }
    r
}

/// Law: a counter equal to `2^k` selects exactly index `k` — the literal
/// backbone of the schedule, `counter = 1` selects 0, `counter = 4`
/// selects 2, `counter = 2^14` selects 14.
pub proof fn lemma_low_zero_bits_pow2(k: nat)
    ensures
        low_zero_bits(pow2(k)) == k,
    decreases k,
{
    lemma2_to64();
    if k == 0 {
    } else {
        lemma_pow2_unfold(k);
        lemma_pow2_pos((k - 1) as nat);
        assert(pow2(k) % 2 == 0 && pow2(k) / 2 == pow2((k - 1) as nat));
        lemma_low_zero_bits_pow2((k - 1) as nat);
    }
}

/// Among `1 ..= 2m` the values with no trailing zero bit are the `m` odd
/// ones.
proof fn lemma_count_zero_index(m: nat)
    ensures
        low_zero_bits_count(2 * m, 0) == m,
    decreases m,
{
    if m == 0 {
    } else {
        lemma_count_zero_index((m - 1) as nat);
        assert((2 * m - 1) % 2 == 1);
        assert(low_zero_bits((2 * m - 1) as nat) == 0);
        assert(low_zero_bits(2 * m) == 1 + low_zero_bits(m));
        assert(low_zero_bits_count((2 * m - 1) as nat, 0)
            == low_zero_bits_count((2 * m - 2) as nat, 0) + 1);
        assert(low_zero_bits_count(2 * m, 0) == low_zero_bits_count((2 * m - 1) as nat, 0));
    }
}

/// Halving: the values in `1 ..= 2m` with `i + 1` trailing zeros are the
/// doubles of the values in `1 ..= m` with `i` trailing zeros.
proof fn lemma_count_halves(m: nat, i: nat)
    requires
        i >= 1,
    ensures
        low_zero_bits_count(2 * m, i) == low_zero_bits_count(m, (i - 1) as nat),
    decreases m,
{
    if m == 0 {
    } else {
        lemma_count_halves((m - 1) as nat, i);
        assert((2 * m - 1) % 2 == 1);
        assert(low_zero_bits((2 * m - 1) as nat) == 0);
        assert(low_zero_bits(2 * m) == 1 + low_zero_bits(m));
        assert(low_zero_bits_count(2 * m, i)
            == low_zero_bits_count((2 * m - 1) as nat, i) + if low_zero_bits(2 * m) == i {
                1nat
            } else {
                0nat
            });
        assert(low_zero_bits_count((2 * m - 1) as nat, i)
            == low_zero_bits_count((2 * m - 2) as nat, i));
        assert(low_zero_bits_count(m, (i - 1) as nat)
            == low_zero_bits_count((m - 1) as nat, (i - 1) as nat) + if low_zero_bits(m) == (i
            - 1) as nat {
                1nat
            } else {
                0nat
            });
    }
}

/// Law: over one full counter cycle `1 ..= 2^m`, index `i` is selected
/// exactly `2^(m-1-i)` times when `i < m`, exactly once when `i == m`, and
/// never when `i > m`.
pub proof fn lemma_count_pow2(m: nat, i: nat)
    ensures
        low_zero_bits_count(pow2(m), i) == if i < m {
            pow2((m - 1 - i) as nat)
        } else if i == m {
            1nat
        } else {
            0nat
        },
    decreases m,
{
    lemma2_to64();
    if m == 0 {
        assert(low_zero_bits(1) == 0);
        assert(low_zero_bits_count(1, i) == low_zero_bits_count(0, i) + if low_zero_bits(1) == i {
            1nat
        } else {
            0nat
        });
    } else {
        lemma_pow2_unfold(m);
        assert(pow2(m) == 2 * pow2((m - 1) as nat));
        if i == 0 {
            lemma_count_zero_index(pow2((m - 1) as nat));
        } else {
            lemma_count_halves(pow2((m - 1) as nat), i);
            lemma_count_pow2((m - 1) as nat, (i - 1) as nat);
        }
    }
}

/// Law: the same distribution, phrased as the cycle length over the
/// refresh period — over the cycle `1 ..= 2^m`, index `i < m` is selected
/// `2^m / 2^(i+1)` times, and index `m` exactly once.
pub proof fn lemma_index_distribution(m: nat, i: nat)
    ensures
        i < m ==> low_zero_bits_count(pow2(m), i) == pow2(m) / pow2(i + 1),
        low_zero_bits_count(pow2(m), m) == 1,
{
    lemma_count_pow2(m, i);
    lemma_count_pow2(m, m);
    if i < m {
        lemma_pow2_subtracts(i + 1, m);
        assert((m - (i + 1)) as nat == (m - 1 - i) as nat);
    }
}

} // verus!
