//! The Voss-McCartney pink-noise generator.
//!
//! A bank of `generators` noise sources is refreshed at octave-spaced
//! rates: on each sample the source whose index equals the trailing-zero
//! count of the counter is refreshed, along with a companion source
//! (`white`) refreshed every time. The running sum `pink` is never
//! recomputed; it is adjusted by subtract-old/add-new deltas, and the
//! well-formedness invariant [`Pink::wf`] pins it to the exact sum of all
//! current source values.

use vstd::prelude::*;

use vstd::arithmetic::power2::lemma2_to64;
use vstd::arithmetic::power2::lemma_pow2_strictly_increases;
use vstd::arithmetic::power2::pow2;
use vstd::arithmetic::div_mod::lemma_div_by_multiple;
use vstd::arithmetic::div_mod::lemma_div_is_ordered;
use vstd::arithmetic::div_mod::lemma_mod_self_0;
use vstd::arithmetic::div_mod::lemma_small_mod;
use vstd::bits::lemma_u32_low_bits_mask_is_mod;
use vstd::bits::lemma_u32_pow2_no_overflow;
use vstd::bits::lemma_u32_shl_is_mul;
use vstd::bits::low_bits_mask;

use crate::bits::count_low_zero_bits;
use crate::bits::low_zero_bits;
use crate::bits::low_zero_bits_count;
use crate::bits::lemma_index_distribution;
use crate::bits::lemma_low_zero_bits_pow2;
use crate::noise::Noise;
use crate::UNIT;

verus! {

/// The sum of the values of a bank of noise sources.
pub open spec fn sum_noise(s: Seq<Noise>) -> int
    decreases s.len(),
{
    if s.len() == 0 {
        0
    } else {
        sum_noise(s.drop_last()) + s.last().spec_value()
    }
}

/// Replacing one source adjusts the sum by exactly its delta.
proof fn lemma_sum_update(s: Seq<Noise>, i: int, x: Noise)
    requires
        0 <= i < s.len(),
    ensures
        sum_noise(s.update(i, x)) == sum_noise(s) - s[i].spec_value() + x.spec_value(),
    decreases s.len(),
{
    if i == s.len() - 1 {
        assert(s.update(i, x).drop_last() =~= s.drop_last());
        assert(s.update(i, x).last() == x);
    } else {
        lemma_sum_update(s.drop_last(), i, x);
        assert(s.update(i, x).drop_last() =~= s.drop_last().update(i, x));
        assert(s.update(i, x).last() == s.last());
    }
}

/// A bank of sources bounded by `b` sums to at most `b` per source.
proof fn lemma_sum_bounds(s: Seq<Noise>, b: int)
    requires
        b >= 0,
        forall|j: int| 0 <= j < s.len() ==> -b <= #[trigger] s[j].spec_value() <= b,
    ensures
        -(b * s.len()) <= sum_noise(s) <= b * s.len(),
    decreases s.len(),
{
    if s.len() == 0 {
    } else {
        lemma_sum_bounds(s.drop_last(), b);
        assert(b * s.drop_last().len() + b == b * s.len()) by (nonlinear_arith)
            requires
                s.len() >= 1,
                s.drop_last().len() == s.len() - 1,
        ;
    }
}

/// A bank of all-zero sources sums to zero.
proof fn lemma_sum_zero(s: Seq<Noise>)
    requires
        forall|j: int| 0 <= j < s.len() ==> #[trigger] s[j].spec_value() == 0,
    ensures
        sum_noise(s) == 0,
    decreases s.len(),
{
    if s.len() == 0 {
    } else {
        lemma_sum_zero(s.drop_last());
    }
}

/// Truncated division of the running sum by the number of contributing
/// sources (`g` octave sources plus the white companion): the normalized
/// sample that one update returns, still in fixed point.
pub open spec fn scaled_sample(sum: int, g: nat) -> int {
    if sum >= 0 {
        sum / (g + 1) as int
    } else {
        -((-sum) / (g + 1) as int)
    }
}

/// The Voss-McCartney pink-noise generator.
pub struct Pink {
    /// The octave bank: source `k` is refreshed every `2^k` samples.
    pub noise: Vec<Noise>,
    /// The companion source, refreshed on every sample.
    pub white: Noise,
    /// The running sum of all source values, in fixed point.
    pub pink: i64,
    /// Rolls over the range `1 ..= rollover`, one step per sample.
    pub counter: u32,
    /// The size of the octave bank; immutable after construction.
    pub generators: u32,
    /// `2^(generators - 1)`, the period of the refresh schedule.
    pub rollover: u32,
}

impl Pink {
    /// Well-formedness: the structural invariant every operation
    /// preserves. The last clause is the heart of the algorithm: the
    /// running sum always equals the exact sum of the current source
    /// values, although it is only ever adjusted incrementally.
    pub open spec fn wf(&self) -> bool {
        &&& 1 <= self.generators <= 32
        &&& self.noise@.len() == self.generators
        &&& self.rollover == pow2((self.generators - 1) as nat)
        &&& 1 <= self.counter <= self.rollover
        &&& forall|j: int|
            0 <= j < self.noise@.len() ==> -UNIT <= #[trigger] self.noise@[j].spec_value() < UNIT
        &&& -UNIT <= self.white.spec_value() < UNIT
        &&& self.pink == sum_noise(self.noise@) + self.white.spec_value()
    }

    /// The index the current counter selects: its trailing-zero count.
    pub open spec fn selected_index(&self) -> nat {
        low_zero_bits(self.counter as nat)
    }

    /// The counter after one step: increment, wrapping from `rollover`
    /// back to 1.
    pub open spec fn next_counter(&self) -> u32 {
        if self.counter < self.rollover {
            (self.counter + 1) as u32
        } else {
            1u32
        }
    }

    /// All sources at zero and the counter at the start of its cycle.
    pub open spec fn is_initial(&self, count: u32) -> bool {
        &&& self.generators == count
        &&& self.counter == 1
        &&& self.pink == 0
        &&& self.rollover == pow2((count - 1) as nat)
        &&& forall|j: int| 0 <= j < self.noise@.len() ==> #[trigger] self.noise@[j].spec_value()
            == 0
        &&& self.white.spec_value() == 0
    }

    /// Builds the initial state for an in-range bank size.
    fn build(count: u32) -> (p: Pink)
        requires
            1 <= count <= 32,
        ensures
            p.wf(),
            p.is_initial(count),
    {
        let mut noise: Vec<Noise> = Vec::new();
        let mut i: u32 = 0;
        while i < count
            invariant
                i <= count,
                noise@.len() == i,
                forall|j: int| 0 <= j < noise@.len() ==> #[trigger] noise@[j].spec_value() == 0,
            decreases count - i,
        {
            noise.push(Noise::new());
            i = i + 1;
        }
        proof {
            lemma_u32_pow2_no_overflow((count - 1) as nat);
            lemma_u32_shl_is_mul(1u32, (count - 1) as u32);
            lemma_sum_zero(noise@);
        }
        let rollover: u32 = 1u32 << (count - 1);
        Pink { noise, white: Noise::new(), pink: 0, counter: 1, generators: count, rollover }
    }

    /// A generator over a bank of `count` octave-spaced sources.
    /// Construction is refused exactly when `count` is zero (the rollover
    /// `2^(count - 1)` would be meaningless) or when `2^(count - 1)`
    /// cannot be represented in the counter word.
    pub fn with_generators(count: u32) -> (r: Option<Pink>)
        ensures
            r is Some <==> 1 <= count <= 32,
            r is Some ==> r->0.wf() && r->0.is_initial(count),
    {
        if count >= 1 && count <= 32 {
            Some(Self::build(count))
        } else {
            None
        }
    }

    /// A generator with the default bank of 15 sources, giving the
    /// schedule a period of `2^14 == 16384` samples.
    pub fn new() -> (p: Pink)
        ensures
            p.wf(),
            p.is_initial(15),
            p.rollover == 16384,
    {
        let p = Self::build(15);
        proof {
            lemma2_to64();
        }
        p
    }

    /// The index of the one octave source this sample refreshes: the
    /// trailing-zero count of the counter. Because the counter never
    /// exceeds `rollover == 2^(generators - 1)`, the index never reaches
    /// past the bank.
    pub fn get_noise_index(&self) -> (r: u32)
        requires
            self.wf(),
        ensures
            r == self.selected_index(),
            r < self.generators,
    {
        let r: u32 = count_low_zero_bits(self.counter);
        proof {
            if r >= self.generators {
                lemma_pow2_strictly_increases((self.generators - 1) as nat, r as nat);
            }
        }
        r
    }

    /// One counter step: masking by `rollover - 1` reduces the counter
    /// modulo `rollover`, so `1 ..= rollover - 1` advances by one and
    /// `rollover` wraps back to 1. Nothing else changes.
    pub fn increment_counter(&mut self)
        requires
            old(self).wf(),
        ensures
            final(self).wf(),
            final(self).counter == old(self).next_counter(),
            final(self).noise == old(self).noise,
            final(self).white == old(self).white,
            final(self).pink == old(self).pink,
            final(self).generators == old(self).generators,
            final(self).rollover == old(self).rollover,
    {
        let masked: u32 = self.counter & (self.rollover - 1);
        proof {
            let n = (self.generators - 1) as nat;
            lemma_u32_pow2_no_overflow(n);
            lemma_u32_low_bits_mask_is_mod(self.counter, n);
            assert((pow2(n) as u32) == self.rollover);
            assert((low_bits_mask(n) as u32) == (self.rollover - 1) as u32);
            assert(masked == self.counter % self.rollover);
            if self.counter < self.rollover {
                lemma_small_mod(self.counter as nat, self.rollover as nat);
            } else {
                lemma_mod_self_0(self.rollover as int);
            }
        }
        self.counter = masked + 1;
    }

    /// One Voss-McCartney step: refresh the selected octave source and
    /// the white companion, adjust the running sum by their deltas,
    /// advance the counter, and return the sum normalized by the number
    /// of sources. The returned sample always lies in `[-UNIT, UNIT]`,
    /// the fixed-point image of `[-1, 1]`.
    pub fn update(&mut self) -> (r: i64)
        requires
            old(self).wf(),
        ensures
            final(self).wf(),
            final(self).generators == old(self).generators,
            final(self).rollover == old(self).rollover,
            final(self).counter == old(self).next_counter(),
            final(self).noise@.len() == old(self).noise@.len(),
            forall|j: int|
                0 <= j < old(self).noise@.len() && j != old(self).selected_index()
                    ==> final(self).noise@[j] == old(self).noise@[j],
            r == scaled_sample(final(self).pink as int, old(self).generators as nat),
            -UNIT <= r <= UNIT,
    {
        proof {
            lemma_sum_bounds(self.noise@, UNIT as int);
            assert((UNIT as int) * self.noise@.len() <= 32 * (UNIT as int)) by (nonlinear_arith)
                requires
                    self.noise@.len() <= 32,
            ;
        }
        let index: usize = self.get_noise_index() as usize;
        proof {
            assert(-UNIT <= self.noise@[index as int].spec_value() < UNIT);
        }

        let mut fresh = self.noise[index];
        self.pink = self.pink - fresh.value();
        fresh.update();
        self.pink = self.pink + fresh.value();
        proof {
            lemma_sum_update(self.noise@, index as int, fresh);
        }
        self.noise[index] = fresh;

        self.pink = self.pink - self.white.value();
        self.white.update();
        self.pink = self.pink + self.white.value();

        self.increment_counter();

        proof {
            lemma_sum_bounds(self.noise@, UNIT as int);
            assert((UNIT as int) * self.noise@.len() <= 32 * (UNIT as int)) by (nonlinear_arith)
                requires
                    self.noise@.len() <= 32,
            ;
        }
        let d: u64 = (self.generators as u64) + 1;
        if self.pink >= 0 {
            let q: u64 = (self.pink as u64) / d;
            proof {
                lemma_div_bounded(self.pink as int, self.generators as nat);
            }
            q as i64
        } else {
            let m: u64 = ((-self.pink) as u64) / d;
            proof {
                lemma_div_bounded(-(self.pink as int), self.generators as nat);
            }
            -(m as i64)
        }
    }
}

/// A nonnegative sum of at most `g + 1` unit-range terms, divided by
/// `g + 1`, stays within one unit.
proof fn lemma_div_bounded(sum: int, g: nat)
    requires
        0 <= sum <= (g + 1) * (UNIT as int),
    ensures
        0 <= sum / (g + 1) as int <= UNIT,
{
    lemma_div_is_ordered(sum, (g + 1) * (UNIT as int), (g + 1) as int);
    lemma_div_by_multiple(UNIT as int, (g + 1) as int);
    assert((g + 1) * (UNIT as int) == (UNIT as int) * (g + 1) as int) by (nonlinear_arith);
    assert(sum / (g + 1) as int >= 0) by (nonlinear_arith)
        requires
            sum >= 0,
            (g + 1) as int > 0,
    ;
}

/// The counter reached after `k` samples from counter `c`, under the
/// wrap-at-`r` schedule that [`Pink::update`] follows.
pub open spec fn counter_after(c: u32, r: u32, k: nat) -> u32
    decreases k,
{
    if k == 0 {
        c
    } else {
        let prev = counter_after(c, r, (k - 1) as nat);
        if prev < r {
            (prev + 1) as u32
        } else {
            1u32
        }
    }
}

/// One step of the counter walk is exactly what one sample does to the
/// counter.
pub proof fn lemma_counter_after_step(p: Pink)
    ensures
        counter_after(p.counter, p.rollover, 1) == p.next_counter(),
{
    assert(counter_after(p.counter, p.rollover, 0) == p.counter);
}

/// Law: starting from 1, the counter walks `2, 3, ..., rollover` one
/// value per sample, so one full cycle of `rollover` samples visits each
/// counter value exactly once.
pub proof fn lemma_counter_cycle(r: u32, k: nat)
    requires
        r >= 1,
        k < r,
    ensures
        counter_after(1, r, k) == k + 1,
    decreases k,
{
    if k > 0 {
        lemma_counter_cycle(r, (k - 1) as nat);
    }
}

/// Law: after exactly `rollover` samples the counter is back at 1; the
/// schedule's period is `rollover`.
pub proof fn lemma_counter_full_cycle(r: u32)
    requires
        r >= 1,
    ensures
        counter_after(1, r, r as nat) == 1,
{
    if r > 1 {
        lemma_counter_cycle(r, (r - 1) as nat);
    }
}

/// Law: a generator whose counter stands at `2^k` refreshes exactly the
/// octave source `k` on its next sample.
pub proof fn lemma_power_counter_selects(p: Pink, k: nat)
    requires
        p.counter == pow2(k),
    ensures
        p.selected_index() == k,
{
    lemma_low_zero_bits_pow2(k);
}

/// Law: index selection is blind to the random source. Two generators
/// whose counters and rollovers agree select the same index and advance
/// to the same counter; from a fixed starting counter the whole index
/// sequence is therefore deterministic, whatever values the sources draw.
pub proof fn lemma_selection_deterministic(p: Pink, q: Pink)
    requires
        p.counter == q.counter,
        p.rollover == q.rollover,
    ensures
        p.selected_index() == q.selected_index(),
        p.next_counter() == q.next_counter(),
{
}

/// Law: over one full cycle of `rollover` samples the counter visits each
/// value of `1 ..= rollover` exactly once, so index `i` is selected
/// exactly `rollover / 2^(i+1)` times for `i < generators - 1`, and the
/// top index `generators - 1` exactly once.
pub proof fn lemma_cycle_distribution(p: Pink, i: nat)
    requires
        p.wf(),
    ensures
        i < p.generators - 1 ==> low_zero_bits_count(p.rollover as nat, i) == p.rollover as nat
            / pow2(i + 1),
        low_zero_bits_count(p.rollover as nat, (p.generators - 1) as nat) == 1,
{
    lemma_index_distribution((p.generators - 1) as nat, i);
}

} // verus!

