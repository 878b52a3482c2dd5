//! A repeating countdown timer measured in whole nanoseconds.

use vstd::arithmetic::div_mod::{
    lemma_div_is_ordered,
    lemma_fundamental_div_mod,
    lemma_fundamental_div_mod_converse,
};
use vstd::prelude::*;

verus! {

/// Number of distinct values of the per-tick completion counter.
pub const COUNTER_SPAN: u128 = 0x1_0000_0000;

/// Elapsed time left on a repeating timer of period `period` that held
/// `elapsed` and is advanced by `delta`.
pub open spec fn remainder_after(period: u64, elapsed: u64, delta: u64) -> int {
    if period == 0 {
        0
    } else {
        (elapsed + delta) % (period as int)
    }
}

/// Whole periods completed by one advance, before the counter's width is
/// taken into account.
pub open spec fn periods_crossed(period: u64, elapsed: u64, delta: u64) -> int
    recommends
        period > 0,
{
    (elapsed + delta) / (period as int)
}

/// The completion counter reported for one advance: the number of periods
/// crossed, reduced to 32 bits, or the largest counter value for a zero period.
pub open spec fn completions_reported(period: u64, elapsed: u64, delta: u64) -> int {
    if period == 0 {
        u32::MAX as int
    } else {
        periods_crossed(period, elapsed, delta) % (COUNTER_SPAN as int)
    }
}

/// Advances a fresh, unpaused, repeating `bevy::time::Timer` of the given
/// period, preloaded with `elapsed`, by `delta`, through `Timer::tick`, and
/// reads back `Timer::elapsed` and `Timer::times_finished_this_tick`.
///
/// Believed, not proved: the timer adds `delta` to the elapsed time, keeps
/// the remainder modulo the period, and counts the whole periods crossed
/// truncated to 32 bits; with a zero period it reports the largest count and
/// no elapsed time.
#[verifier::external_body]
fn tick_repeating(period: u64, elapsed: u64, delta: u64) -> (r: (u128, u32))
    ensures
        r.0 == remainder_after(period, elapsed, delta),
        r.1 == completions_reported(period, elapsed, delta),
{
    let mut timer = bevy::time::Timer::new(
        std::time::Duration::from_nanos(period),
        bevy::time::TimerMode::Repeating,
    );
    timer.set_elapsed(std::time::Duration::from_nanos(elapsed));
    timer.tick(std::time::Duration::from_nanos(delta));
    (timer.elapsed().as_nanos(), timer.times_finished_this_tick())
}

/// A repeating timer: it accumulates elapsed time and fires each time the
/// accumulated time crosses its period, carrying the remainder over.
pub struct Timer {
    period: u64,
    elapsed: u64,
    completions: u32,
}

impl Timer {
    /// The configured period in nanoseconds.
    pub closed spec fn period_spec(&self) -> u64 {
        self.period
    }

    /// Time accumulated since the last completed period, in nanoseconds.
    pub closed spec fn elapsed_spec(&self) -> u64 {
        self.elapsed
    }

    /// Completions counted by the most recent tick.
    pub closed spec fn completions_spec(&self) -> u32 {
        self.completions
    }

    /// A timer never holds a full period of accumulated time.
    pub open spec fn wf(&self) -> bool {
        self.period_spec() > 0 ==> self.elapsed_spec() < self.period_spec()
    }

    /// A repeating timer with the given period in nanoseconds, nothing elapsed.
    pub fn repeating(period: u64) -> (t: Timer)
        ensures
            t.wf(),
            t.period_spec() == period,
            t.elapsed_spec() == 0,
            t.completions_spec() == 0,
    {
        Timer { period, elapsed: 0, completions: 0 }
    }

    /// A repeating timer with the given period in whole seconds.
    pub fn from_seconds(seconds: u32) -> (t: Timer)
        ensures
            t.wf(),
            t.period_spec() == seconds * 1_000_000_000,
            t.elapsed_spec() == 0,
            t.completions_spec() == 0,
    {
        let period: u64 = seconds as u64 * 1_000_000_000;
        Timer { period, elapsed: 0, completions: 0 }
    }

    /// Advances the timer by `delta` nanoseconds.
    pub fn tick(&mut self, delta: u64)
        ensures
            final(self).wf(),
            final(self).period_spec() == old(self).period_spec(),
            final(self).elapsed_spec() == remainder_after(
                old(self).period_spec(),
                old(self).elapsed_spec(),
                delta,
            ),
            final(self).completions_spec() == completions_reported(
                old(self).period_spec(),
                old(self).elapsed_spec(),
                delta,
            ),
    {
        let r = tick_repeating(self.period, self.elapsed, delta);
        proof {
            if self.period > 0 {
                assert(0 <= (self.elapsed + delta) % (self.period as int) < self.period);
            }
        }
        self.elapsed = r.0 as u64;
        self.completions = r.1;
    }

    /// The configured period in nanoseconds.
    pub fn period(&self) -> (p: u64)
        ensures
            p == self.period_spec(),
    {
        self.period
    }

    /// Time accumulated since the last completed period, in nanoseconds.
    pub fn elapsed(&self) -> (e: u64)
        ensures
            e == self.elapsed_spec(),
    {
        self.elapsed
    }

    /// Completions counted by the most recent tick.
    pub fn times_finished_this_tick(&self) -> (n: u32)
        ensures
            n == self.completions_spec(),
    {
        self.completions
    }

    /// Whether the most recent tick completed at least one period.
    pub fn just_finished(&self) -> (b: bool)
        ensures
            b == (self.completions_spec() > 0),
    {
        self.completions > 0
    }
}

/// The sum of a sequence of time steps.
pub open spec fn total(deltas: Seq<u64>) -> int
    decreases deltas.len(),
{
    if deltas.len() == 0 {
        0
    } else {
        total(deltas.drop_last()) + deltas.last()
    }
}

/// Elapsed time left on a repeating timer after a sequence of ticks.
pub open spec fn elapsed_after(period: u64, elapsed: u64, deltas: Seq<u64>) -> int
    decreases deltas.len(),
{
    if deltas.len() == 0 {
        elapsed as int
    } else {
        remainder_after(
            period,
            elapsed_after(period, elapsed, deltas.drop_last()) as u64,
            deltas.last(),
        )
    }
}

/// The completions reported over a sequence of ticks, added up.
pub open spec fn completions_during(period: u64, elapsed: u64, deltas: Seq<u64>) -> int
    decreases deltas.len(),
{
    if deltas.len() == 0 {
        0
    } else {
        completions_during(period, elapsed, deltas.drop_last()) + completions_reported(
            period,
            elapsed_after(period, elapsed, deltas.drop_last()) as u64,
            deltas.last(),
        )
    }
}

/// A repeating timer fires once for every full period of accumulated time,
/// however the time is cut into ticks: after any sequence of ticks, the
/// completions reported add up to the whole periods contained in the time
/// accumulated, and the timer holds the remainder. The law is stated for a
/// positive period and for ticks none of which spans 2^32 - 1 periods or
/// more, beyond which the 32-bit counter of one tick wraps.
pub proof fn lemma_fires_once_per_period(period: u64, elapsed: u64, deltas: Seq<u64>)
    requires
        period > 0,
        elapsed < period,
        forall|i: int| 0 <= i < deltas.len() ==> (#[trigger] deltas[i]) / period < 0xFFFF_FFFF,
    ensures
        elapsed_after(period, elapsed, deltas) == (elapsed + total(deltas)) % (period as int),
        completions_during(period, elapsed, deltas) == (elapsed + total(deltas)) / (period as int),
        0 <= total(deltas),
    decreases deltas.len(),
{
    let t = period as int;
    if deltas.len() == 0 {
        lemma_fundamental_div_mod_converse(elapsed as int, t, 0, elapsed as int);
    } else {
        let rest = deltas.drop_last();
        let d = deltas.last() as int;
        assert forall|i: int| 0 <= i < rest.len() implies (#[trigger] rest[i]) / period
            < 0xFFFF_FFFF by {
            assert(rest[i] == deltas[i]);
        }
        lemma_fires_once_per_period(period, elapsed, rest);
        let a = elapsed + total(rest);
        let e = a % t;
        let x = e + d;
        assert(deltas[deltas.len() - 1] / period < 0xFFFF_FFFF);
        lemma_fundamental_div_mod(a, t);
        lemma_fundamental_div_mod(x, t);
        lemma_fundamental_div_mod(d, t);
        assert(0 <= e < t);
        assert(0 <= x / t) by (nonlinear_arith)
            requires
                0 <= x,
                0 < t,
        ;
        assert(x / t <= d / t + 1) by {
            lemma_div_is_ordered(x, d + t, t);
            assert(d + t == (d / t + 1) * t + d % t) by (nonlinear_arith)
                requires
                    d == t * (d / t) + d % t,
            ;
            assert(0 <= d % t < t);
            lemma_fundamental_div_mod_converse(d + t, t, d / t + 1, d % t);
        }
        assert(x / t < 0x1_0000_0000);
        assert((x / t) % 0x1_0000_0000 == x / t);
        let q = a / t + x / t;
        let r = x % t;
        assert(a + d == q * t + r) by (nonlinear_arith)
            requires
                a == t * (a / t) + e,
                x == t * (x / t) + r,
                x == e + d,
                q == a / t + x / t,
        ;
        lemma_fundamental_div_mod_converse(a + d, t, q, r);
    }
}

} // verus!
