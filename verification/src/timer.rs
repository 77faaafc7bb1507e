//! The timer primitive that drives both the tower cadence and bullet decay.
//!
//! Time is measured in integer ticks of a fixed resolution chosen by the
//! embedder ([`crate::components::TICKS_PER_SECOND`] for the canonical game),
//! so every duration the prototype uses is a whole number and no floating
//! point enters the simulation.  A timer accumulates elapsed ticks; a one-shot
//! timer saturates at its period and reports `just_finished` on exactly the
//! tick that reaches it, while a repeating timer wraps, keeping the sub-frame
//! overshoot.  A frame delta large enough to cover several periods still
//! reports a single completion and carries the whole residual (the single-fire
//! policy), as the pathological-delta behaviour below spells out.

use vstd::prelude::*;

verus! {

/// Whether a timer stops at its period or wraps around and runs again.
#[derive(Clone, Copy, PartialEq, Eq, Structural, Debug)]
pub enum TimerMode {
    /// Runs once: elapsed time saturates at the period.
    OneShot,
    /// Runs forever: elapsed time wraps modulo the period.
    Repeating,
}

/// Accumulated elapsed time against a positive period, in integer ticks.
#[derive(Clone, Copy, PartialEq, Eq, Structural, Debug)]
pub struct Timer {
    /// Ticks accumulated so far; see [`Timer::wf`] for its range.
    pub elapsed: u64,
    /// The duration the timer measures; always positive.
    pub period: u64,
    /// Saturating or wrapping behaviour at the period.
    pub mode: TimerMode,
    /// True exactly when the most recent tick completed the period.
    pub just_finished: bool,
}

/// The state a tick leaves a timer in, as a function of the old state.
///
/// A one-shot timer saturates at its period and reports completion only on
/// the tick that first reaches it; a repeating timer reports completion on
/// every tick that reaches the period and wraps to the exact residual
/// `(elapsed + delta) % period`, so sub-frame overshoot is preserved and a
/// delta spanning several periods still counts as one completion.
pub open spec fn spec_tick(t: Timer, delta: u64) -> Timer
    recommends
        t.wf(),
{
    match t.mode {
        TimerMode::OneShot => {
            if t.elapsed + delta >= t.period {
                Timer { elapsed: t.period, just_finished: t.elapsed < t.period, ..t }
            } else {
                Timer { elapsed: (t.elapsed + delta) as u64, just_finished: false, ..t }
            }
        },
        TimerMode::Repeating => {
            Timer {
                elapsed: ((t.elapsed + delta) % (t.period as int)) as u64,
                just_finished: t.elapsed + delta >= t.period,
                ..t
            }
        },
    }
}

/// The state after ticking through a whole sequence of frame deltas.
pub open spec fn spec_ticks(t: Timer, deltas: Seq<u64>) -> Timer
    decreases deltas.len(),
{
    if deltas.len() == 0 {
        t
    } else {
        spec_tick(spec_ticks(t, deltas.drop_last()), deltas.last())
    }
}

/// How many of the ticks in `deltas` report `just_finished`.
pub open spec fn fire_count(t: Timer, deltas: Seq<u64>) -> int
    decreases deltas.len(),
{
    if deltas.len() == 0 {
        0
    } else {
        fire_count(t, deltas.drop_last()) + if spec_tick(
            spec_ticks(t, deltas.drop_last()),
            deltas.last(),
        ).just_finished {
            1int
        } else {
            0int
        }
    }
}

/// The total of a sequence of frame deltas.
pub open spec fn delta_sum(deltas: Seq<u64>) -> int
    decreases deltas.len(),
{
    if deltas.len() == 0 {
        0
    } else {
        delta_sum(deltas.drop_last()) + deltas.last()
    }
}

impl Timer {
    /// A timer is well formed when its period is positive and its elapsed
    /// time is in range: up to the period for a one-shot timer (which
    /// saturates there), strictly below it for a repeating one (which wraps).
    pub open spec fn wf(self) -> bool {
        &&& self.period > 0
        &&& self.elapsed <= self.period
        &&& self.mode == TimerMode::Repeating ==> self.elapsed < self.period
    }

    /// A fresh timer. A non-positive period is a programmer error and is
    /// rejected here at construction.
    pub fn new(period: u64, mode: TimerMode) -> (t: Timer)
        requires
            period > 0,
        ensures
            t == (Timer { elapsed: 0, period, mode, just_finished: false }),
            t.wf(),
    {
        Timer { elapsed: 0, period, mode, just_finished: false }
    }

    /// Advances the timer by one frame delta, as [`spec_tick`] states.
    pub fn tick(&mut self, delta: u64)
        requires
            old(self).wf(),
        ensures
            *final(self) == spec_tick(*old(self), delta),
            final(self).wf(),
    {
        match self.mode {
            TimerMode::OneShot => {
                if delta >= self.period - self.elapsed {
                    self.just_finished = self.elapsed < self.period;
                    self.elapsed = self.period;
                } else {
                    self.elapsed = self.elapsed + delta;
                    self.just_finished = false;
                }
            },
            TimerMode::Repeating => {
                let head = self.period - self.elapsed;
                self.just_finished = delta >= head;
                let wrapped = delta % self.period;
                if wrapped >= head {
                    self.elapsed = wrapped - head;
                } else {
                    self.elapsed = self.elapsed + wrapped;
                }
                proof {
                    lemma_wrap_is_mod(*old(self), delta);
                }
            },
        }
    }

    /// True exactly when the most recent tick completed the period.
    pub fn just_finished(&self) -> (r: bool)
        ensures
            r == self.just_finished,
    {
        self.just_finished
    }

    /// Ticks accumulated so far.
    pub fn elapsed(&self) -> (r: u64)
        ensures
            r == self.elapsed,
    {
        self.elapsed
    }

    /// The duration the timer measures.
    pub fn period(&self) -> (r: u64)
        ensures
            r == self.period,
    {
        self.period
    }

    /// Saturating or wrapping behaviour at the period.
    pub fn mode(&self) -> (r: TimerMode)
        ensures
            r == self.mode,
    {
        self.mode
    }
}

/// A total of frame deltas is never negative.
pub proof fn lemma_delta_sum_nonneg(deltas: Seq<u64>)
    ensures
        delta_sum(deltas) >= 0,
    decreases deltas.len(),
{
    if deltas.len() > 0 {
        lemma_delta_sum_nonneg(deltas.drop_last());
    }
}

/// The total of deltas each between `lo` and `hi` is between `lo` and `hi`
/// times their number.
pub proof fn lemma_delta_sum_bounds(deltas: Seq<u64>, lo: u64, hi: u64)
    requires
        forall|i: int| 0 <= i < deltas.len() ==> lo <= #[trigger] deltas[i] <= hi,
    ensures
        lo * deltas.len() <= delta_sum(deltas) <= hi * deltas.len(),
    decreases deltas.len(),
{
    let n = deltas.len() as int;
    if n == 0 {
        assert(lo * 0 == 0) by (nonlinear_arith);
        assert(hi * 0 == 0) by (nonlinear_arith);
    } else {
        lemma_delta_sum_bounds(deltas.drop_last(), lo, hi);
        assert(lo * n == lo * (n - 1) + lo) by (nonlinear_arith);
        assert(hi * n == hi * (n - 1) + hi) by (nonlinear_arith);
    }
}

/// Timer monotonicity with an exact fire count: a repeating timer ticked by
/// positive deltas of at most one period each keeps its elapsed time in
/// [0, period) after every tick, and under the single-fire policy reports
/// `just_finished` on exactly ⌊(elapsed + Σδ) / period⌋ of the ticks — for a
/// fresh timer, exactly ⌊Σδ / period⌋ of them.  A delta above the period
/// breaks the count (a single tick of 3.7 periods fires once, not thrice),
/// which is why the deltas are bounded by the period here.
pub proof fn lemma_repeating_fire_count(t: Timer, deltas: Seq<u64>)
    requires
        t.wf(),
        t.mode == TimerMode::Repeating,
        forall|i: int| 0 <= i < deltas.len() ==> 0 < #[trigger] deltas[i] <= t.period,
    ensures
        spec_ticks(t, deltas).period == t.period,
        spec_ticks(t, deltas).mode == t.mode,
        spec_ticks(t, deltas).elapsed == (t.elapsed + delta_sum(deltas)) % (t.period as int),
        0 <= spec_ticks(t, deltas).elapsed < t.period,
        fire_count(t, deltas) == (t.elapsed + delta_sum(deltas)) / (t.period as int),
    decreases deltas.len(),
{
    let p = t.period as int;
    if deltas.len() == 0 {
        vstd::arithmetic::div_mod::lemma_small_mod(t.elapsed as nat, t.period as nat);
        vstd::arithmetic::div_mod::lemma_basic_div(t.elapsed as int, p);
    } else {
        lemma_repeating_fire_count(t, deltas.drop_last());
        let u = spec_ticks(t, deltas.drop_last());
        let d = deltas.last() as int;
        let x = t.elapsed + delta_sum(deltas.drop_last());
        vstd::arithmetic::div_mod::lemma_fundamental_div_mod(x, p);
        let q = x / p;
        let r = x % p;
        assert(u.elapsed == r);
        if r + d >= p {
            assert(x + d == (q + 1) * p + (r + d - p)) by (nonlinear_arith)
                requires
                    x == q * p + r,
            ;
            vstd::arithmetic::div_mod::lemma_fundamental_div_mod_converse_mod(
                x + d,
                p,
                q + 1,
                r + d - p,
            );
            vstd::arithmetic::div_mod::lemma_fundamental_div_mod_converse_div(
                x + d,
                p,
                q + 1,
                r + d - p,
            );
            assert(r + d == 1 * p + (r + d - p)) by (nonlinear_arith);
            vstd::arithmetic::div_mod::lemma_fundamental_div_mod_converse_mod(
                r + d,
                p,
                1,
                r + d - p,
            );
        } else {
            assert(x + d == q * p + (r + d)) by (nonlinear_arith)
                requires
                    x == q * p + r,
            ;
            vstd::arithmetic::div_mod::lemma_fundamental_div_mod_converse_mod(x + d, p, q, r + d);
            vstd::arithmetic::div_mod::lemma_fundamental_div_mod_converse_div(x + d, p, q, r + d);
            vstd::arithmetic::div_mod::lemma_small_mod((r + d) as nat, t.period as nat);
        }
    }
}

/// One-shot finality: however a one-shot timer is ticked, its elapsed time
/// never exceeds its period — it saturates at `min(elapsed + Σδ, period)` —
/// and it reports `just_finished` on exactly one tick (the one that first
/// reaches the period) when the deltas carry it there, else on none.
pub proof fn lemma_oneshot_finality(t: Timer, deltas: Seq<u64>)
    requires
        t.wf(),
        t.mode == TimerMode::OneShot,
    ensures
        spec_ticks(t, deltas).period == t.period,
        spec_ticks(t, deltas).mode == t.mode,
        spec_ticks(t, deltas).elapsed == if t.elapsed + delta_sum(deltas) >= t.period {
            t.period as int
        } else {
            t.elapsed + delta_sum(deltas)
        },
        spec_ticks(t, deltas).elapsed <= t.period,
        fire_count(t, deltas) == if t.elapsed < t.period && t.elapsed + delta_sum(deltas)
            >= t.period {
            1int
        } else {
            0int
        },
        fire_count(t, deltas) <= 1,
    decreases deltas.len(),
{
    if deltas.len() > 0 {
        lemma_oneshot_finality(t, deltas.drop_last());
        let u = spec_ticks(t, deltas.drop_last());
        let d = deltas.last();
        let s_prev = delta_sum(deltas.drop_last());
        lemma_delta_sum_nonneg(deltas.drop_last());
        assert(spec_ticks(t, deltas) == spec_tick(u, d));
        assert(delta_sum(deltas) == s_prev + d);
        assert(fire_count(t, deltas) == fire_count(t, deltas.drop_last()) + if spec_tick(
            u,
            d,
        ).just_finished {
            1int
        } else {
            0int
        });
        if t.elapsed + s_prev >= t.period {
            assert(u.elapsed == t.period);
            assert(!spec_tick(u, d).just_finished);
            assert(fire_count(t, deltas) == fire_count(t, deltas.drop_last()));
            assert(fire_count(t, deltas) == if t.elapsed < t.period {
                1int
            } else {
                0int
            });
            assert(t.elapsed + delta_sum(deltas) >= t.period);
        } else {
            assert(u.elapsed == t.elapsed + s_prev);
            assert(t.elapsed < t.period);
            assert(fire_count(t, deltas.drop_last()) == 0);
            if u.elapsed + d >= t.period {
                assert(spec_tick(u, d).just_finished == (u.elapsed < t.period));
                assert(fire_count(t, deltas) == 1);
                assert(t.elapsed + delta_sum(deltas) >= t.period);
            } else {
                assert(!spec_tick(u, d).just_finished);
                assert(fire_count(t, deltas) == 0);
                assert(t.elapsed + delta_sum(deltas) < t.period);
            }
        }
    }
}

/// Bullet bounded lifetime: a fresh one-shot timer ticked by deltas between
/// `dmin` and `dmax` completes on the zero-based tick `k` only when
/// `(k+1)·dmax ≥ period` and `k·dmin < period`: it lives through at least
/// ⌈period/dmax⌉ and at most ⌈period/dmin⌉ ticks.
pub proof fn lemma_oneshot_fire_window(t: Timer, deltas: Seq<u64>, dmin: u64, dmax: u64, k: int)
    requires
        t.wf(),
        t.mode == TimerMode::OneShot,
        t.elapsed == 0,
        0 < dmin <= dmax,
        forall|i: int| 0 <= i < deltas.len() ==> dmin <= #[trigger] deltas[i] <= dmax,
        0 <= k < deltas.len(),
        spec_ticks(t, deltas.take(k + 1)).just_finished,
    ensures
        (k + 1) * dmax >= t.period,
        k * dmin < t.period,
        k + 1 >= (t.period + dmax - 1) / (dmax as int),
        k + 1 <= (t.period + dmin - 1) / (dmin as int),
{
    let p = t.period as int;
    let pre = deltas.take(k);
    let fired = deltas.take(k + 1);
    assert(fired.drop_last() =~= pre);
    assert(fired.last() == deltas[k]);
    lemma_oneshot_finality(t, pre);
    let u = spec_ticks(t, pre);
    let d = deltas[k] as int;
    // the completing tick starts below the period and reaches it
    assert(u.elapsed < p && u.elapsed + d >= p);
    assert(delta_sum(pre) < p);
    assert(delta_sum(fired) == delta_sum(pre) + d);
    assert(delta_sum(fired) >= p);
    assert(forall|i: int| 0 <= i < pre.len() ==> dmin <= #[trigger] pre[i] <= dmax);
    assert(forall|i: int| 0 <= i < fired.len() ==> dmin <= #[trigger] fired[i] <= dmax);
    lemma_delta_sum_bounds(pre, dmin, dmax);
    lemma_delta_sum_bounds(fired, dmin, dmax);
    assert(k * dmin <= delta_sum(pre)) by {
        assert(dmin * k == k * dmin) by (nonlinear_arith);
    }
    assert((k + 1) * dmax >= delta_sum(fired)) by {
        assert(dmax * (k + 1) == (k + 1) * dmax) by (nonlinear_arith);
    }
    // at least ceiling(period / dmax) ticks
    let dx = dmax as int;
    let c1 = (p + dx - 1) / dx;
    vstd::arithmetic::div_mod::lemma_fundamental_div_mod(p + dx - 1, dx);
    vstd::arithmetic::div_mod::lemma_mod_division_less_than_divisor(p + dx - 1, dx);
    assert(c1 * dx <= p + dx - 1);
    if k + 1 <= c1 - 1 {
        vstd::arithmetic::mul::lemma_mul_inequality(k + 1, c1 - 1, dx);
        assert((c1 - 1) * dx == c1 * dx - dx) by (nonlinear_arith);
        assert((k + 1) * dx <= p - 1);
        assert(false);
    }
    // at most ceiling(period / dmin) ticks
    let dn = dmin as int;
    assert(k * dn <= p - 1);
    vstd::arithmetic::div_mod::lemma_div_is_ordered(k * dn, p - 1, dn);
    assert((dn * k) / dn == k) by {
        vstd::arithmetic::div_mod::lemma_div_multiples_vanish(k, dn);
    }
    assert(k * dn == dn * k) by (nonlinear_arith);
    assert(k <= (p - 1) / dn);
    vstd::arithmetic::div_mod::lemma_div_plus_one(p - 1, dn);
    assert((p + dn - 1) / dn == 1 + (p - 1) / dn);
}

/// The total of a constant-delta frame sequence.
proof fn lemma_delta_sum_constant(n: nat, delta: u64)
    ensures
        delta_sum(Seq::new(n, |i: int| delta)) == n * delta,
    decreases n,
{
    let s = Seq::new(n, |i: int| delta);
    if n == 0 {
        assert(0 * delta == 0) by (nonlinear_arith);
    } else {
        lemma_delta_sum_constant((n - 1) as nat, delta);
        assert(s.drop_last() =~= Seq::new((n - 1) as nat, |i: int| delta));
        assert(n * delta == (n - 1) * delta + delta) by (nonlinear_arith);
    }
}

/// Spawn rate, the cadence half: over `n` frames of one constant delta of at
/// most one period, a fresh repeating shooting timer completes on exactly
/// ⌊n·Δ / period⌋ of the ticks.
pub proof fn lemma_constant_delta_fire_count(t: Timer, delta: u64, n: nat)
    requires
        t.wf(),
        t.mode == TimerMode::Repeating,
        t.elapsed == 0,
        0 < delta <= t.period,
    ensures
        fire_count(t, Seq::new(n, |i: int| delta)) == (n * delta) / (t.period as int),
{
    let s = Seq::new(n, |i: int| delta);
    lemma_delta_sum_constant(n, delta);
    lemma_repeating_fire_count(t, s);
}

/// A tick keeps a timer well formed and never changes its period or mode.
pub proof fn lemma_spec_tick_wf(t: Timer, delta: u64)
    requires
        t.wf(),
    ensures
        spec_tick(t, delta).wf(),
        spec_tick(t, delta).period == t.period,
        spec_tick(t, delta).mode == t.mode,
{
    if t.mode == TimerMode::Repeating {
        vstd::arithmetic::div_mod::lemma_mod_division_less_than_divisor(
            t.elapsed + delta,
            t.period as int,
        );
    }
}

/// The executable wrap of a repeating tick lands on `(elapsed + delta) % period`.
proof fn lemma_wrap_is_mod(t: Timer, delta: u64)
    requires
        t.wf(),
        t.mode == TimerMode::Repeating,
    ensures
        ({
            let head = t.period - t.elapsed;
            let wrapped = delta % t.period;
            (if wrapped >= head {
                (wrapped - head) as int
            } else {
                t.elapsed + wrapped
            }) == (t.elapsed + delta) % (t.period as int)
        }),
{
    let p = t.period as int;
    let e = t.elapsed as int;
    let d = delta as int;
    let head = p - e;
    let q = d / p;
    let wrapped = d % p;
    vstd::arithmetic::div_mod::lemma_fundamental_div_mod(d, p);
    vstd::arithmetic::div_mod::lemma_mod_division_less_than_divisor(d, p);
    vstd::arithmetic::div_mod::lemma_div_pos_is_pos(d, p);
    if wrapped >= head {
        assert(e + d == (q + 1) * p + (e + wrapped - p)) by (nonlinear_arith)
            requires
                d == q * p + wrapped,
        ;
        vstd::arithmetic::div_mod::lemma_fundamental_div_mod_converse_mod(
            e + d,
            p,
            q + 1,
            e + wrapped - p,
        );
    } else {
        assert(e + d == q * p + (e + wrapped)) by (nonlinear_arith)
            requires
                d == q * p + wrapped,
        ;
        vstd::arithmetic::div_mod::lemma_fundamental_div_mod_converse_mod(e + d, p, q, e + wrapped);
    }
}

} // verus!
