//! The scheduler's timing logic: a nanosecond accumulator decouples the
//! 60 Hz timer decrement from the instruction rate. The host loop measures
//! the wall-clock delta of each iteration and hands it in; the accumulator
//! pays out one timer tick per elapsed sixtieth of a second, capping any
//! single delta so a long stall is not simulated.

use vstd::prelude::*;

use crate::cpu::{Cpu, CpuModel};

verus! {

/// Nanoseconds per timer tick: one sixtieth of a second, rounded down so
/// that sixty ticks fit in one second.
pub const TIMER_INTERVAL_NS: u64 = 16_666_666;

/// The cap on a single wall-clock delta: 3000 ms, so a stalled host does not
/// trigger a runaway catch-up.
pub const DELTA_CAP_NS: u64 = 3_000_000_000;

/// A wall-clock delta after capping.
pub open spec fn capped_delta(delta_ns: u64) -> int {
    if delta_ns > DELTA_CAP_NS {
        DELTA_CAP_NS as int
    } else {
        delta_ns as int
    }
}

/// An 8-bit timer after `ticks` decrements, stopping at zero.
pub open spec fn timer_after(t: u8, ticks: int) -> u8 {
    if ticks >= t {
        0u8
    } else {
        (t - ticks) as u8
    }
}

/// The accumulator remainder after a run of deltas, starting from `acc0`.
pub open spec fn acc_after(acc0: int, deltas: Seq<u64>) -> int
    decreases deltas.len(),
{
    if deltas.len() == 0 {
        acc0
    } else {
        (acc_after(acc0, deltas.drop_last()) + capped_delta(deltas.last())) % (
        TIMER_INTERVAL_NS as int)
    }
}

/// How many timer ticks a run of deltas pays out, starting from `acc0`.
pub open spec fn ticks_total(acc0: int, deltas: Seq<u64>) -> int
    decreases deltas.len(),
{
    if deltas.len() == 0 {
        0
    } else {
        ticks_total(acc0, deltas.drop_last()) + (acc_after(acc0, deltas.drop_last())
            + capped_delta(deltas.last())) / (TIMER_INTERVAL_NS as int)
    }
}

/// The sum of a run of deltas.
pub open spec fn sum_deltas(deltas: Seq<u64>) -> int
    decreases deltas.len(),
{
    if deltas.len() == 0 {
        0
    } else {
        sum_deltas(deltas.drop_last()) + deltas.last()
    }
}

/// Splitting a nonnegative amount into two pours: pouring `d` on top of `a`
/// pays out the same whole multiples of `m` as pouring the remainder of `a`
/// together with `d`.
proof fn lemma_div_mod_add(a: int, d: int, m: int)
    requires
        a >= 0,
        d >= 0,
        m > 0,
    ensures
        (a + d) / m == a / m + (a % m + d) / m,
        (a + d) % m == (a % m + d) % m,
{
    vstd::arithmetic::div_mod::lemma_fundamental_div_mod(a, m);
    let q = a / m;
    let r = a % m;
    vstd::arithmetic::div_mod::lemma_mod_bound(a, m);
    vstd::arithmetic::div_mod::lemma_fundamental_div_mod(r + d, m);
    vstd::arithmetic::div_mod::lemma_mod_bound(r + d, m);
    let q2 = (r + d) / m;
    let r2 = (r + d) % m;
    vstd::arithmetic::div_mod::lemma_div_pos_is_pos(r + d, m);
    assert(a + d == (q + q2) * m + r2) by (nonlinear_arith)
        requires
            a == m * q + r,
            r + d == m * q2 + r2,
    ;
    vstd::arithmetic::div_mod::lemma_fundamental_div_mod_converse(a + d, m, q + q2, r2);
}

/// Scheduler law: starting from accumulator `acc0`, a run of deltas pays out
/// exactly the whole sixtieths of a second of its total capped time, however
/// the time is split into iterations.
pub proof fn lemma_scheduler_ticks(acc0: int, deltas: Seq<u64>)
    requires
        0 <= acc0 < TIMER_INTERVAL_NS,
        forall|i: int| 0 <= i < deltas.len() ==> deltas[i] <= DELTA_CAP_NS,
    ensures
        ticks_total(acc0, deltas) == (acc0 + sum_deltas(deltas)) / (TIMER_INTERVAL_NS as int),
        acc_after(acc0, deltas) == (acc0 + sum_deltas(deltas)) % (TIMER_INTERVAL_NS as int),
    decreases deltas.len(),
{
    let m = TIMER_INTERVAL_NS as int;
    if deltas.len() == 0 {
        vstd::arithmetic::div_mod::lemma_fundamental_div_mod_converse(acc0, m, 0, acc0);
    } else {
        let pre = deltas.drop_last();
        let d = deltas.last();
        assert(forall|i: int| 0 <= i < pre.len() ==> pre[i] == deltas[i]);
        lemma_scheduler_ticks(acc0, pre);
        lemma_sum_deltas_nonneg(pre);
        lemma_div_mod_add(acc0 + sum_deltas(pre), capped_delta(d), m);
        assert(capped_delta(d) == d as int);
    }
}

/// The sum of a run of deltas is never negative.
proof fn lemma_sum_deltas_nonneg(deltas: Seq<u64>)
    ensures
        sum_deltas(deltas) >= 0,
    decreases deltas.len(),
{
    if deltas.len() > 0 {
        lemma_sum_deltas_nonneg(deltas.drop_last());
    }
}

/// One more iteration extends the model by exactly the formulas that
/// `Scheduler::run_timers` promises of a single call: the remainder and the
/// paid-out ticks of `deltas.push(d)` follow from those of `deltas`.
pub proof fn lemma_run_extends(acc0: int, deltas: Seq<u64>, d: u64)
    ensures
        acc_after(acc0, deltas.push(d)) == (acc_after(acc0, deltas) + capped_delta(d)) % (
        TIMER_INTERVAL_NS as int),
        ticks_total(acc0, deltas.push(d)) == ticks_total(acc0, deltas) + (acc_after(acc0, deltas)
            + capped_delta(d)) / (TIMER_INTERVAL_NS as int),
{
    assert(deltas.push(d).drop_last() =~= deltas);
    assert(deltas.push(d).last() == d);
}

/// Timer decoupling law: over any run whose wall-clock deltas sum to one
/// second, none exceeding the catch-up cap, the timers tick exactly 60
/// times — however many instructions were interleaved — so a delay timer
/// that started at 60 reads exactly 0 afterwards.
pub proof fn lemma_timer_decoupling(deltas: Seq<u64>)
    requires
        forall|i: int| 0 <= i < deltas.len() ==> deltas[i] <= DELTA_CAP_NS,
        sum_deltas(deltas) == 1_000_000_000,
    ensures
        ticks_total(0, deltas) == 60,
        timer_after(60, ticks_total(0, deltas)) == 0,
{
    lemma_scheduler_ticks(0, deltas);
}

/// The scheduler state: the time not yet paid out as timer ticks.
pub struct Scheduler {
    /// Nanoseconds accumulated and not yet converted into timer ticks;
    /// always less than one timer interval between calls.
    accumulator_ns: u64,
}

impl View for Scheduler {
    type V = u64;

    closed spec fn view(&self) -> u64 {
        self.accumulator_ns
    }
}

impl Scheduler {
    /// A scheduler is well formed when its accumulator holds less than one
    /// timer interval.
    pub open spec fn wf(&self) -> bool {
        self@ < TIMER_INTERVAL_NS
    }

    /// Creates a scheduler with an empty accumulator.
    pub fn new() -> (s: Scheduler)
        ensures
            s.wf(),
            s@ == 0,
    {
        Scheduler { accumulator_ns: 0 }
    }

    /// Feeds one wall-clock delta into the accumulator and decrements the
    /// CPU timers once per whole timer interval accumulated: the timers run
    /// at 60 Hz no matter how often the host loop comes around. Returns how
    /// many ticks were paid out and whether the sound timer is still
    /// running.
    pub fn run_timers(&mut self, cpu: &mut Cpu, delta_ns: u64) -> (r: (u64, bool))
        requires
            old(self).wf(),
        ensures
            final(self).wf(),
            r.0 == (old(self)@ + capped_delta(delta_ns)) / (TIMER_INTERVAL_NS as int),
            final(self)@ == (old(self)@ + capped_delta(delta_ns)) % (TIMER_INTERVAL_NS as int),
            final(cpu)@ == (CpuModel {
                delay_timer: timer_after(old(cpu)@.delay_timer, r.0 as int),
                sound_timer: timer_after(old(cpu)@.sound_timer, r.0 as int),
                ..old(cpu)@
            }),
            r.1 == (final(cpu)@.sound_timer > 0),
            old(cpu).wf() ==> final(cpu).wf(),
    {
        let capped = if delta_ns > DELTA_CAP_NS {
            DELTA_CAP_NS
        } else {
            delta_ns
        };
        let ghost total = old(self)@ + capped_delta(delta_ns);
        self.accumulator_ns = self.accumulator_ns + capped;
        let mut ticks: u64 = 0;
        let mut sound_active = cpu.sound_timer() > 0;
        while self.accumulator_ns >= TIMER_INTERVAL_NS
            invariant
                self@ == total - ticks * TIMER_INTERVAL_NS,
                0 <= ticks * TIMER_INTERVAL_NS <= total,
                total <= DELTA_CAP_NS + TIMER_INTERVAL_NS,
                cpu@ == (CpuModel {
                    delay_timer: timer_after(old(cpu)@.delay_timer, ticks as int),
                    sound_timer: timer_after(old(cpu)@.sound_timer, ticks as int),
                    ..old(cpu)@
                }),
                sound_active == (cpu@.sound_timer > 0),
                old(cpu).wf() ==> cpu.wf(),
            decreases self@,
        {
            sound_active = cpu.update_timers();
            self.accumulator_ns = self.accumulator_ns - TIMER_INTERVAL_NS;
            proof {
                assert((ticks + 1) * TIMER_INTERVAL_NS == ticks * TIMER_INTERVAL_NS
                    + TIMER_INTERVAL_NS) by (nonlinear_arith);
            }
            ticks = ticks + 1;
        }
        proof {
            vstd::arithmetic::div_mod::lemma_fundamental_div_mod_converse(
                total,
                TIMER_INTERVAL_NS as int,
                ticks as int,
                self@ as int,
            );
        }
        (ticks, sound_active)
    }
}

} // verus!
