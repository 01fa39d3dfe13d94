//! Tick policies: when, and how often, a nested schedule fires.

use vstd::arithmetic::div_mod::{
    lemma_basic_div, lemma_fundamental_div_mod, lemma_fundamental_div_mod_converse,
};
use vstd::prelude::*;

verus! {

/// Nanosecond time units in one second.
pub const NANOS_PER_SECOND: u64 = 1_000_000_000;

/// Determines how a schedule runs: on every drive, or on a fixed interval with
/// the leftover time carried in an accumulator.  Both fields of `Fixed` are in
/// nanoseconds: `Fixed(interval, accumulator)`.
#[derive(Clone, Copy, Debug, PartialEq, Eq, Structural)]
pub enum ScheduleType {
    /// The schedule runs once per drive.
    Always,
    /// The schedule runs once per elapsed `interval`, with the remainder kept:
    /// `Fixed(interval, accumulator)`.
    Fixed(u64, u64),
}

impl ScheduleType {
    /// A fixed-rate policy is valid when its interval is positive and the
    /// carried remainder lies strictly below the interval.
    pub open spec fn wf(self) -> bool {
        match self {
            ScheduleType::Always => true,
            ScheduleType::Fixed(interval, accumulator) => interval > 0 && accumulator < interval,
        }
    }

    /// How many ticks one drive owes under this policy, given the elapsed time
    /// (`None` when the host's time source is absent).
    pub open spec fn spec_ticks(self, delta: Option<u64>) -> int {
        match self {
            ScheduleType::Always => 1,
            ScheduleType::Fixed(interval, accumulator) => match delta {
                Option::None => 0,
                Option::Some(d) => (accumulator + d) / (interval as int),
            },
        }
    }

    /// The policy after one drive: `Always` never changes; a fixed-rate policy
    /// keeps its interval and carries the remainder of the accumulated time.
    pub open spec fn spec_after(self, delta: Option<u64>) -> ScheduleType {
        match self {
            ScheduleType::Always => ScheduleType::Always,
            ScheduleType::Fixed(interval, accumulator) => match delta {
                Option::None => ScheduleType::Fixed(interval, accumulator),
                Option::Some(d) => ScheduleType::Fixed(
                    interval,
                    ((accumulator + d) % (interval as int)) as u64,
                ),
            },
        }
    }

    /// A policy that fires on every drive.
    pub fn always() -> (r: ScheduleType)
        ensures
            r == ScheduleType::Always,
    {
        ScheduleType::Always
    }

    /// A policy that fires every `interval_nanos` nanoseconds.  A zero interval
    /// has no meaning and is refused.
    pub fn fixed_rate(interval_nanos: u64) -> (r: ScheduleType)
        requires
            interval_nanos > 0,
        ensures
            r == ScheduleType::Fixed(interval_nanos, 0),
            r.wf(),
    {
        ScheduleType::Fixed(interval_nanos, 0)
    }

    /// A policy that fires `ticks_per_second` times per second: the interval is
    /// one second divided by the rate.
    pub fn fixed_rate_inverse(ticks_per_second: u64) -> (r: ScheduleType)
        requires
            1 <= ticks_per_second <= NANOS_PER_SECOND,
        ensures
            r == ScheduleType::Fixed(NANOS_PER_SECOND / ticks_per_second, 0),
            r.wf(),
    {
        let interval = NANOS_PER_SECOND / ticks_per_second;
        proof {
            vstd::arithmetic::div_mod::lemma_div_non_zero(
                NANOS_PER_SECOND as int,
                ticks_per_second as int,
            );
        }
        ScheduleType::Fixed(interval, 0)
    }

    /// Advances the policy by one drive with elapsed time `delta` (`None` when
    /// the host's time source is absent) and returns how many ticks the
    /// schedule owes this drive.  A fixed-rate policy adds the elapsed time to
    /// its accumulator and pays out one tick per whole interval, keeping the
    /// remainder; with no time source it owes nothing and is left unchanged.
    pub fn drive(&mut self, delta: Option<u64>) -> (ticks: u64)
        requires
            old(self).wf(),
        ensures
            final(self).wf(),
            *final(self) == old(self).spec_after(delta),
            ticks == old(self).spec_ticks(delta),
    {
        match *self {
            ScheduleType::Always => 1,
            ScheduleType::Fixed(interval, accumulator) => match delta {
                Option::None => 0,
                Option::Some(d) => {
                    let mut remaining: u128 = accumulator as u128 + d as u128;
                    let mut t: u64 = 0;
                    while remaining >= interval as u128
                        invariant
                            interval > 0,
                            accumulator < interval,
                            d <= u64::MAX,
                            accumulator + d == t * interval + remaining,
                        decreases remaining,
                    {
                        proof {
                            assert((t + 1) * interval == t * interval + interval)
                                by (nonlinear_arith);
                            assert(t + 1 <= u64::MAX) by (nonlinear_arith)
                                requires
                                    interval > 0,
                                    accumulator < interval,
                                    d <= u64::MAX,
                                    (t + 1) * interval <= accumulator + d,
                            ;
                        }
                        remaining = remaining - interval as u128;
                        t = t + 1;
                    }
                    proof {
                        lemma_fundamental_div_mod_converse(
                            accumulator + d,
                            interval as int,
                            t as int,
                            remaining as int,
                        );
                    }
                    *self = ScheduleType::Fixed(interval, remaining as u64);
                    t
                },
            },
        }
    }
}

/// Advancing a valid policy by any drive leaves it valid.
pub proof fn lemma_spec_after_wf(p: ScheduleType, delta: Option<u64>)
    requires
        p.wf(),
    ensures
        p.spec_after(delta).wf(),
{
    if let ScheduleType::Fixed(interval, accumulator) = p {
        if let Option::Some(d) = delta {
            vstd::arithmetic::div_mod::lemma_mod_division_less_than_divisor(
                accumulator + d,
                interval as int,
            );
        }
    }
}

/// The sum of a sequence of elapsed times.
pub open spec fn delta_sum(deltas: Seq<u64>) -> int
    decreases deltas.len(),
{
    if deltas.len() == 0 {
        0
    } else {
        deltas.first() + delta_sum(deltas.drop_first())
    }
}

/// The total number of ticks a policy pays out when the elapsed times in
/// `deltas` are applied one drive at a time.
pub open spec fn total_ticks(policy: ScheduleType, deltas: Seq<u64>) -> int
    decreases deltas.len(),
{
    if deltas.len() == 0 {
        0
    } else {
        policy.spec_ticks(Some(deltas.first())) + total_ticks(
            policy.spec_after(Some(deltas.first())),
            deltas.drop_first(),
        )
    }
}

proof fn lemma_delta_sum_nonneg(deltas: Seq<u64>)
    ensures
        delta_sum(deltas) >= 0,
    decreases deltas.len(),
{
    if deltas.len() > 0 {
        lemma_delta_sum_nonneg(deltas.drop_first());
    }
}

/// Splitting a total `x + s` of accumulated time into the part `x` already
/// seen and the part `s` still to come pays out the same number of whole
/// intervals: the remainder of `x` carries into the second part.
proof fn lemma_div_add_carry(x: int, s: int, interval: int)
    requires
        interval > 0,
        x >= 0,
        s >= 0,
    ensures
        (x + s) / interval == x / interval + (x % interval + s) / interval,
{
    lemma_fundamental_div_mod(x, interval);
    let q2 = (x % interval + s) / interval;
    let r2 = (x % interval + s) % interval;
    lemma_fundamental_div_mod(x % interval + s, interval);
    assert(x + s == (x / interval + q2) * interval + r2) by (nonlinear_arith)
        requires
            x == interval * (x / interval) + x % interval,
            x % interval + s == interval * q2 + r2,
    ;
    lemma_fundamental_div_mod_converse(x + s, interval, x / interval + q2, r2);
}

/// However a stretch of elapsed time is chunked into drives, a fixed-rate
/// policy pays out `floor((accumulator + total elapsed) / interval)` ticks
/// over the stretch: the accumulator carries every remainder across drives,
/// and no fraction of a tick is lost or invented.
pub proof fn lemma_fixed_rate_total_ticks(interval: u64, accumulator: u64, deltas: Seq<u64>)
    requires
        interval > 0,
        accumulator < interval,
    ensures
        total_ticks(ScheduleType::Fixed(interval, accumulator), deltas) == (accumulator
            + delta_sum(deltas)) / (interval as int),
    decreases deltas.len(),
{
    if deltas.len() == 0 {
        lemma_basic_div(accumulator as int, interval as int);
    } else {
        let d0 = deltas.first();
        let carried = ((accumulator + d0) % (interval as int)) as u64;
        vstd::arithmetic::div_mod::lemma_mod_division_less_than_divisor(
            accumulator + d0,
            interval as int,
        );
        lemma_fixed_rate_total_ticks(interval, carried, deltas.drop_first());
        lemma_delta_sum_nonneg(deltas.drop_first());
        lemma_div_add_carry(accumulator + d0, delta_sum(deltas.drop_first()), interval as int);
    }
}

/// Two delta sequences with the same total elapsed time produce the same
/// total ticks from a fresh fixed-rate policy, however differently the time
/// is chunked into drives.
pub proof fn lemma_chunking_is_immaterial(interval: u64, deltas_a: Seq<u64>, deltas_b: Seq<u64>)
    requires
        interval > 0,
        delta_sum(deltas_a) == delta_sum(deltas_b),
    ensures
        total_ticks(ScheduleType::Fixed(interval, 0), deltas_a) == total_ticks(
            ScheduleType::Fixed(interval, 0),
            deltas_b,
        ),
{
    lemma_fixed_rate_total_ticks(interval, 0, deltas_a);
    lemma_fixed_rate_total_ticks(interval, 0, deltas_b);
}

/// Two fixed-rate policies with the same interval and the same starting
/// accumulator pay out the same ticks on every delta sequence; in particular a
/// policy built from a ticks-per-second rate behaves exactly as one built from
/// the corresponding interval.
pub proof fn lemma_inverse_rate_same_cadence(ticks_per_second: u64, deltas: Seq<u64>)
    requires
        1 <= ticks_per_second <= NANOS_PER_SECOND,
    ensures
        total_ticks(ScheduleType::Fixed(NANOS_PER_SECOND / ticks_per_second, 0), deltas)
            == delta_sum(deltas) / (NANOS_PER_SECOND / ticks_per_second) as int,
{
    vstd::arithmetic::div_mod::lemma_div_non_zero(
        NANOS_PER_SECOND as int,
        ticks_per_second as int,
    );
    lemma_fixed_rate_total_ticks(NANOS_PER_SECOND / ticks_per_second, 0, deltas);
}

/// An `Always` policy owes exactly one tick per drive, whatever the elapsed
/// time and even when the host's time source is absent, and never changes.
pub proof fn lemma_always_once_per_drive(delta: Option<u64>)
    ensures
        ScheduleType::Always.spec_ticks(delta) == 1,
        ScheduleType::Always.spec_after(delta) == ScheduleType::Always,
{
}

} // verus!
