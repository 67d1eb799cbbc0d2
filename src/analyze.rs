//! Offline analysis of a recorded run: replays the `(state, destination)`
//! records and certifies the comfort, speed and efficiency bounds.
use vstd::prelude::*;

use crate::fixed::{abs, div_toward_zero, div_toward_zero_i128, MICRO};
use crate::physics::{ElevatorSpecification, ElevatorState};

verus! {

/// Jerk bound with 10 % slack, in µm/s³.
pub const JERK_LIMIT: i64 = 220_000;

/// Acceleration bound with 10 % slack, in µm/s².
pub const ACCELERATION_LIMIT: i64 = 2_200_000;

/// Velocity bound with 10 % slack, in µm/s.
pub const VELOCITY_LIMIT: i64 = 5_500_000;

/// Least time a trip takes apart from its travel, in µs:
/// `2·(MAX_ACCELERATION/MAX_JERK) + 2·(MAX_JERK/MAX_ACCELERATION)` s = 20.2 s.
pub const TRIP_OVERHEAD: i64 = 20_200_000;

/// Which bound a run broke.
#[derive(Clone, Copy, Debug, PartialEq, Eq, Structural)]
pub enum Bound {
    Jerk,
    Acceleration,
    Velocity,
    /// The carriage backed up for more than a tenth of the run.
    Efficiency,
    /// The run took over 1.2 times its theoretical least time.
    Duration,
}

/// Why a recorded run fails the analysis. `index` is the offending record;
/// for the whole-run bounds it is the number of records.
#[derive(Clone, Copy, Debug, PartialEq, Eq, Structural)]
pub enum AnalysisError {
    /// A record's timestamp is not after the one before it.
    NonMonotonicTime { index: usize },
    /// A record heads for a floor the building does not have.
    InputMalformed { index: usize },
    BoundViolated { bound: Bound, index: usize },
}

/// Time spent heading for one destination, in µs, split by the direction
/// of motion.
#[derive(Clone, Copy, Debug, PartialEq, Eq, Structural)]
pub struct Trip {
    pub dst: u64,
    pub up: u64,
    pub down: u64,
}

impl Trip {
    pub open spec fn view(&self) -> (u64, int, int) {
        (self.dst, self.up as int, self.down as int)
    }
}

/// Record `k`'s timestamp minus that of record `k - 1`, in µs.
pub open spec fn gap(recs: Seq<(ElevatorState, u64)>, k: int) -> int {
    recs[k].0.timestamp - recs[k - 1].0.timestamp
}

/// Low-pass jerk estimate after record `k`:
/// `jerk ← jerk·(1 − dt) + |Δa|·dt`, with `dt` in seconds and `Δa` the change
/// of acceleration since the previous record. The decay factor `1 − dt`
/// turns negative for ticks longer than a second; the formula is kept as it
/// is, and such logs (far from the simulation's 10 ms cadence) get an
/// estimate of no physical meaning.
pub open spec fn jerk_at(recs: Seq<(ElevatorState, u64)>, k: int) -> int
    decreases k,
{
    if k <= 0 {
        0
    } else {
        let dt = gap(recs, k);
        let da = abs(recs[k].0.acceleration - recs[k - 1].0.acceleration);
        div_toward_zero(jerk_at(recs, k - 1) * (MICRO - dt) + da * dt, MICRO as int)
    }
}

/// The fault that record `k` shows by itself, checked in this order: time
/// order, destination, acceleration, velocity, filtered jerk.
pub open spec fn record_fault(esp: ElevatorSpecification, recs: Seq<(ElevatorState, u64)>, k: int) -> Option<
    AnalysisError,
> {
    let est = recs[k].0;
    if k > 0 && gap(recs, k) <= 0 {
        Some(AnalysisError::NonMonotonicTime { index: k as usize })
    } else if !esp.has_floor(recs[k].1) {
        Some(AnalysisError::InputMalformed { index: k as usize })
    } else if abs(est.acceleration as int) > ACCELERATION_LIMIT {
        Some(AnalysisError::BoundViolated { bound: Bound::Acceleration, index: k as usize })
    } else if abs(est.velocity as int) > VELOCITY_LIMIT {
        Some(AnalysisError::BoundViolated { bound: Bound::Velocity, index: k as usize })
    } else if abs(jerk_at(recs, k)) > JERK_LIMIT {
        Some(AnalysisError::BoundViolated { bound: Bound::Jerk, index: k as usize })
    } else {
        None
    }
}

/// The first fault among the first `k` records.
pub open spec fn first_fault(esp: ElevatorSpecification, recs: Seq<(ElevatorState, u64)>, k: int) -> Option<
    AnalysisError,
>
    decreases k,
{
    if k <= 0 {
        None
    } else {
        match first_fault(esp, recs, k - 1) {
            Some(e) => Some(e),
            None => record_fault(esp, recs, k - 1),
        }
    }
}

/// Trips `(destination, up time, down time)` after the first `k` records. A
/// new trip opens when the destination changes; the time since the previous
/// record goes to the trip open before it, as up time when the record's
/// velocity is positive.
pub open spec fn trips_upto(recs: Seq<(ElevatorState, u64)>, k: int) -> Seq<(u64, int, int)>
    decreases k,
{
    if k <= 0 {
        seq![]
    } else {
        let prev = trips_upto(recs, k - 1);
        let i = k - 1;
        let timed = if i > 0 && prev.len() > 0 {
            let t = prev.last();
            let dt = gap(recs, i);
            prev.update(
                prev.len() - 1,
                if recs[i].0.velocity > 0 {
                    (t.0, t.1 + dt, t.2)
                } else {
                    (t.0, t.1, t.2 + dt)
                },
            )
        } else {
            prev
        };
        if timed.len() == 0 || timed.last().0 != recs[i].1 {
            timed.push((recs[i].1, 0, 0))
        } else {
            timed
        }
    }
}

/// Total time of the first `j` trips.
pub open spec fn total_time(trips: Seq<(u64, int, int)>, j: int) -> int
    decreases j,
{
    if j <= 0 {
        0
    } else {
        total_time(trips, j - 1) + trips[j - 1].1 + trips[j - 1].2
    }
}

/// Time of the first `j` trips spent in each trip's main direction.
pub open spec fn total_direct(trips: Seq<(u64, int, int)>, j: int) -> int
    decreases j,
{
    if j <= 0 {
        0
    } else {
        let t = trips[j - 1];
        total_direct(trips, j - 1) + if t.1 > t.2 {
            t.1
        } else {
            t.2
        }
    }
}

/// Distance of trip `j`: from where it started (the first record's location,
/// or the previous trip's landing) to its landing.
pub open spec fn trip_distance(
    esp: ElevatorSpecification,
    start: int,
    trips: Seq<(u64, int, int)>,
    j: int,
) -> int {
    let from = if j == 0 {
        start
    } else {
        esp.floor_location(trips[j - 1].0)
    };
    abs(from - esp.floor_location(trips[j].0))
}

/// Distance of the first `j` trips.
pub open spec fn total_distance(esp: ElevatorSpecification, start: int, trips: Seq<(u64, int, int)>, j: int) -> int
    decreases j,
{
    if j <= 0 {
        0
    } else {
        total_distance(esp, start, trips, j - 1) + trip_distance(esp, start, trips, j - 1)
    }
}

/// The verdict on a whole recorded run: the first faulty record, else the
/// efficiency bound (`direct / total ≥ 0.9`), else the duration bound
/// (`total ≤ 1.2 · Σ (TRIP_OVERHEAD + D / MAX_VELOCITY)`, multiplied out).
pub open spec fn analysis(esp: ElevatorSpecification, recs: Seq<(ElevatorState, u64)>) -> Result<(), AnalysisError> {
    let n = recs.len() as int;
    match first_fault(esp, recs, n) {
        Some(e) => Err(e),
        None => {
            let trips = trips_upto(recs, n);
            let m = trips.len() as int;
            let total = total_time(trips, m);
            if 10 * total_direct(trips, m) < 9 * total {
                Err(AnalysisError::BoundViolated { bound: Bound::Efficiency, index: n as usize })
            } else if 25 * total > 30 * TRIP_OVERHEAD * m + 6 * total_distance(
                esp,
                recs[0].0.location as int,
                trips,
                m,
            ) {
                Err(AnalysisError::BoundViolated { bound: Bound::Duration, index: n as usize })
            } else {
                Ok(())
            }
        },
    }
}

/// The views of a list of trips.
pub open spec fn trip_views(trips: Seq<Trip>) -> Seq<(u64, int, int)> {
    trips.map_values(|t: Trip| t@)
}

/// Once a fault is found among a prefix, it stays the first fault.
proof fn lemma_first_fault_stays(esp: ElevatorSpecification, recs: Seq<(ElevatorState, u64)>, j: int, k: int)
    requires
        0 <= j <= k,
        first_fault(esp, recs, j) is Some,
    ensures
        first_fault(esp, recs, k) == first_fault(esp, recs, j),
    decreases k - j,
{
    if j < k {
        lemma_first_fault_stays(esp, recs, j, k - 1);
    }
}

/// Sums over a prefix depend on that prefix alone.
proof fn lemma_total_time_prefix(s1: Seq<(u64, int, int)>, s2: Seq<(u64, int, int)>, j: int)
    requires
        0 <= j <= s1.len(),
        j <= s2.len(),
        forall|i: int| 0 <= i < j ==> s1[i] == s2[i],
    ensures
        total_time(s1, j) == total_time(s2, j),
    decreases j,
{
    if j > 0 {
        lemma_total_time_prefix(s1, s2, j - 1);
    }
}

/// Prefix sums of non-negative times do not decrease.
proof fn lemma_total_time_monotone(s: Seq<(u64, int, int)>, j: int, k: int)
    requires
        0 <= j <= k <= s.len(),
        forall|i: int| 0 <= i < s.len() ==> s[i].1 >= 0 && s[i].2 >= 0,
    ensures
        total_time(s, j) <= total_time(s, k),
    decreases k - j,
{
    if j < k {
        lemma_total_time_monotone(s, j, k - 1);
    }
}

/// The direct time never exceeds the total time.
proof fn lemma_direct_within_total(s: Seq<(u64, int, int)>, j: int)
    requires
        0 <= j <= s.len(),
        forall|i: int| 0 <= i < s.len() ==> s[i].1 >= 0 && s[i].2 >= 0,
    ensures
        0 <= total_direct(s, j) <= total_time(s, j),
    decreases j,
{
    if j > 0 {
        lemma_direct_within_total(s, j - 1);
    }
}

/// Jerk filter update, for a bounded estimate and acceleration change.
fn filtered_jerk(jerk: i128, dt: i128, da: i128) -> (r: i128)
    requires
        -JERK_LIMIT <= jerk <= JERK_LIMIT,
        0 < dt <= 0xffff_ffff_ffff_ffff,
        0 <= da <= 2 * ACCELERATION_LIMIT,
    ensures
        r == div_toward_zero(jerk * (MICRO - dt) + da * dt, MICRO as int),
{
    let micro = MICRO as i128;
    assert(micro == 1_000_000);
    let decay = micro - dt;
    proof {
        assert(-220_000 * 0x1_0000_0000_0000_0000 <= jerk * decay <= 220_000 * 0x1_0000_0000_0000_0000)
            by (nonlinear_arith)
            requires
                -220_000 <= jerk <= 220_000,
                -0x1_0000_0000_0000_0000 <= decay <= 1_000_000,
        ;
        assert(0 <= da * dt <= 4_400_000 * 0x1_0000_0000_0000_0000) by (nonlinear_arith)
            requires
                0 <= da <= 4_400_000,
                0 < dt <= 0xffff_ffff_ffff_ffff,
        ;
    }
    div_toward_zero_i128(jerk * decay + da * dt, micro)
}

/// Analyzes a recorded run of the elevator `esp`: the records in the order
/// they were written, each the state after a tick and the destination.
pub fn analyze(esp: &ElevatorSpecification, records: &Vec<(ElevatorState, u64)>) -> (r: Result<(), AnalysisError>)
    requires
        esp.wf(),
    ensures
        r == analysis(*esp, records@),
{
    let ghost recs = records@;
    let n = records.len();
    let mut trips: Vec<Trip> = Vec::new();
    let mut jerk: i128 = 0;
    let mut k: usize = 0;
    while k < n
        invariant
            esp.wf(),
            n == recs.len(),
            recs == records@,
            0 <= k <= n,
            first_fault(*esp, recs, k as int) is None,
            trip_views(trips@) =~= trips_upto(recs, k as int),
            forall|i: int| 0 <= i < trips@.len() ==> esp.has_floor(#[trigger] trips@[i].dst),
            k == 0 ==> jerk == 0,
            k > 0 ==> jerk == jerk_at(recs, k - 1),
            k > 0 ==> -JERK_LIMIT <= jerk <= JERK_LIMIT,
            k > 0 ==> abs(recs[k - 1].0.acceleration as int) <= ACCELERATION_LIMIT,
            k > 0 ==> trips@.len() > 0,
            k > 0 ==> recs[0].0.timestamp <= recs[k - 1].0.timestamp,
            k > 0 ==> total_time(trips_upto(recs, k as int), trips@.len() as int) == recs[k - 1].0.timestamp
                - recs[0].0.timestamp,
            k > 0 ==> forall|i: int|
                0 <= i < trips@.len() ==> trips@[i].up + trips@[i].down <= recs[k - 1].0.timestamp
                    - recs[0].0.timestamp,
        decreases n - k,
    {
        let (est, dst) = records[k];
        proof {
            assert(first_fault(*esp, recs, k + 1) == record_fault(*esp, recs, k as int));
        }
        if k > 0 && est.timestamp <= records[k - 1].0.timestamp {
            proof {
                lemma_first_fault_stays(*esp, recs, k + 1, n as int);
            }
            return Err(AnalysisError::NonMonotonicTime { index: k });
        }
        if dst < 1 || dst > esp.floor_count {
            proof {
                lemma_first_fault_stays(*esp, recs, k + 1, n as int);
            }
            return Err(AnalysisError::InputMalformed { index: k });
        }
        if est.acceleration < -ACCELERATION_LIMIT || est.acceleration > ACCELERATION_LIMIT {
            proof {
                lemma_first_fault_stays(*esp, recs, k + 1, n as int);
            }
            return Err(AnalysisError::BoundViolated { bound: Bound::Acceleration, index: k });
        }
        if est.velocity < -VELOCITY_LIMIT || est.velocity > VELOCITY_LIMIT {
            proof {
                lemma_first_fault_stays(*esp, recs, k + 1, n as int);
            }
            return Err(AnalysisError::BoundViolated { bound: Bound::Velocity, index: k });
        }
        let ghost prev_trips = trips_upto(recs, k as int);
        if k > 0 {
            let prev = records[k - 1].0;
            let dt = est.timestamp as i128 - prev.timestamp as i128;
            let da_signed = est.acceleration as i128 - prev.acceleration as i128;
            let da = if da_signed < 0 {
                -da_signed
            } else {
                da_signed
            };
            jerk = filtered_jerk(jerk, dt, da);
            if jerk < -(JERK_LIMIT as i128) || jerk > JERK_LIMIT as i128 {
                proof {
                    lemma_first_fault_stays(*esp, recs, k + 1, n as int);
                }
                return Err(AnalysisError::BoundViolated { bound: Bound::Jerk, index: k });
            }
            let last = trips.len() - 1;
            let mut t = trips[last];
            let step = dt as u64;
            if est.velocity > 0 {
                t.up = t.up + step;
            } else {
                t.down = t.down + step;
            }
            trips.set(last, t);
            proof {
                let timed = trip_views(trips@);
                assert(timed =~= prev_trips.update(prev_trips.len() - 1, t@));
                lemma_total_time_prefix(timed, prev_trips, last as int);
                assert(total_time(timed, timed.len() as int) == est.timestamp - recs[0].0.timestamp);
            }
        }
        let ghost timed = trip_views(trips@);
        if trips.len() == 0 || trips[trips.len() - 1].dst != dst {
            trips.push(Trip { dst, up: 0, down: 0 });
            proof {
                lemma_total_time_prefix(trip_views(trips@), timed, timed.len() as int);
            }
        }
        proof {
            assert(trip_views(trips@) =~= trips_upto(recs, k + 1));
        }
        k = k + 1;
    }
    let ghost spec_trips = trips_upto(recs, n as int);
    let m = trips.len();
    if m == 0 {
        return Ok(());
    }
    proof {
        assert forall|i: int| 0 <= i < spec_trips.len() implies spec_trips[i].1 >= 0 && spec_trips[i].2 >= 0
            && esp.has_floor(spec_trips[i].0) by {
            assert(spec_trips[i] == trips@[i]@);
        }
        lemma_direct_within_total(spec_trips, m as int);
    }
    let start = records[0].0.location as i128;
    let cap: u128 = 0x100_0000_0000_0000_0000;
    let mut total: u128 = 0;
    let mut direct: u128 = 0;
    let mut distance: u128 = 0;
    let mut j: usize = 0;
    while j < m
        invariant
            esp.wf(),
            m == trips@.len(),
            m == spec_trips.len(),
            trip_views(trips@) == spec_trips,
            n == recs.len(),
            n > 0,
            start == recs[0].0.location,
            0 <= j <= m,
            total_time(spec_trips, m as int) <= 0xffff_ffff_ffff_ffff,
            forall|i: int| 0 <= i < m ==> spec_trips[i].1 >= 0 && spec_trips[i].2 >= 0,
            forall|i: int| 0 <= i < m ==> esp.has_floor(#[trigger] spec_trips[i].0),
            total == total_time(spec_trips, j as int),
            cap == 0x100_0000_0000_0000_0000,
            distance <= cap,
            direct == total_direct(spec_trips, j as int),
            distance == if total_distance(*esp, start as int, spec_trips, j as int) < cap {
                total_distance(*esp, start as int, spec_trips, j as int)
            } else {
                cap as int
            },
        decreases m - j,
    {
        let t = trips[j];
        assert(spec_trips[j as int] == t@);
        assert(esp.has_floor(spec_trips[j as int].0));
        if j > 0 {
            assert(spec_trips[j - 1] == trips@[j - 1]@);
            assert(esp.has_floor(spec_trips[j - 1].0));
        }
        proof {
            lemma_total_time_monotone(spec_trips, j + 1, m as int);
            lemma_direct_within_total(spec_trips, j + 1);
        }
        total = total + t.up as u128 + t.down as u128;
        direct = direct + if t.up > t.down {
            t.up as u128
        } else {
            t.down as u128
        };
        let from: i128 = if j == 0 {
            start
        } else {
            esp.landing(trips[j - 1].dst) as i128
        };
        let to = esp.landing(t.dst) as i128;
        let d = if from < to {
            to - from
        } else {
            from - to
        };
        assert(d == trip_distance(*esp, start as int, spec_trips, j as int));
        assert(0 <= d <= 0xffff_ffff_ffff_ffff);
        let du = d as u128;
        assert(du == d);
        assert(distance + du <= 0x100_0000_0000_0000_0000 + 0xffff_ffff_ffff_ffff);
        distance = if distance + du > cap {
            cap
        } else {
            distance + du
        };
        j = j + 1;
    }
    if 10 * direct < 9 * total {
        return Err(AnalysisError::BoundViolated { bound: Bound::Efficiency, index: n });
    }
    if 25 * total > 30 * (TRIP_OVERHEAD as u128) * (m as u128) + 6 * distance {
        return Err(AnalysisError::BoundViolated { bound: Bound::Duration, index: n });
    }
    Ok(())
}

/// The first fault of a log with increasing timestamps and valid
/// destinations is a bound violation.
proof fn lemma_ordered_faults(esp: ElevatorSpecification, recs: Seq<(ElevatorState, u64)>, k: int)
    requires
        0 <= k <= recs.len(),
        forall|i: int| 0 < i < recs.len() ==> recs[i - 1].0.timestamp < #[trigger] recs[i].0.timestamp,
        forall|i: int| 0 <= i < recs.len() ==> esp.has_floor(#[trigger] recs[i].1),
    ensures
        first_fault(esp, recs, k) matches Some(e) ==> e is BoundViolated,
    decreases k,
{
    if k > 0 {
        lemma_ordered_faults(esp, recs, k - 1);
        assert(esp.has_floor(recs[k - 1].1));
        if k - 1 > 0 {
            assert(recs[k - 2].0.timestamp < recs[k - 1].0.timestamp);
        }
    }
}

/// A log whose timestamps strictly increase and whose destinations are
/// floors of the building (as the driver writes them) is never refused for
/// its time order or its destinations: it passes or breaks a bound.
pub proof fn ordered_logs_fail_only_on_bounds(esp: ElevatorSpecification, recs: Seq<(ElevatorState, u64)>)
    requires
        forall|i: int| 0 < i < recs.len() ==> recs[i - 1].0.timestamp < #[trigger] recs[i].0.timestamp,
        forall|i: int| 0 <= i < recs.len() ==> esp.has_floor(#[trigger] recs[i].1),
    ensures
        analysis(esp, recs) matches Err(e) ==> e is BoundViolated,
{
    lemma_ordered_faults(esp, recs, recs.len() as int);
}

/// A log whose ticks last at most a second and whose acceleration moves by
/// at most the jerk bound's value (0.22 m/s²) from record to record keeps the
/// filtered jerk estimate within the jerk bound.
pub proof fn gentle_logs_keep_jerk_bounded(recs: Seq<(ElevatorState, u64)>, k: int)
    requires
        0 <= k < recs.len(),
        forall|i: int| 0 < i < recs.len() ==> 0 < #[trigger] gap(recs, i) <= MICRO,
        forall|i: int|
            0 < i < recs.len() ==> abs(#[trigger] recs[i].0.acceleration - recs[i - 1].0.acceleration)
                <= JERK_LIMIT,
    ensures
        0 <= jerk_at(recs, k) <= JERK_LIMIT,
    decreases k,
{
    if k > 0 {
        gentle_logs_keep_jerk_bounded(recs, k - 1);
        let j = jerk_at(recs, k - 1);
        let dt = gap(recs, k);
        let da = abs(recs[k].0.acceleration - recs[k - 1].0.acceleration);
        assert(0 <= j * (MICRO - dt) + da * dt <= JERK_LIMIT * MICRO) by (nonlinear_arith)
            requires
                0 <= j <= 220_000,
                0 < dt <= 1_000_000,
                0 <= da <= 220_000,
                MICRO == 1_000_000,
                JERK_LIMIT == 220_000,
        ;
    }
}

} // verus!
