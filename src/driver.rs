//! The simulation driver: one tick at a time it integrates, reports the
//! state, pops a request on arrival and polls the controller. The caller owns
//! the clock, the sleeping between ticks and the sink of records.
use vstd::prelude::*;

use crate::analyze::{analysis, ordered_logs_fail_only_on_bounds, gap, gentle_logs_keep_jerk_bounded, jerk_at, ACCELERATION_LIMIT, JERK_LIMIT, VELOCITY_LIMIT};
use crate::fixed::{abs, div_toward_zero, MICRO};
use crate::motor::{
    bang_bang_target,
    distance_to,
    input_for,
    lemma_target_reached,
    lemma_target_reached_from_above,
    smooth_target,
    MotorController,
    BANG_BANG_ACCELERATION,
    MAX_ACCELERATION,
    MAX_JERK,
    MAX_VELOCITY,
};
use crate::physics::{
    integrated,
    motor_acceleration,
    step_fits,
    try_simulate_elevator,
    ElevatorSpecification,
    ElevatorState,
    MotorInput,
    GRAVITY,
};

verus! {

/// Arrival tolerance on distance (µm) and on speed (µm/s): 0.01 m and 0.01 m/s.
pub const ARRIVAL_TOLERANCE: i64 = 10_000;

/// The carriage stands at the landing of `dst`.
pub open spec fn arrived(esp: ElevatorSpecification, est: ElevatorState, dst: u64) -> bool {
    &&& distance_to(esp, est, dst) < ARRIVAL_TOLERANCE
    &&& abs(est.velocity as int) < ARRIVAL_TOLERANCE
}

/// `est` with its velocity pinned to zero.
pub open spec fn snapped(est: ElevatorState) -> ElevatorState {
    ElevatorState { velocity: 0, ..est }
}

/// A tick could not be simulated.
#[derive(Clone, Copy, Debug, PartialEq, Eq, Structural)]
pub enum SimulationError {
    /// The next state lies beyond the representable range.
    StateOutOfRange,
}

/// A run in progress: the elevator, its state, the motor input of the coming
/// tick, the floors still requested and the controller.
#[derive(Clone, Debug)]
pub struct Simulation {
    pub esp: ElevatorSpecification,
    pub state: ElevatorState,
    pub input: MotorInput,
    pub requests: Vec<u64>,
    pub controller: MotorController,
}

impl Simulation {
    /// The elevator is valid, the controller drives it, the input has a
    /// non-negative voltage and every request names a floor of the building.
    pub open spec fn wf(&self) -> bool {
        &&& self.esp.wf()
        &&& self.controller.spec_esp() == self.esp
        &&& self.input.wf()
        &&& forall|i: int| 0 <= i < self.requests@.len() ==> self.esp.has_floor(#[trigger] self.requests@[i])
    }

    /// What one tick of `dt` µs does to `before`, where it succeeds: `record`
    /// is the integrated state and the destination it was heading for; on
    /// arrival the velocity is pinned to zero and the request is popped; the
    /// controller is polled for the next input while requests remain.
    pub open spec fn ticked(before: Simulation, dt: int, record: (ElevatorState, u64), after: Simulation) -> bool {
        let dst = before.requests@[0];
        let arrival = arrived(before.esp, record.0, dst);
        let state = if arrival {
            snapped(record.0)
        } else {
            record.0
        };
        let requests = if arrival {
            before.requests@.drop_first()
        } else {
            before.requests@
        };
        &&& integrated(before.esp, before.state, before.input, dt, record.0)
        &&& record.1 == dst
        &&& after.esp == before.esp
        &&& after.state == state
        &&& after.requests@ == requests
        &&& if requests.len() > 0 {
            &&& after.input == before.controller.response(state, requests[0])
            &&& after.controller == before.controller.after_poll(state)
        } else {
            &&& after.input == before.input
            &&& after.controller == before.controller
        }
    }

    /// The coming tick's input is the controller's answer for the current
    /// state and the head request.
    pub open spec fn polled(&self) -> bool {
        self.requests@.len() > 0 ==> self.input == self.controller.response(self.state, self.requests@[0])
    }

    /// A run of `esp` toward `requests`, from rest at the datum at time zero.
    /// The controller is started, and polled for the first tick's input.
    pub fn new(esp: ElevatorSpecification, requests: Vec<u64>, controller: MotorController) -> (r: Simulation)
        requires
            esp.wf(),
            forall|i: int| 0 <= i < requests@.len() ==> esp.has_floor(#[trigger] requests@[i]),
        ensures
            r.wf(),
            r.esp == esp,
            r.requests@ == requests@,
            r.state.timestamp == 0,
            r.state.location == 0,
            r.state.velocity == 0,
            r.state.acceleration == 0,
            r.controller is BangBang <==> controller is BangBang,
            r.controller matches MotorController::Smooth(c) ==> c.timestamp == 0,
            r.polled(),
    {
        let state = ElevatorState::initial();
        let mut controller = controller;
        controller.init(esp, state);
        let input = if requests.len() > 0 {
            controller.poll(state, requests[0])
        } else {
            MotorInput::Up { voltage: 0 }
        };
        Simulation { esp, state, input, requests, controller }
    }

    /// No request is left: the run is over.
    pub fn is_finished(&self) -> (r: bool)
        ensures
            r == (self.requests@.len() == 0),
    {
        self.requests.len() == 0
    }

    /// Simulates one tick of `dt` µs and returns the record of it: the new
    /// state and the destination it was heading for. Where the next state is
    /// not representable, nothing changes and the error says so.
    pub fn step(&mut self, dt: i64) -> (r: Result<(ElevatorState, u64), SimulationError>)
        requires
            old(self).wf(),
            old(self).requests@.len() > 0,
            dt > 0,
        ensures
            final(self).wf(),
            r is Ok <==> step_fits(old(self).esp, old(self).state, old(self).input, dt as int),
            r matches Ok(record) ==> Simulation::ticked(*old(self), dt as int, record, *final(self)),
            r is Err ==> *final(self) == *old(self),
    {
        let next = match try_simulate_elevator(&self.esp, self.state, self.input, dt) {
            Some(next) => next,
            None => {
                return Err(SimulationError::StateOutOfRange);
            },
        };
        let dst = self.requests[0];
        let mut state = next;
        if self.at_landing(&next, dst) {
            state.velocity = 0;
            self.requests.remove(0);
            assert(self.requests@ =~= old(self).requests@.drop_first());
        }
        self.state = state;
        if self.requests.len() > 0 {
            let head = self.requests[0];
            self.input = self.controller.poll(state, head);
        }
        Ok((next, dst))
    }

    /// The arrival test on `est` against `dst`.
    fn at_landing(&self, est: &ElevatorState, dst: u64) -> (r: bool)
        requires
            self.esp.wf(),
            self.esp.has_floor(dst),
        ensures
            r == arrived(self.esp, *est, dst),
    {
        let landing = self.esp.landing(dst);
        let gap = if est.location < landing {
            landing as i128 - est.location as i128
        } else {
            est.location as i128 - landing as i128
        };
        let speed = if est.velocity < 0 {
            -(est.velocity as i128)
        } else {
            est.velocity as i128
        };
        gap < ARRIVAL_TOLERANCE as i128 && speed < ARRIVAL_TOLERANCE as i128
    }
}

/// When a tick empties the request queue, the carriage stands at the landing
/// of the last requested floor, at rest.
pub proof fn arrival_on_completion(
    before: Simulation,
    dt: int,
    record: (ElevatorState, u64),
    after: Simulation,
)
    requires
        before.requests@.len() > 0,
        Simulation::ticked(before, dt, record, after),
        after.requests@.len() == 0,
    ensures
        before.requests@.len() == 1,
        arrived(after.esp, after.state, before.requests@.last()),
        after.state.velocity == 0,
{
}

/// In a bang-bang run of a carriage whose motor voltage stays representable,
/// every tick records an acceleration within the analyzer's bound, and the
/// next tick's input is again the controller's answer.
pub proof fn bang_bang_acceleration_bound(before: Simulation, dt: int, record: (ElevatorState, u64), after: Simulation)
    requires
        before.wf(),
        before.controller is BangBang,
        before.polled(),
        before.requests@.len() > 0,
        (BANG_BANG_ACCELERATION + GRAVITY) * before.esp.carriage_weight <= 8 * i64::MAX,
        Simulation::ticked(before, dt, record, after),
    ensures
        abs(record.0.acceleration as int) <= ACCELERATION_LIMIT,
        after.controller == before.controller,
        after.polled(),
{
    let esp = before.esp;
    let t = bang_bang_target(esp, before.state, before.requests@[0]);
    assert(abs((t + GRAVITY) * esp.carriage_weight) <= 8 * i64::MAX) by (nonlinear_arith)
        requires
            -1_000_000 <= t <= 1_000_000,
            GRAVITY == 9_800_000,
            esp.carriage_weight > 0,
            (1_000_000 + GRAVITY) * esp.carriage_weight <= 8 * i64::MAX,
    ;
    lemma_target_reached(esp, t);
}

/// The state of a bang-bang run stays in this envelope: acceleration at
/// most the bang-bang magnitude plus rounding, speed at most 5.04 m/s, and
/// above 5.02 m/s the acceleration never adds speed.
pub open spec fn within_speed_envelope(est: ElevatorState) -> bool {
    let v = est.velocity as int;
    let a = est.acceleration as int;
    &&& abs(a) <= BANG_BANG_ACCELERATION + 8
    &&& abs(v) <= 5_040_000
    &&& abs(v) > 5_020_000 ==> (a * v <= 0 || abs(a) <= 8)
}

/// A tick of at most 20 ms changes the velocity by at most 0.02 m/s, and not
/// at all under an acceleration of at most 8 µm/s².
proof fn lemma_velocity_change(a: int, dt: int)
    requires
        abs(a) <= BANG_BANG_ACCELERATION + 8,
        0 < dt <= 20_000,
    ensures
        abs(div_toward_zero(a * dt, MICRO as int)) <= 20_000,
        abs(a) <= 8 ==> div_toward_zero(a * dt, MICRO as int) == 0,
        a >= 0 ==> div_toward_zero(a * dt, MICRO as int) >= 0,
        a <= 0 ==> div_toward_zero(a * dt, MICRO as int) <= 0,
{
    let m = MICRO as int;
    assert(abs(a * dt) == abs(a) * dt) by (nonlinear_arith)
        requires
            dt > 0,
    ;
    assert(abs(a) * dt <= 1_000_008 * 20_000) by (nonlinear_arith)
        requires
            abs(a) <= 1_000_008,
            0 < dt <= 20_000,
    ;
    if abs(a) <= 8 {
        assert(abs(a) * dt <= 160_000) by (nonlinear_arith)
            requires
                abs(a) <= 8,
                0 < dt <= 20_000,
        ;
    }
    if a >= 0 {
        assert(a * dt >= 0) by (nonlinear_arith)
            requires
                a >= 0,
                dt > 0,
        ;
    } else {
        assert(a * dt < 0) by (nonlinear_arith)
            requires
                a < 0,
                dt > 0,
        ;
    }
}

/// In a bang-bang run at ticks of at most 20 ms (the default is 10 ms), of
/// a carriage whose motor voltage stays representable, the state stays in the
/// speed envelope, so every tick records a velocity within the analyzer's
/// bound.
pub proof fn bang_bang_speed_bound(before: Simulation, dt: int, record: (ElevatorState, u64), after: Simulation)
    requires
        before.wf(),
        before.controller is BangBang,
        before.polled(),
        before.requests@.len() > 0,
        (BANG_BANG_ACCELERATION + GRAVITY) * before.esp.carriage_weight <= 8 * i64::MAX,
        0 < dt <= 20_000,
        within_speed_envelope(before.state),
        Simulation::ticked(before, dt, record, after),
    ensures
        abs(record.0.velocity as int) <= VELOCITY_LIMIT,
        within_speed_envelope(record.0),
        within_speed_envelope(after.state),
{
    let esp = before.esp;
    let est = before.state;
    let v = est.velocity as int;
    let a = est.acceleration as int;
    let t = bang_bang_target(esp, est, before.requests@[0]);
    assert(abs((t + GRAVITY) * esp.carriage_weight) <= 8 * i64::MAX) by (nonlinear_arith)
        requires
            -1_000_000 <= t <= 1_000_000,
            GRAVITY == 9_800_000,
            esp.carriage_weight > 0,
            (1_000_000 + GRAVITY) * esp.carriage_weight <= 8 * i64::MAX,
    ;
    lemma_target_reached(esp, t);
    lemma_velocity_change(a, dt);
    let a2 = record.0.acceleration as int;
    let v2 = record.0.velocity as int;
    assert(v2 == v + div_toward_zero(a * dt, MICRO as int));
    assert(a2 == motor_acceleration(esp, before.input));
    assert(abs(a2) <= BANG_BANG_ACCELERATION + 8);
    let dv = div_toward_zero(a * dt, MICRO as int);
    if abs(v) > 5_020_000 {
        // Here the acceleration does not add speed.
        if v > 0 {
            assert(a <= 0 || abs(a) <= 8) by (nonlinear_arith)
                requires
                    a * v <= 0 || abs(a) <= 8,
                    v > 0,
            ;
        } else {
            assert(a >= 0 || abs(a) <= 8) by (nonlinear_arith)
                requires
                    a * v <= 0 || abs(a) <= 8,
                    v < 0,
            ;
        }
        assert(abs(v2) <= abs(v));
    }
    assert(abs(v2) <= 5_040_000);
    // The new acceleration opposes the velocity or is mere rounding once the
    // speed reaches the bound.
    if abs(v) >= MAX_VELOCITY {
        assert(a2 * v <= 0 || abs(a2) <= 8) by (nonlinear_arith)
            requires
                t - 8 <= a2 <= t + 8,
                t == 0 || (t == 1_000_000 && v < 0) || (t == -1_000_000 && v > 0),
        ;
        assert(a2 * v2 <= 0 || abs(a2) <= 8) by (nonlinear_arith)
            requires
                a2 * v <= 0 || abs(a2) <= 8,
                abs(v) >= 5_000_000,
                abs(v2 - v) <= 20_000,
        ;
    }
    assert(within_speed_envelope(record.0));
    assert(within_speed_envelope(snapped(record.0)));
}

/// Acceleration change the smooth controller allows over a tick of `tick` µs.
pub open spec fn jerk_step(tick: int) -> int {
    div_toward_zero(tick * MAX_JERK, MICRO as int)
}

/// A smooth run with ticks of `tick` µs: the controller last polled at the
/// current state (while requests remain), and the coming tick moves the
/// acceleration by at most one jerk step plus 8 µm/s² of rounding, keeping
/// it within 2.002008 m/s².
pub open spec fn smooth_envelope(sim: Simulation, tick: int) -> bool {
    let a = sim.state.acceleration as int;
    let next = motor_acceleration(sim.esp, sim.input);
    &&& sim.controller is Smooth
    &&& abs(a) <= 2_002_008
    &&& sim.requests@.len() > 0 ==> {
        &&& sim.controller matches MotorController::Smooth(c) && c.timestamp == sim.state.timestamp
        &&& abs(next) <= 2_002_008
        &&& abs(next - a) <= jerk_step(tick) + 8
    }
}

/// The jerk step of a tick of 40 µs to 10 ms lies between 8 and 2000 µm/s².
proof fn lemma_jerk_step(tick: int)
    requires
        40 <= tick <= 10_000,
    ensures
        8 <= jerk_step(tick) <= 2_000,
{
    let step = jerk_step(tick);
    assert(8 <= step <= 2_000) by (nonlinear_arith)
        requires
            40 <= tick <= 10_000,
            step == (tick * 200_000) / 1_000_000,
    ;
}

/// A smooth run starts inside its envelope, where the motor voltage stays
/// representable.
pub proof fn smooth_start_is_gentle(sim: Simulation, tick: int)
    requires
        sim.wf(),
        sim.polled(),
        sim.controller matches MotorController::Smooth(c) && c.timestamp == 0,
        sim.state.timestamp == 0,
        sim.state.acceleration == 0,
        40 <= tick <= 10_000,
        (2_010_000 + GRAVITY) * sim.esp.carriage_weight <= 8 * i64::MAX,
    ensures
        smooth_envelope(sim, tick),
{
    lemma_jerk_step(tick);
    if sim.requests@.len() > 0 {
        let esp = sim.esp;
        let t = smooth_target(esp, sim.state, sim.requests@[0], 0);
        assert(t == 0);
        assert(abs((t + GRAVITY) * esp.carriage_weight) <= 8 * i64::MAX) by (nonlinear_arith)
            requires
                t == 0,
                GRAVITY == 9_800_000,
                esp.carriage_weight > 0,
                (2_010_000 + GRAVITY) * esp.carriage_weight <= 8 * i64::MAX,
        ;
        lemma_target_reached(esp, t);
    }
}

/// In a smooth run with ticks of a fixed length between 40 µs and 10 ms, of a
/// carriage whose motor voltage stays representable, each tick changes the
/// recorded acceleration by at most one jerk step plus rounding (at most
/// 2008 µm/s²), every record stays within the acceleration bound, and the run
/// stays in its envelope.
pub proof fn smooth_run_is_gentle(
    before: Simulation,
    tick: int,
    record: (ElevatorState, u64),
    after: Simulation,
)
    requires
        before.wf(),
        smooth_envelope(before, tick),
        before.requests@.len() > 0,
        40 <= tick <= 10_000,
        (2_010_000 + GRAVITY) * before.esp.carriage_weight <= 8 * i64::MAX,
        Simulation::ticked(before, tick, record, after),
    ensures
        abs(record.0.acceleration - before.state.acceleration) <= jerk_step(tick) + 8,
        abs(record.0.acceleration - before.state.acceleration) <= JERK_LIMIT,
        abs(record.0.acceleration as int) <= ACCELERATION_LIMIT,
        smooth_envelope(after, tick),
{
    let esp = before.esp;
    let n = record.0.acceleration as int;
    lemma_jerk_step(tick);
    assert(n == motor_acceleration(esp, before.input));
    if after.requests@.len() > 0 {
        let head = after.requests@[0];
        let c = match before.controller {
            MotorController::Smooth(c) => c,
            MotorController::BangBang(_) => arbitrary(),
        };
        assert(after.state.timestamp - c.timestamp == tick);
        let step = jerk_step(tick);
        let t = smooth_target(esp, after.state, head, tick);
        assert(t == n + step || t == n - step);
        assert(abs(n) >= MAX_ACCELERATION ==> abs(t) <= abs(n) - step);
        assert(abs((t + GRAVITY) * esp.carriage_weight) <= 8 * i64::MAX) by (nonlinear_arith)
            requires
                -2_010_000 <= t <= 2_010_000,
                GRAVITY == 9_800_000,
                esp.carriage_weight > 0,
                (2_010_000 + GRAVITY) * esp.carriage_weight <= 8 * i64::MAX,
        ;
        lemma_target_reached_from_above(esp, t);
        assert(after.input == input_for(esp, t));
    }
}

/// Records of successive ticks head for floors of the building and carry
/// strictly increasing timestamps.
pub proof fn ticks_are_ordered(
    first: Simulation,
    dt1: int,
    record1: (ElevatorState, u64),
    second: Simulation,
    dt2: int,
    record2: (ElevatorState, u64),
    third: Simulation,
)
    requires
        first.wf(),
        first.requests@.len() > 0,
        dt1 > 0,
        dt2 > 0,
        Simulation::ticked(first, dt1, record1, second),
        second.requests@.len() > 0,
        Simulation::ticked(second, dt2, record2, third),
    ensures
        first.esp.has_floor(record1.1),
        record1.0.timestamp < record2.0.timestamp,
{
}

/// `sims` and `records` describe a run of `records.len()` ticks: each state
/// of the run still had requests, was well formed, and ticked by `dts[i]` µs
/// into the next one, writing `records[i]`.
pub open spec fn is_run(sims: Seq<Simulation>, dts: Seq<int>, records: Seq<(ElevatorState, u64)>) -> bool {
    &&& sims.len() == records.len() + 1
    &&& dts.len() == records.len()
    &&& forall|i: int|
        0 <= i < records.len() ==> {
            &&& (#[trigger] sims[i]).wf()
            &&& sims[i].requests@.len() > 0
            &&& dts[i] > 0
            &&& Simulation::ticked(sims[i], dts[i], records[i], sims[i + 1])
        }
}

/// The run starts as `Simulation::new` leaves it: at rest at the datum at
/// time zero, with the first input polled.
pub open spec fn starts_at_rest(sim: Simulation) -> bool {
    &&& sim.wf()
    &&& sim.polled()
    &&& sim.state.timestamp == 0
    &&& sim.state.location == 0
    &&& sim.state.velocity == 0
    &&& sim.state.acceleration == 0
    &&& sim.controller matches MotorController::Smooth(c) ==> c.timestamp == 0
}

proof fn lemma_bang_bang_prefix(sims: Seq<Simulation>, dts: Seq<int>, records: Seq<(ElevatorState, u64)>, k: int)
    requires
        is_run(sims, dts, records),
        starts_at_rest(sims[0]),
        sims[0].controller is BangBang,
        (BANG_BANG_ACCELERATION + GRAVITY) * sims[0].esp.carriage_weight <= 8 * i64::MAX,
        forall|i: int| 0 <= i < dts.len() ==> #[trigger] dts[i] <= 20_000,
        0 <= k <= records.len(),
    ensures
        sims[k].esp == sims[0].esp,
        sims[k].controller == sims[0].controller,
        sims[k].polled(),
        within_speed_envelope(sims[k].state),
    decreases k,
{
    if k > 0 {
        lemma_bang_bang_prefix(sims, dts, records, k - 1);
        let i = k - 1;
        assert(sims[i].wf() && dts[i] <= 20_000);
        bang_bang_acceleration_bound(sims[i], dts[i], records[i], sims[i + 1]);
        bang_bang_speed_bound(sims[i], dts[i], records[i], sims[i + 1]);
    }
}

/// Every record of a bang-bang run from rest, at ticks of at most 20 ms and
/// with a carriage whose motor voltage stays representable, lies within the
/// analyzer's acceleration and velocity bounds.
pub proof fn bang_bang_run_within_bounds(sims: Seq<Simulation>, dts: Seq<int>, records: Seq<(ElevatorState, u64)>)
    requires
        is_run(sims, dts, records),
        starts_at_rest(sims[0]),
        sims[0].controller is BangBang,
        (BANG_BANG_ACCELERATION + GRAVITY) * sims[0].esp.carriage_weight <= 8 * i64::MAX,
        forall|i: int| 0 <= i < dts.len() ==> #[trigger] dts[i] <= 20_000,
    ensures
        forall|i: int|
            0 <= i < records.len() ==> abs((#[trigger] records[i]).0.acceleration as int) <= ACCELERATION_LIMIT
                && abs(records[i].0.velocity as int) <= VELOCITY_LIMIT,
{
    assert forall|i: int| 0 <= i < records.len() implies abs((#[trigger] records[i]).0.acceleration as int)
        <= ACCELERATION_LIMIT && abs(records[i].0.velocity as int) <= VELOCITY_LIMIT by {
        lemma_bang_bang_prefix(sims, dts, records, i);
        assert(sims[i].wf() && dts[i] <= 20_000);
        bang_bang_acceleration_bound(sims[i], dts[i], records[i], sims[i + 1]);
        bang_bang_speed_bound(sims[i], dts[i], records[i], sims[i + 1]);
    }
}

proof fn lemma_smooth_prefix(sims: Seq<Simulation>, dts: Seq<int>, records: Seq<(ElevatorState, u64)>, tick: int, k: int)
    requires
        is_run(sims, dts, records),
        starts_at_rest(sims[0]),
        sims[0].controller is Smooth,
        (2_010_000 + GRAVITY) * sims[0].esp.carriage_weight <= 8 * i64::MAX,
        40 <= tick <= 10_000,
        forall|i: int| 0 <= i < dts.len() ==> #[trigger] dts[i] == tick,
        0 <= k <= records.len(),
    ensures
        sims[k].esp == sims[0].esp,
        smooth_envelope(sims[k], tick),
    decreases k,
{
    if k == 0 {
        smooth_start_is_gentle(sims[0], tick);
    } else {
        lemma_smooth_prefix(sims, dts, records, tick, k - 1);
        let i = k - 1;
        assert(sims[i].wf() && dts[i] == tick);
        smooth_run_is_gentle(sims[i], tick, records[i], sims[i + 1]);
    }
}

/// A smooth run from rest at a fixed tick of 40 µs to 10 ms, with a carriage
/// whose motor voltage stays representable, records only accelerations within
/// the analyzer's bound, and its log keeps the analyzer's filtered jerk
/// estimate within the jerk bound at every record.
pub proof fn smooth_run_keeps_jerk_bounded(
    sims: Seq<Simulation>,
    dts: Seq<int>,
    records: Seq<(ElevatorState, u64)>,
    tick: int,
)
    requires
        is_run(sims, dts, records),
        starts_at_rest(sims[0]),
        sims[0].controller is Smooth,
        (2_010_000 + GRAVITY) * sims[0].esp.carriage_weight <= 8 * i64::MAX,
        40 <= tick <= 10_000,
        forall|i: int| 0 <= i < dts.len() ==> #[trigger] dts[i] == tick,
    ensures
        forall|i: int| 0 <= i < records.len() ==> abs((#[trigger] records[i]).0.acceleration as int) <= ACCELERATION_LIMIT,
        forall|k: int| 0 <= k < records.len() ==> 0 <= #[trigger] jerk_at(records, k) <= JERK_LIMIT,
{
    assert forall|i: int| 0 <= i < records.len() implies {
        &&& abs((#[trigger] records[i]).0.acceleration as int) <= ACCELERATION_LIMIT
        &&& i > 0 ==> 0 < gap(records, i) <= MICRO
        &&& i > 0 ==> abs(records[i].0.acceleration - records[i - 1].0.acceleration) <= JERK_LIMIT
    } by {
        lemma_smooth_prefix(sims, dts, records, tick, i);
        assert(sims[i].wf() && dts[i] == tick);
        smooth_run_is_gentle(sims[i], tick, records[i], sims[i + 1]);
        if i > 0 {
            assert(sims[i - 1].wf() && dts[i - 1] == tick);
            assert(sims[i].state.timestamp == records[i - 1].0.timestamp);
            assert(sims[i].state.acceleration == records[i - 1].0.acceleration);
        }
    }
    assert forall|k: int| 0 <= k < records.len() implies 0 <= #[trigger] jerk_at(records, k) <= JERK_LIMIT by {
        assert forall|i: int| 0 < i < records.len() implies 0 < #[trigger] gap(records, i) <= MICRO by {
            assert(abs(records[i].0.acceleration as int) <= ACCELERATION_LIMIT);
        }
        assert forall|i: int| 0 < i < records.len() implies abs(#[trigger] records[i].0.acceleration
            - records[i - 1].0.acceleration) <= JERK_LIMIT by {
            assert(abs(records[i].0.acceleration as int) <= ACCELERATION_LIMIT);
        }
        gentle_logs_keep_jerk_bounded(records, k);
    }
}

/// The log a run writes has strictly increasing timestamps and heads only
/// for floors of the building, so the analyzer never refuses it for its time
/// order or its destinations: it passes or breaks a bound.
pub proof fn run_logs_fail_only_on_bounds(sims: Seq<Simulation>, dts: Seq<int>, records: Seq<(ElevatorState, u64)>)
    requires
        is_run(sims, dts, records),
    ensures
        analysis(sims[0].esp, records) matches Err(e) ==> e is BoundViolated,
{
    let esp = sims[0].esp;
    assert forall|i: int| 0 <= i < records.len() implies sims[i].esp == esp by {
        lemma_same_building(sims, dts, records, i);
    }
    assert forall|i: int| 0 < i < records.len() implies records[i - 1].0.timestamp < #[trigger] records[i].0.timestamp by {
        assert(sims[i - 1].wf() && sims[i].wf());
        ticks_are_ordered(sims[i - 1], dts[i - 1], records[i - 1], sims[i], dts[i], records[i], sims[i + 1]);
    }
    assert forall|i: int| 0 <= i < records.len() implies esp.has_floor(#[trigger] records[i].1) by {
        assert(sims[i].wf());
        assert(sims[i].esp.has_floor(sims[i].requests@[0]));
    }
    ordered_logs_fail_only_on_bounds(esp, records);
}

proof fn lemma_same_building(sims: Seq<Simulation>, dts: Seq<int>, records: Seq<(ElevatorState, u64)>, k: int)
    requires
        is_run(sims, dts, records),
        0 <= k <= records.len(),
    ensures
        sims[k].esp == sims[0].esp,
    decreases k,
{
    if k > 0 {
        lemma_same_building(sims, dts, records, k - 1);
        assert(Simulation::ticked(sims[k - 1], dts[k - 1], records[k - 1], sims[k]));
    }
}

} // verus!
