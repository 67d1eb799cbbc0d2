//! Elevator data model and the Newtonian integrator.
use vstd::prelude::*;

use crate::fixed::{abs, div_toward_zero, div_toward_zero_i128, fits_i64, mul_wide, narrow_i64, MICRO};

verus! {

/// Gravitational acceleration, in µm/s².
pub const GRAVITY: i64 = 9_800_000;

/// Force produced by one volt of motor input, in newtons.
pub const MOTOR_GAIN: i64 = 8;

/// The building and the carriage; fixed for a whole run.
#[derive(Clone, Copy, Debug, PartialEq, Eq, Structural)]
pub struct ElevatorSpecification {
    pub floor_count: u64,
    /// Height of one floor, in µm.
    pub floor_height: i64,
    /// Mass of the carriage, in kg.
    pub carriage_weight: i64,
}

impl ElevatorSpecification {
    /// A positive number of floors of positive height, a positive mass, and
    /// a building whose top floor lies within the position range.
    pub open spec fn wf(&self) -> bool {
        &&& self.floor_count >= 1
        &&& self.floor_height > 0
        &&& self.carriage_weight > 0
        &&& self.floor_count * self.floor_height <= i64::MAX
    }

    /// Whether `floor` is one of the building's floors (they are numbered from 1).
    pub open spec fn has_floor(&self, floor: u64) -> bool {
        1 <= floor <= self.floor_count
    }

    /// Height of a floor's landing, in µm.
    pub open spec fn floor_location(&self, floor: u64) -> int {
        floor * self.floor_height
    }

    /// Height of the landing of a floor of the building.
    pub fn landing(&self, floor: u64) -> (r: i64)
        requires
            self.wf(),
            self.has_floor(floor),
        ensures
            r == self.floor_location(floor),
    {
        proof {
            assert(floor * self.floor_height <= self.floor_count * self.floor_height) by (nonlinear_arith)
                requires
                    floor <= self.floor_count,
                    self.floor_height > 0,
            ;
            assert(floor <= floor * self.floor_height) by (nonlinear_arith)
                requires
                    self.floor_height >= 1,
            ;
        }
        (floor as i64) * self.floor_height
    }
}

/// Kinematic state of the carriage at one instant.
#[derive(Clone, Copy, Debug, PartialEq, Eq, Structural)]
pub struct ElevatorState {
    /// Time since the start of the run, in µs.
    pub timestamp: i64,
    /// Height above the datum, in µm.
    pub location: i64,
    /// Upward velocity, in µm/s.
    pub velocity: i64,
    /// Upward acceleration, in µm/s².
    pub acceleration: i64,
}

impl ElevatorState {
    /// The state at the start of a run: everything zero.
    pub fn initial() -> (r: ElevatorState)
        ensures
            r.timestamp == 0,
            r.location == 0,
            r.velocity == 0,
            r.acceleration == 0,
    {
        ElevatorState { timestamp: 0, location: 0, velocity: 0, acceleration: 0 }
    }
}

/// Motor drive for one tick: a direction and a voltage magnitude in µV.
#[derive(Clone, Copy, Debug, PartialEq, Eq, Structural)]
pub enum MotorInput {
    Up { voltage: i64 },
    Down { voltage: i64 },
}

impl MotorInput {
    /// The voltage magnitude is never negative.
    pub open spec fn wf(&self) -> bool {
        match *self {
            MotorInput::Up { voltage } => voltage >= 0,
            MotorInput::Down { voltage } => voltage >= 0,
        }
    }

    /// Signed voltage: positive drives upward.
    pub open spec fn net(&self) -> int {
        match *self {
            MotorInput::Up { voltage } => voltage as int,
            MotorInput::Down { voltage } => -voltage,
        }
    }

    /// Signed voltage, up minus down, in µV.
    pub fn net_voltage(&self) -> (r: i128)
        ensures
            r == self.net(),
            -0x8000_0000_0000_0000 <= r <= 0x8000_0000_0000_0000,
    {
        match *self {
            MotorInput::Up { voltage } => voltage as i128,
            MotorInput::Down { voltage } => -(voltage as i128),
        }
    }
}

/// Acceleration that a motor input gives the carriage: gravity plus the
/// motor force over the mass (µV · N/V / kg = µm/s²).
pub open spec fn motor_acceleration(esp: ElevatorSpecification, input: MotorInput) -> int {
    -GRAVITY + div_toward_zero(input.net() * MOTOR_GAIN, esp.carriage_weight as int)
}

/// Explicit Euler step of a position-like quantity by a rate over `dt` µs.
pub open spec fn euler(x: int, rate: int, dt: int) -> int {
    x + div_toward_zero(rate * dt, MICRO as int)
}

/// `next` is `est` advanced by `dt` µs under `input`.
pub open spec fn integrated(
    esp: ElevatorSpecification,
    est: ElevatorState,
    input: MotorInput,
    dt: int,
    next: ElevatorState,
) -> bool {
    &&& next.timestamp == est.timestamp + dt
    &&& next.location == euler(est.location as int, est.velocity as int, dt)
    &&& next.velocity == euler(est.velocity as int, est.acceleration as int, dt)
    &&& next.acceleration == motor_acceleration(esp, input)
}

/// The step of `dt` µs from `est` stays within the representable range.
pub open spec fn step_fits(esp: ElevatorSpecification, est: ElevatorState, input: MotorInput, dt: int) -> bool {
    &&& fits_i64(est.timestamp + dt)
    &&& fits_i64(euler(est.location as int, est.velocity as int, dt))
    &&& fits_i64(euler(est.velocity as int, est.acceleration as int, dt))
    &&& fits_i64(motor_acceleration(esp, input))
}

/// Advances `x` by `rate` over `dt` µs, if the result is representable.
fn euler_step(x: i64, rate: i64, dt: i64) -> (r: Option<i64>)
    ensures
        r is Some <==> fits_i64(euler(x as int, rate as int, dt as int)),
        r matches Some(y) ==> y == euler(x as int, rate as int, dt as int),
{
    let delta = div_toward_zero_i128(mul_wide(rate, dt), MICRO as i128);
    narrow_i64(x as i128 + delta)
}

/// Integrates one tick of `dt` µs, or `None` where the next state leaves the
/// representable range.
pub fn try_simulate_elevator(
    esp: &ElevatorSpecification,
    est: ElevatorState,
    input: MotorInput,
    dt: i64,
) -> (r: Option<ElevatorState>)
    requires
        esp.wf(),
        dt > 0,
    ensures
        r is Some <==> step_fits(*esp, est, input, dt as int),
        r matches Some(next) ==> integrated(*esp, est, input, dt as int, next),
{
    let timestamp = narrow_i64(est.timestamp as i128 + dt as i128);
    let location = euler_step(est.location, est.velocity, dt);
    let velocity = euler_step(est.velocity, est.acceleration, dt);
    let gain = MOTOR_GAIN as i128;
    assert(gain == 8);
    let force = input.net_voltage() * gain;
    let acceleration = narrow_i64(
        div_toward_zero_i128(force, esp.carriage_weight as i128) - GRAVITY as i128,
    );
    match (timestamp, location, velocity, acceleration) {
        (Some(timestamp), Some(location), Some(velocity), Some(acceleration)) => Some(
            ElevatorState { timestamp, location, velocity, acceleration },
        ),
        _ => None,
    }
}

/// Integrates one tick of `dt` µs: Euler steps on position and velocity, and
/// the acceleration that the motor input gives.
pub fn simulate_elevator(esp: &ElevatorSpecification, est: ElevatorState, input: MotorInput, dt: i64) -> (r:
    ElevatorState)
    requires
        esp.wf(),
        dt > 0,
        step_fits(*esp, est, input, dt as int),
    ensures
        integrated(*esp, est, input, dt as int, r),
{
    match try_simulate_elevator(esp, est, input, dt) {
        Some(next) => next,
        None => est,
    }
}

/// Integrating is a function of its inputs, moves time forward by exactly
/// `dt`, and follows the Euler equations field by field.
pub proof fn integrator_consistency(
    esp: ElevatorSpecification,
    est: ElevatorState,
    input: MotorInput,
    dt: int,
    first: ElevatorState,
    second: ElevatorState,
)
    requires
        dt > 0,
        integrated(esp, est, input, dt, first),
        integrated(esp, est, input, dt, second),
    ensures
        first.timestamp > est.timestamp,
        first == second,
{
}

} // verus!
