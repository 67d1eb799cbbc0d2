//! Motor controllers: each tick they turn the latest state and the current
//! destination into a motor input.
use vstd::prelude::*;

use crate::fixed::{abs, abs_i128, div_toward_zero, div_toward_zero_i128, mul_wide, MICRO};
use crate::physics::{motor_acceleration, ElevatorSpecification, ElevatorState, MotorInput, GRAVITY, MOTOR_GAIN};

verus! {

/// Comfort bound on jerk, in µm/s³.
pub const MAX_JERK: i64 = 200_000;

/// Comfort bound on acceleration, in µm/s².
pub const MAX_ACCELERATION: i64 = 2_000_000;

/// Bound on velocity, in µm/s.
pub const MAX_VELOCITY: i64 = 5_000_000;

/// The bang-bang controller's acceleration magnitude, in µm/s².
pub const BANG_BANG_ACCELERATION: i64 = 1_000_000;

/// Voltage, in µV, whose motor force holds the carriage at `target` µm/s²:
/// `(target + g) · mass / gain`, rounded toward zero.
pub open spec fn target_voltage(esp: ElevatorSpecification, target: int) -> int {
    div_toward_zero((target + GRAVITY) * esp.carriage_weight, MOTOR_GAIN as int)
}

/// Motor input that aims at `target` µm/s²: `Up` for a positive voltage,
/// `Down` with the magnitude otherwise, and `Up` with no voltage where the
/// voltage is beyond the representable range.
pub open spec fn input_for(esp: ElevatorSpecification, target: int) -> MotorInput {
    let v = target_voltage(esp, target);
    if abs(v) > i64::MAX {
        MotorInput::Up { voltage: 0 }
    } else if v > 0 {
        MotorInput::Up { voltage: v as i64 }
    } else {
        MotorInput::Down { voltage: (-v) as i64 }
    }
}

/// The carriage is below the destination's landing.
pub open spec fn heading_up(esp: ElevatorSpecification, est: ElevatorState, dst: u64) -> bool {
    est.location < esp.floor_location(dst)
}

/// Distance from the carriage to the destination's landing, in µm.
pub open spec fn distance_to(esp: ElevatorSpecification, est: ElevatorState, dst: u64) -> int {
    abs(est.location - esp.floor_location(dst))
}

/// The velocity points the way the carriage must travel.
pub open spec fn moving_toward(up: bool, velocity: int) -> bool {
    (up && velocity > 0) || (!up && velocity < 0)
}

/// Target acceleration of the bang-bang controller. It brakes at 1 m/s² once
/// the distance left is under the stopping distance `|v|·|v|/2`
/// (`2·MICRO·l < v²` in micro-units).
pub open spec fn bang_bang_target(esp: ElevatorSpecification, est: ElevatorState, dst: u64) -> int {
    let up = heading_up(esp, est, dst);
    let v = est.velocity as int;
    let l = distance_to(esp, est, dst);
    let push = if up {
        BANG_BANG_ACCELERATION as int
    } else {
        -BANG_BANG_ACCELERATION
    };
    if abs(v) >= MAX_VELOCITY {
        if moving_toward(up, v) {
            0
        } else {
            push
        }
    } else if 2 * MICRO * l < v * v && up == (v > 0) {
        -push
    } else {
        push
    }
}

/// The smooth controller's braking test: the distance left is under
/// `|v| · decel_t`, with `decel_t` the estimated braking time. Both sides are
/// multiplied out so that no rounding enters.
pub open spec fn smooth_must_brake(est: ElevatorState, l: int) -> bool {
    let v = est.velocity as int;
    let a = est.acceleration as int;
    let j = MAX_JERK as int;
    let m = MAX_ACCELERATION as int;
    if (v > 0) == (a > 0) {
        // decel_t = |a|/j + |v|/(m/2) + 2·(m/j)
        l * j * m < abs(v) * (abs(a) * m + 2 * abs(v) * j + 2 * m * m)
    } else {
        // decel_t = |v| / (j + |a|)
        l * (j + abs(a)) < v * v
    }
}

/// Target acceleration of the smooth controller, `dt` µs after its previous
/// poll: the current acceleration nudged by `dt · MAX_JERK`.
pub open spec fn smooth_target(esp: ElevatorSpecification, est: ElevatorState, dst: u64, dt: int) -> int {
    let step = div_toward_zero(dt * MAX_JERK, MICRO as int);
    let up = heading_up(esp, est, dst);
    let v = est.velocity as int;
    let a = est.acceleration as int;
    let j = MAX_JERK as int;
    if abs(a) >= MAX_ACCELERATION {
        if a > 0 {
            a - step
        } else {
            a + step
        }
    } else if abs(v) >= MAX_VELOCITY || abs(v * j + a * abs(a)) >= MAX_VELOCITY * j {
        if v > 0 {
            a - step
        } else {
            a + step
        }
    } else if smooth_must_brake(est, distance_to(esp, est, dst)) && (v > 0) == up {
        if up {
            a - step
        } else {
            a + step
        }
    } else if up {
        a + step
    } else {
        a - step
    }
}

/// Motor input aiming at `target` µm/s².
pub fn motor_input_for(esp: &ElevatorSpecification, target: i128) -> (r: MotorInput)
    requires
        esp.wf(),
        -0x1_0000_0000_0000_0000_0000 <= target <= 0x1_0000_0000_0000_0000_0000,
    ensures
        r == input_for(*esp, target as int),
        r.wf(),
{
    let gain = MOTOR_GAIN as i128;
    assert(gain == 8);
    let lifted = target + GRAVITY as i128;
    match lifted.checked_mul(esp.carriage_weight as i128) {
        None => {
            proof {
                let p = lifted * esp.carriage_weight;
                assert(abs(p) >= 0x8000_0000_0000_0000_0000_0000_0000_0000);
                assert(abs(div_toward_zero(p, 8)) > i64::MAX);
            }
            MotorInput::Up { voltage: 0 }
        },
        Some(force) => {
            if force == i128::MIN {
                proof {
                    assert(abs(div_toward_zero(force as int, 8)) > i64::MAX);
                }
                return MotorInput::Up { voltage: 0 };
            }
            let v = div_toward_zero_i128(force, gain);
            if v > i64::MAX as i128 || v < -(i64::MAX as i128) {
                MotorInput::Up { voltage: 0 }
            } else if v > 0 {
                MotorInput::Up { voltage: v as i64 }
            } else {
                MotorInput::Down { voltage: (-v) as i64 }
            }
        },
    }
}

/// Height of a landing, widened; any floor number is accepted.
fn landing_wide(esp: &ElevatorSpecification, dst: u64) -> (r: i128)
    requires
        esp.wf(),
    ensures
        r == esp.floor_location(dst),
        0 <= r <= 0x7fff_ffff_ffff_fffe_8000_0000_0000_0001,
{
    proof {
        assert(dst * esp.floor_height <= 0xffff_ffff_ffff_ffff * 0x7fff_ffff_ffff_ffff) by (nonlinear_arith)
            requires
                0 <= dst <= 0xffff_ffff_ffff_ffff,
                0 < esp.floor_height <= 0x7fff_ffff_ffff_ffff,
        ;
        assert(0 <= dst * esp.floor_height) by (nonlinear_arith)
            requires
                0 <= dst,
                0 < esp.floor_height,
        ;
    }
    (dst as i128) * (esp.floor_height as i128)
}

/// Distance to the destination's landing, and whether it lies above.
fn distance_and_heading(esp: &ElevatorSpecification, est: &ElevatorState, dst: u64) -> (r: (i128, bool))
    requires
        esp.wf(),
    ensures
        r.0 == distance_to(*esp, *est, dst),
        r.1 == heading_up(*esp, *est, dst),
        r.0 >= 0,
{
    let target = landing_wide(esp, dst);
    let here = est.location as i128;
    if here < target {
        (target - here, true)
    } else {
        (here - target, false)
    }
}

/// The bang-bang controller: it aims at one of -1, 0 and +1 m/s².
#[derive(Clone, Copy, Debug, PartialEq, Eq, Structural)]
pub struct SimpleMotorController {
    pub esp: ElevatorSpecification,
}

impl SimpleMotorController {
    /// A controller for the elevator `esp`.
    pub fn new(esp: ElevatorSpecification) -> (r: SimpleMotorController)
        ensures
            r.esp == esp,
    {
        SimpleMotorController { esp }
    }

    /// Starts a run of the elevator `esp`; the bang-bang controller keeps no history.
    pub fn init(&mut self, esp: ElevatorSpecification, est: ElevatorState)
        ensures
            final(self).esp == esp,
    {
        self.esp = esp;
    }

    /// Motor input for the next tick.
    pub fn poll(&self, est: ElevatorState, dst: u64) -> (r: MotorInput)
        requires
            self.esp.wf(),
        ensures
            r == input_for(self.esp, bang_bang_target(self.esp, est, dst)),
            r.wf(),
    {
        let (l, up) = distance_and_heading(&self.esp, &est, dst);
        let v = est.velocity;
        let speed = abs_i128(v);
        let push: i128 = if up {
            BANG_BANG_ACCELERATION as i128
        } else {
            -(BANG_BANG_ACCELERATION as i128)
        };
        let target: i128 = if speed >= MAX_VELOCITY as i128 {
            if (up && v > 0) || (!up && v < 0) {
                0
            } else {
                push
            }
        } else {
            let v_sq = mul_wide(v, v);
            proof {
                assert(v_sq <= 5_000_000 * 5_000_000) by (nonlinear_arith)
                    requires
                        v_sq == v * v,
                        -5_000_000 <= v <= 5_000_000,
                ;
            }
            // 2·MICRO·l >= l, so a distance beyond v² never brakes.
            let brake = l < v_sq && 2 * (MICRO as i128) * l < v_sq;
            if brake && up == (v > 0) {
                -push
            } else {
                push
            }
        };
        motor_input_for(&self.esp, target)
    }
}

/// The smooth controller: it moves the acceleration by at most
/// `MAX_JERK` per second, so jerk stays bounded.
#[derive(Clone, Copy, Debug, PartialEq, Eq, Structural)]
pub struct SmoothMotorController {
    pub esp: ElevatorSpecification,
    /// Timestamp of the previous poll, in µs.
    pub timestamp: i64,
}

impl SmoothMotorController {
    /// A controller for the elevator `esp`, started at time zero.
    pub fn new(esp: ElevatorSpecification) -> (r: SmoothMotorController)
        ensures
            r.esp == esp,
            r.timestamp == 0,
    {
        SmoothMotorController { esp, timestamp: 0 }
    }

    /// Starts a run of the elevator `esp` from the state `est`.
    pub fn init(&mut self, esp: ElevatorSpecification, est: ElevatorState)
        ensures
            final(self).esp == esp,
            final(self).timestamp == est.timestamp,
    {
        self.esp = esp;
        self.timestamp = est.timestamp;
    }

    /// Motor input for the next tick; remembers the state's timestamp.
    pub fn poll(&mut self, est: ElevatorState, dst: u64) -> (r: MotorInput)
        requires
            old(self).esp.wf(),
        ensures
            final(self).esp == old(self).esp,
            final(self).timestamp == est.timestamp,
            r == input_for(
                old(self).esp,
                smooth_target(old(self).esp, est, dst, est.timestamp - old(self).timestamp),
            ),
            r.wf(),
    {
        let dt = est.timestamp as i128 - self.timestamp as i128;
        self.timestamp = est.timestamp;
        let jerk = MAX_JERK as i128;
        assert(jerk == 200_000);
        let step = div_toward_zero_i128(dt * jerk, MICRO as i128);
        let (l, up) = distance_and_heading(&self.esp, &est, dst);
        let v = est.velocity;
        let a = est.acceleration;
        let a_wide = a as i128;
        let target: i128 = if abs_i128(a) >= MAX_ACCELERATION as i128 {
            if a > 0 {
                a_wide - step
            } else {
                a_wide + step
            }
        } else {
            let a_mag = abs_i128(a) as i64;
            let predicted = mul_wide(v, MAX_JERK) + mul_wide(a, a_mag);
            let predicted_mag = if predicted < 0 {
                -predicted
            } else {
                predicted
            };
            if abs_i128(v) >= MAX_VELOCITY as i128 || predicted_mag >= (MAX_VELOCITY as i128) * jerk {
                if v > 0 {
                    a_wide - step
                } else {
                    a_wide + step
                }
            } else {
                let brake = self.must_brake(&est, l);
                if brake && (v > 0) == up {
                    if up {
                        a_wide - step
                    } else {
                        a_wide + step
                    }
                } else if up {
                    a_wide + step
                } else {
                    a_wide - step
                }
            }
        };
        motor_input_for(&self.esp, target)
    }

    /// The braking test, for a state under the acceleration and velocity bounds.
    fn must_brake(&self, est: &ElevatorState, l: i128) -> (r: bool)
        requires
            abs(est.acceleration as int) < MAX_ACCELERATION,
            abs(est.velocity as int) < MAX_VELOCITY,
            l >= 0,
        ensures
            r == smooth_must_brake(*est, l as int),
    {
        let v = est.velocity as i128;
        let a = est.acceleration as i128;
        let speed = abs_i128(est.velocity);
        let a_mag = abs_i128(est.acceleration);
        let j = MAX_JERK as i128;
        let m = MAX_ACCELERATION as i128;
        assert(j == 200_000 && m == 2_000_000);
        assert(MAX_VELOCITY == 5_000_000 && MAX_ACCELERATION == 2_000_000);
        if (v > 0) == (a > 0) {
            let bound: i128 = 5_000_000 * (2_000_000 * 2_000_000 + 2 * 5_000_000 * 200_000 + 2 * 2_000_000
                * 2_000_000);
            proof {
                assert(0 <= speed * (a_mag * m + 2 * speed * j + 2 * m * m) <= bound) by (nonlinear_arith)
                    requires
                        0 <= speed <= 5_000_000,
                        0 <= a_mag <= 2_000_000,
                        j == 200_000,
                        m == 2_000_000,
                        bound == 5_000_000 * (2_000_000 * 2_000_000 + 2 * 5_000_000 * 200_000 + 2
                            * 2_000_000 * 2_000_000),
                ;
            }
            let rhs = speed * (a_mag * m + 2 * speed * j + 2 * m * m);
            if l > rhs {
                // j·m >= 1, so a distance beyond the right-hand side never brakes.
                proof {
                    assert(l * j * m >= l) by (nonlinear_arith)
                        requires
                            l >= 0,
                            j * m >= 1,
                    ;
                }
                false
            } else {
                proof {
                    assert(0 <= l * j * m <= bound * 400_000_000_000) by (nonlinear_arith)
                        requires
                            0 <= l <= bound,
                            j == 200_000,
                            m == 2_000_000,
                    ;
                }
                l * j * m < rhs
            }
        } else {
            proof {
                assert(0 <= v * v <= 5_000_000 * 5_000_000) by (nonlinear_arith)
                    requires
                        -5_000_000 <= v <= 5_000_000,
                ;
            }
            let v_sq = v * v;
            let slope = j + a_mag;
            if l > v_sq {
                proof {
                    assert(l * slope >= l) by (nonlinear_arith)
                        requires
                            l >= 0,
                            slope >= 1,
                    ;
                }
                false
            } else {
                proof {
                    assert(0 <= l * slope <= 5_000_000 * 5_000_000 * 2_200_000) by (nonlinear_arith)
                        requires
                            0 <= l <= 5_000_000 * 5_000_000,
                            1 <= slope <= 2_200_000,
                    ;
                }
                l * slope < v_sq
            }
        }
    }
}

/// The two controllers behind one entry point.
#[derive(Clone, Copy, Debug, PartialEq, Eq, Structural)]
pub enum MotorController {
    BangBang(SimpleMotorController),
    Smooth(SmoothMotorController),
}

impl MotorController {
    /// The elevator the controller drives.
    pub open spec fn spec_esp(&self) -> ElevatorSpecification {
        match *self {
            MotorController::BangBang(c) => c.esp,
            MotorController::Smooth(c) => c.esp,
        }
    }

    /// Motor input that the controller gives for `est` and `dst`.
    pub open spec fn response(&self, est: ElevatorState, dst: u64) -> MotorInput {
        match *self {
            MotorController::BangBang(c) => input_for(c.esp, bang_bang_target(c.esp, est, dst)),
            MotorController::Smooth(c) => input_for(
                c.esp,
                smooth_target(c.esp, est, dst, est.timestamp - c.timestamp),
            ),
        }
    }

    /// What the controller remembers after a poll at `est`.
    pub open spec fn after_poll(&self, est: ElevatorState) -> MotorController {
        match *self {
            MotorController::BangBang(c) => *self,
            MotorController::Smooth(c) => MotorController::Smooth(
                SmoothMotorController { esp: c.esp, timestamp: est.timestamp },
            ),
        }
    }

    /// Starts a run of the elevator `esp` from the state `est`.
    pub fn init(&mut self, esp: ElevatorSpecification, est: ElevatorState)
        ensures
            final(self).spec_esp() == esp,
            *old(self) is BangBang <==> *final(self) is BangBang,
            *final(self) matches MotorController::Smooth(c) ==> c.timestamp == est.timestamp,
    {
        match self {
            MotorController::BangBang(c) => c.init(esp, est),
            MotorController::Smooth(c) => c.init(esp, est),
        }
    }

    /// Motor input for the next tick.
    pub fn poll(&mut self, est: ElevatorState, dst: u64) -> (r: MotorInput)
        requires
            old(self).spec_esp().wf(),
        ensures
            r == old(self).response(est, dst),
            *final(self) == old(self).after_poll(est),
            r.wf(),
    {
        match self {
            MotorController::BangBang(c) => c.poll(est, dst),
            MotorController::Smooth(c) => c.poll(est, dst),
        }
    }
}

/// The input aiming at a target acceleration yields it within 8 µm/s² of
/// rounding, where the voltage is representable.
pub proof fn lemma_target_reached(esp: ElevatorSpecification, t: int)
    requires
        esp.wf(),
        abs((t + GRAVITY) * esp.carriage_weight) <= 8 * i64::MAX,
    ensures
        t - 8 <= motor_acceleration(esp, input_for(esp, t)) <= t + 8,
{
    let m = esp.carriage_weight as int;
    let g = GRAVITY as int;
    let lift = t + g;
    let p = lift * m;
    let a = motor_acceleration(esp, input_for(esp, t));
    if p >= 0 {
        let v = p / 8;
        assert(target_voltage(esp, t) == v);
        assert(8 * v <= p < 8 * v + 8);
        assert(input_for(esp, t).net() == v);
        let q = (v * 8) / m;
        assert(a == -g + q);
        assert(q * m <= 8 * v < (q + 1) * m) by (nonlinear_arith)
            requires
                q == (v * 8) / m,
                m > 0,
                v >= 0,
        ;
        assert(q <= lift) by (nonlinear_arith)
            requires
                q * m <= 8 * v,
                8 * v <= p,
                p == lift * m,
                m > 0,
        ;
        assert(q >= lift - 8) by (nonlinear_arith)
            requires
                8 * v < (q + 1) * m,
                p < 8 * v + 8,
                p == lift * m,
                m >= 1,
        ;
    } else {
        let w = -p;
        let u = w / 8;
        assert(target_voltage(esp, t) == -u);
        assert(8 * u <= w < 8 * u + 8);
        assert(input_for(esp, t).net() == -u);
        let q = (u * 8) / m;
        assert(div_toward_zero(-u * MOTOR_GAIN, m) == -q);
        assert(a == -g - q);
        assert(q * m <= 8 * u < (q + 1) * m) by (nonlinear_arith)
            requires
                q == (u * 8) / m,
                m > 0,
                u >= 0,
        ;
        assert(q <= -lift) by (nonlinear_arith)
            requires
                q * m <= 8 * u,
                8 * u <= w,
                w == -(lift * m),
                m > 0,
        ;
        assert(q >= -lift - 8) by (nonlinear_arith)
            requires
                8 * u < (q + 1) * m,
                w < 8 * u + 8,
                w == -(lift * m),
                m >= 1,
        ;
    }
}

/// Below free fall's magnitude the rounding only ever loses acceleration:
/// the result lies within 8 µm/s² under the target.
pub proof fn lemma_target_reached_from_above(esp: ElevatorSpecification, t: int)
    requires
        esp.wf(),
        t + GRAVITY > 0,
        abs((t + GRAVITY) * esp.carriage_weight) <= 8 * i64::MAX,
    ensures
        t - 8 <= motor_acceleration(esp, input_for(esp, t)) <= t,
{
    lemma_target_reached(esp, t);
    let m = esp.carriage_weight as int;
    let lift = t + GRAVITY;
    assert(lift * m > 0) by (nonlinear_arith)
        requires
            lift > 0,
            m > 0,
    ;
    let v = (lift * m) / 8;
    let q = (v * 8) / m;
    assert(input_for(esp, t).net() == v);
    assert(q * m <= 8 * v) by (nonlinear_arith)
        requires
            q == (v * 8) / m,
            m > 0,
            v >= 0,
    ;
    assert(q <= lift) by (nonlinear_arith)
        requires
            q * m <= 8 * v,
            8 * v <= lift * m,
            m > 0,
    ;
}

/// Whatever the state and the destination, both controllers give a motor
/// input whose voltage is a non-negative `i64`.
pub proof fn controller_voltage_nonnegative(controller: MotorController, est: ElevatorState, dst: u64)
    ensures
        controller.response(est, dst).wf(),
{
}

} // verus!
