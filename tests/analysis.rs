use elevator::analyze::{analyze, AnalysisError, Bound};
use elevator::physics::{ElevatorSpecification, ElevatorState};

fn esp() -> ElevatorSpecification {
    ElevatorSpecification { floor_count: 5, floor_height: 3_000_000, carriage_weight: 1_200_000 }
}

fn at(timestamp: i64, location: i64, velocity: i64, acceleration: i64) -> ElevatorState {
    ElevatorState { timestamp, location, velocity, acceleration }
}

#[test]
fn time_going_backwards_is_refused() {
    let log = vec![(at(20_000, 0, 0, 0), 1), (at(10_000, 0, 0, 0), 1)];
    assert_eq!(analyze(&esp(), &log), Err(AnalysisError::NonMonotonicTime { index: 1 }));
}

#[test]
fn repeated_timestamp_is_refused() {
    let log = vec![(at(10_000, 0, 0, 0), 1), (at(10_000, 0, 0, 0), 1)];
    assert_eq!(analyze(&esp(), &log), Err(AnalysisError::NonMonotonicTime { index: 1 }));
}

#[test]
fn excessive_acceleration_is_reported() {
    let log = vec![(at(10_000, 0, 0, 0), 1), (at(20_000, 0, 0, 2_500_000), 1), (at(30_000, 0, 0, 0), 1)];
    assert_eq!(
        analyze(&esp(), &log),
        Err(AnalysisError::BoundViolated { bound: Bound::Acceleration, index: 1 })
    );
}

#[test]
fn excessive_velocity_is_reported() {
    let log = vec![(at(10_000, 0, 6_000_000, 0), 1)];
    assert_eq!(analyze(&esp(), &log), Err(AnalysisError::BoundViolated { bound: Bound::Velocity, index: 0 }));
}

#[test]
fn single_acceleration_step_passes_the_jerk_filter() {
    // |Δa|·dt = 2 m/s² · 0.01 s gives an estimate of 0.02.
    let log = vec![(at(10_000, 3_000_000, 0, 1_000_000), 1), (at(20_000, 3_000_000, 0, -1_000_000), 1)];
    assert_eq!(analyze(&esp(), &log), Ok(()));
}

#[test]
fn chattering_acceleration_trips_the_jerk_filter() {
    let mut log = Vec::new();
    for k in 0..40i64 {
        let a = if k % 2 == 0 { 1_000_000 } else { -1_000_000 };
        log.push((at(10_000 * (k + 1), 3_000_000, 0, a), 1));
    }
    // Each tick adds |Δa|·dt = 2 m/s² · 0.01 s; the estimate passes 0.22 on the 12th change.
    assert_eq!(analyze(&esp(), &log), Err(AnalysisError::BoundViolated { bound: Bound::Jerk, index: 12 }));
}

#[test]
fn steady_jerk_at_the_comfort_bound_passes_the_filter() {
    // 0.2 m/s³ held for 2 s.
    let log: Vec<_> = (0..200i64).map(|k| (at(10_000 * (k + 1), 0, 1, 2_000 * k), 1)).collect();
    assert_eq!(analyze(&esp(), &log), Ok(()));
}

#[test]
fn unknown_floor_is_malformed() {
    let log = vec![(at(10_000, 0, 0, 0), 6)];
    assert_eq!(analyze(&esp(), &log), Err(AnalysisError::InputMalformed { index: 0 }));
    let log = vec![(at(10_000, 0, 0, 0), 0)];
    assert_eq!(analyze(&esp(), &log), Err(AnalysisError::InputMalformed { index: 0 }));
}

#[test]
fn backing_up_is_inefficient() {
    // Heading for floor 1 (3 m): 5 s up, then 1 s down.
    let mut log = vec![(at(0, 0, 0, 0), 1)];
    for k in 1..=500i64 {
        log.push((at(10_000 * k, 0, 1_000, 0), 1));
    }
    for k in 501..=600i64 {
        log.push((at(10_000 * k, 3_000_000, -1_000, 0), 1));
    }
    assert_eq!(
        analyze(&esp(), &log),
        Err(AnalysisError::BoundViolated { bound: Bound::Efficiency, index: 601 })
    );
}

#[test]
fn slow_runs_break_the_duration_bound() {
    // A 3 m trip may take 1.2 · (20.2 + 0.6) s = 24.96 s.
    let ok = vec![(at(0, 0, 0, 0), 1), (at(24_960_000, 3_000_000, 1, 0), 1)];
    assert_eq!(analyze(&esp(), &ok), Ok(()));
    let slow = vec![(at(0, 0, 0, 0), 1), (at(24_960_001, 3_000_000, 1, 0), 1)];
    assert_eq!(analyze(&esp(), &slow), Err(AnalysisError::BoundViolated { bound: Bound::Duration, index: 2 }));
}
