use elevator::analyze::{analyze, AnalysisError, Bound};
use elevator::driver::{Simulation, SimulationError};
use elevator::motor::{MotorController, SimpleMotorController, SmoothMotorController};
use elevator::physics::{ElevatorSpecification, ElevatorState};

const TICK: i64 = 10_000;

fn building() -> ElevatorSpecification {
    ElevatorSpecification { floor_count: 5, floor_height: 3_000_000, carriage_weight: 1_200_000 }
}

fn smooth(esp: ElevatorSpecification) -> MotorController {
    MotorController::Smooth(SmoothMotorController::new(esp))
}

fn bang_bang(esp: ElevatorSpecification) -> MotorController {
    MotorController::BangBang(SimpleMotorController::new(esp))
}

fn run(esp: ElevatorSpecification, requests: Vec<u64>, controller: MotorController, max_ticks: usize) -> (Vec<(ElevatorState, u64)>, Simulation) {
    let mut sim = Simulation::new(esp, requests, controller);
    let mut log = Vec::new();
    while !sim.is_finished() && log.len() < max_ticks {
        log.push(sim.step(TICK).expect("state in range"));
    }
    (log, sim)
}

#[test]
fn smooth_single_trip_passes() {
    let esp = building();
    let (log, sim) = run(esp, vec![3], smooth(esp), 1_000_000);
    assert!(sim.is_finished());
    let last = log.last().unwrap().0;
    println!("ticks {} t {}", log.len(), last.timestamp);
    assert!(last.timestamp <= 40_000_000);
    assert_eq!(analyze(&esp, &log), Ok(()));
}

#[test]
fn smooth_back_and_forth_passes() {
    let esp = building();
    let (log, sim) = run(esp, vec![5, 1, 5, 1], smooth(esp), 1_000_000);
    assert!(sim.is_finished());
    assert_eq!(analyze(&esp, &log), Ok(()));
}

#[test]
fn bang_bang_single_trip_breaks_a_bound() {
    // The bang-bang controller brakes late and overshoots the landing; the
    // way back costs more than a tenth of the run. Its few switches of
    // acceleration leave the filtered jerk estimate near 0.02 m/s³.
    let esp = building();
    let (log, sim) = run(esp, vec![3], bang_bang(esp), 1_000_000);
    assert!(sim.is_finished());
    assert_eq!(
        analyze(&esp, &log),
        Err(AnalysisError::BoundViolated { bound: Bound::Efficiency, index: log.len() })
    );
}

#[test]
fn runs_end_at_rest_on_the_last_floor() {
    let esp = building();
    for requests in [vec![3], vec![5, 1, 5, 1], vec![2, 4]] {
        for controller in [smooth(esp), bang_bang(esp)] {
            let last = *requests.last().unwrap();
            let (log, sim) = run(esp, requests.clone(), controller, 1_000_000);
            assert!(sim.is_finished());
            assert_eq!(sim.state.velocity, 0);
            assert!((sim.state.location - last as i64 * esp.floor_height).abs() < 10_000);
            assert_eq!(log.last().unwrap().1, last);
        }
    }
}

#[test]
fn logs_keep_time_order_and_destinations() {
    let esp = building();
    for controller in [smooth(esp), bang_bang(esp)] {
        let (log, _) = run(esp, vec![4, 2], controller, 1_000_000);
        for pair in log.windows(2) {
            assert!(pair[0].0.timestamp < pair[1].0.timestamp);
        }
        assert!(log.iter().all(|r| r.1 == 4 || r.1 == 2));
        match analyze(&esp, &log) {
            Ok(()) | Err(AnalysisError::BoundViolated { .. }) => {}
            other => panic!("unexpected verdict {:?}", other),
        }
    }
}

#[test]
fn smooth_run_stays_within_bounds_every_tick() {
    let esp = building();
    let (log, _) = run(esp, vec![5, 1, 3], smooth(esp), 1_000_000);
    for (est, _) in &log {
        assert!(est.acceleration.abs() <= 2_200_000);
        assert!(est.velocity.abs() <= 5_500_000);
    }
    assert_eq!(analyze(&esp, &log), Ok(()));
}

#[test]
fn bang_bang_run_stays_within_speed_bounds_every_tick() {
    let esp = building();
    let (log, _) = run(esp, vec![5, 1, 3], bang_bang(esp), 1_000_000);
    for (est, _) in &log {
        assert!(est.acceleration.abs() <= 2_200_000);
        assert!(est.velocity.abs() <= 5_500_000);
    }
}

#[test]
fn empty_queue_finishes_at_once() {
    let esp = building();
    let sim = Simulation::new(esp, vec![], smooth(esp));
    assert!(sim.is_finished());
    assert_eq!(sim.state, ElevatorState::initial());
    assert_eq!(analyze(&esp, &vec![]), Ok(()));
}

#[test]
fn step_reports_states_out_of_range() {
    let esp = building();
    let mut sim = Simulation::new(esp, vec![3], smooth(esp));
    sim.state.location = i64::MAX;
    sim.state.velocity = 1_000_000;
    let before = sim.state;
    assert_eq!(sim.step(TICK), Err(SimulationError::StateOutOfRange));
    assert_eq!(sim.state, before);
}

#[test]
fn smooth_run_changes_acceleration_gently() {
    let esp = building();
    let (log, _) = run(esp, vec![5, 2, 4], smooth(esp), 1_000_000);
    let mut prev = 0i64;
    for (est, _) in &log {
        assert!((est.acceleration - prev).abs() <= 2_008);
        assert!(est.acceleration.abs() <= 2_002_008);
        prev = est.acceleration;
    }
}
