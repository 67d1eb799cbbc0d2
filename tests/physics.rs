use elevator::motor::{MotorController, SimpleMotorController, SmoothMotorController};
use elevator::physics::{simulate_elevator, try_simulate_elevator, ElevatorSpecification, ElevatorState, MotorInput};

fn spec(mass: i64) -> ElevatorSpecification {
    ElevatorSpecification { floor_count: 5, floor_height: 3_000_000, carriage_weight: mass }
}

#[test]
fn hovering_input_cancels_gravity() {
    // 1.5e6 kg held by 1.5e6 · 9.8 / 8 V, over 0.1 s.
    let esp = spec(1_500_000);
    let input = MotorInput::Up { voltage: 1_837_500_000_000 };
    let next = simulate_elevator(&esp, ElevatorState::initial(), input, 100_000);
    assert_eq!(next.acceleration, 0);
    assert_eq!(next.velocity, 0);
    assert_eq!(next.location, 0);
    assert_eq!(next.timestamp, 100_000);
}

#[test]
fn euler_steps_follow_the_equations() {
    let esp = spec(1_200_000);
    let est = ElevatorState { timestamp: 5_000, location: 1_000_000, velocity: 2_000_000, acceleration: -500_000 };
    let next = simulate_elevator(&esp, est, MotorInput::Down { voltage: 1_200_000 }, 10_000);
    assert_eq!(next.timestamp, 15_000);
    assert_eq!(next.location, 1_000_000 + 20_000);
    assert_eq!(next.velocity, 2_000_000 - 5_000);
    // -9.8 m/s² - 1.2 V · 8 N/V / 1.2e6 kg = -9.8 m/s² - 8 µm/s²
    assert_eq!(next.acceleration, -9_800_008);
    assert!(next.timestamp > est.timestamp);
    assert_eq!(simulate_elevator(&esp, est, MotorInput::Down { voltage: 1_200_000 }, 10_000), next);
}

#[test]
fn negative_products_round_toward_zero() {
    let esp = spec(1_200_000);
    let est = ElevatorState { timestamp: 0, location: 0, velocity: -3, acceleration: -7 };
    let next = simulate_elevator(&esp, est, MotorInput::Up { voltage: 0 }, 100_000);
    assert_eq!(next.location, 0);
    assert_eq!(next.velocity, -3);
    assert_eq!(next.acceleration, -9_800_000);
}

#[test]
fn unrepresentable_steps_are_refused() {
    let esp = spec(1_200_000);
    let est = ElevatorState { timestamp: i64::MAX - 5, location: 0, velocity: 0, acceleration: 0 };
    assert_eq!(try_simulate_elevator(&esp, est, MotorInput::Up { voltage: 0 }, 10), None);
    assert!(try_simulate_elevator(&esp, est, MotorInput::Up { voltage: 0 }, 5).is_some());
}

#[test]
fn bang_bang_accelerates_toward_the_destination() {
    let esp = spec(1_200_000);
    let controller = SimpleMotorController::new(esp);
    // (1 + 9.8) m/s² · 1.2e6 kg / 8 N/V = 1.62e6 V
    assert_eq!(controller.poll(ElevatorState::initial(), 3), MotorInput::Up { voltage: 1_620_000_000_000 });
    let above = ElevatorState { timestamp: 0, location: 12_000_000, velocity: 0, acceleration: 0 };
    // (-1 + 9.8) · 1.2e6 / 8 = 1.32e6 V
    assert_eq!(controller.poll(above, 3), MotorInput::Up { voltage: 1_320_000_000_000 });
}

#[test]
fn bang_bang_brakes_inside_the_stopping_distance() {
    let esp = spec(1_200_000);
    let controller = SimpleMotorController::new(esp);
    // 2 m/s needs 2 m to stop at 1 m/s²; 1 m is left.
    let est = ElevatorState { timestamp: 0, location: 8_000_000, velocity: 2_000_000, acceleration: 0 };
    assert_eq!(controller.poll(est, 3), MotorInput::Up { voltage: 1_320_000_000_000 });
    // At top speed and moving the right way, it coasts.
    let fast = ElevatorState { timestamp: 0, location: 0, velocity: 5_000_000, acceleration: 0 };
    assert_eq!(controller.poll(fast, 5), MotorInput::Up { voltage: 1_470_000_000_000 });
}

#[test]
fn smooth_nudges_acceleration_by_the_jerk_budget() {
    let esp = spec(1_200_000);
    let mut controller = SmoothMotorController::new(esp);
    controller.init(esp, ElevatorState::initial());
    let est = ElevatorState { timestamp: 10_000, location: 0, velocity: 0, acceleration: 0 };
    // 0.01 s · 0.2 m/s³ = 2000 µm/s²; (0.002 + 9.8) · 1.2e6 / 8
    assert_eq!(controller.poll(est, 3), MotorInput::Up { voltage: 1_470_300_000_000 });
    assert_eq!(controller.timestamp, 10_000);
    // Past the acceleration bound it eases off.
    let hard = ElevatorState { timestamp: 20_000, location: 0, velocity: 0, acceleration: 2_500_000 };
    assert_eq!(controller.poll(hard, 3), MotorInput::Up { voltage: (2_498_000 + 9_800_000) / 8 * 1_200_000 });
}

#[test]
fn controllers_never_give_negative_voltage() {
    let esp = spec(1_200_000);
    let states = [
        ElevatorState { timestamp: 0, location: 0, velocity: 0, acceleration: 0 },
        ElevatorState { timestamp: 7, location: -50_000_000, velocity: -6_000_000, acceleration: -30_000_000 },
        ElevatorState { timestamp: i64::MAX, location: i64::MAX, velocity: i64::MIN, acceleration: i64::MIN },
        ElevatorState { timestamp: i64::MIN, location: i64::MIN, velocity: i64::MAX, acceleration: i64::MAX },
    ];
    for est in states {
        for dst in [0u64, 1, 5, u64::MAX] {
            let mut both = [
                MotorController::BangBang(SimpleMotorController::new(esp)),
                MotorController::Smooth(SmoothMotorController::new(esp)),
            ];
            for c in both.iter_mut() {
                match c.poll(est, dst) {
                    MotorInput::Up { voltage } | MotorInput::Down { voltage } => assert!(voltage >= 0),
                }
            }
        }
    }
}

#[test]
fn heavy_carriage_voltage_out_of_range_gives_no_drive() {
    let esp = ElevatorSpecification { floor_count: 1, floor_height: 1, carriage_weight: i64::MAX };
    let controller = SimpleMotorController::new(esp);
    assert_eq!(controller.poll(ElevatorState::initial(), 1), MotorInput::Up { voltage: 0 });
}
