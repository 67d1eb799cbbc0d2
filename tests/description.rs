use elevator::input::{parse_description, InputError, CARRIAGE_WEIGHT};
use elevator::physics::ElevatorSpecification;

#[test]
fn reads_building_and_requests() {
    let (esp, requests) = parse_description(b"5\n3.0\n3\n5\n1\n").unwrap();
    assert_eq!(esp, ElevatorSpecification { floor_count: 5, floor_height: 3_000_000, carriage_weight: CARRIAGE_WEIGHT });
    assert_eq!(requests, vec![3, 5, 1]);
}

#[test]
fn reads_without_final_newline_and_without_requests() {
    let (esp, requests) = parse_description(b"12\n2.75").unwrap();
    assert_eq!(esp.floor_count, 12);
    assert_eq!(esp.floor_height, 2_750_000);
    assert!(requests.is_empty());
}

#[test]
fn decimal_forms() {
    assert_eq!(parse_description(b"2\n4\n").unwrap().0.floor_height, 4_000_000);
    assert_eq!(parse_description(b"2\n.5\n").unwrap().0.floor_height, 500_000);
    assert_eq!(parse_description(b"2\n3.\n").unwrap().0.floor_height, 3_000_000);
    assert_eq!(parse_description(b"2\n0.12345678\n").unwrap().0.floor_height, 123_456);
}

#[test]
fn missing_lines() {
    assert_eq!(parse_description(b""), Err(InputError::MissingLines));
    assert_eq!(parse_description(b"5\n"), Err(InputError::MissingLines));
}

#[test]
fn malformed_lines() {
    assert_eq!(parse_description(b"five\n3.0\n"), Err(InputError::Malformed { line: 0 }));
    assert_eq!(parse_description(b"\n3.0\n"), Err(InputError::Malformed { line: 0 }));
    assert_eq!(parse_description(b"5\n3,0\n"), Err(InputError::Malformed { line: 1 }));
    assert_eq!(parse_description(b"5\n.\n"), Err(InputError::Malformed { line: 1 }));
    assert_eq!(parse_description(b"5\n99999999999999\n"), Err(InputError::Malformed { line: 1 }));
    assert_eq!(parse_description(b"5\n3.0\n2\nx\n9\n"), Err(InputError::Malformed { line: 3 }));
    assert_eq!(parse_description(b"5\n3.0\n2\n6\n"), Err(InputError::Malformed { line: 3 }));
    assert_eq!(parse_description(b"5\n3.0\n0\n"), Err(InputError::Malformed { line: 2 }));
    assert_eq!(parse_description(b"99999999999999999999\n3.0\n"), Err(InputError::Malformed { line: 0 }));
}

#[test]
fn blank_trailing_line_is_an_error() {
    assert_eq!(parse_description(b"5\n3.0\n2\n\n"), Err(InputError::Malformed { line: 3 }));
}

#[test]
fn unusable_buildings() {
    assert_eq!(parse_description(b"0\n3.0\n"), Err(InputError::BadBuilding));
    assert_eq!(parse_description(b"5\n0.0\n"), Err(InputError::BadBuilding));
    assert_eq!(parse_description(b"9223372036854775807\n2\n"), Err(InputError::BadBuilding));
}

#[test]
fn carriage_returns_end_lines_too() {
    let (esp, requests) = parse_description(b"5\r\n3.0\r\n3\r\n1\r\n").unwrap();
    assert_eq!(esp.floor_height, 3_000_000);
    assert_eq!(requests, vec![3, 1]);
    assert_eq!(parse_description(b"5\r\n3.0\r\n2\r\n\r\n"), Err(InputError::Malformed { line: 3 }));
}
