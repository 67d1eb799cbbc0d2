use elevator::session::Authenticate;

#[test]
fn guard_is_a_unit_value() {
    assert_eq!(Authenticate::new(), Authenticate);
}
