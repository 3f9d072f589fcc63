use snap_out::variable::Variable;

fn b(s: &str) -> Vec<u8> {
    s.as_bytes().to_vec()
}

#[test]
fn clears_variable_set_in_snap() {
    assert_eq!(
        Variable::new(None, Some(b("foo")), Some(b("foo"))).get_child_value(),
        None
    );
}

#[test]
fn leaves_variable_set_in_myself() {
    assert_eq!(
        Variable::new(None, None, Some(b("foo"))).get_child_value(),
        Some(b("foo"))
    );
}

#[test]
fn leaves_variable_always_set() {
    assert_eq!(
        Variable::new(Some(b("foo")), Some(b("foo")), Some(b("foo"))).get_child_value(),
        Some(b("foo"))
    );
}

#[test]
fn restores_variable_cleared_in_snap() {
    assert_eq!(
        Variable::new(Some(b("foo")), None, None).get_child_value(),
        Some(b("foo"))
    );
}

#[test]
fn restores_variable_changed_in_snap() {
    assert_eq!(
        Variable::new(Some(b("foo")), Some(b("bar")), Some(b("bar"))).get_child_value(),
        Some(b("foo"))
    );
}

#[test]
fn leaves_variable_changed_in_snap_then_again_in_myself() {
    assert_eq!(
        Variable::new(Some(b("foo")), Some(b("bar")), Some(b("baz"))).get_child_value(),
        Some(b("baz"))
    );
}

#[test]
fn leaves_variable_set_in_snap_then_changed_in_myself() {
    assert_eq!(
        Variable::new(None, Some(b("bar")), Some(b("baz"))).get_child_value(),
        Some(b("baz"))
    );
}

#[test]
fn leaves_variable_changed_in_snap_then_cleared_in_myself() {
    assert_eq!(
        Variable::new(Some(b("foo")), Some(b("bar")), None).get_child_value(),
        None
    );
}

#[test]
fn leaves_variable_set_in_snap_then_cleared_in_myself() {
    assert_eq!(
        Variable::new(None, Some(b("bar")), None).get_child_value(),
        None
    );
}

#[test]
fn detects_no_required_change_to_value() {
    assert_eq!(
        Variable::new(None, None, Some(b("foo"))).get_change_to(Some(b("foo"))),
        None
    );
    assert_eq!(
        Variable::new(Some(b("foo")), Some(b("foo")), Some(b("foo")))
            .get_change_to(Some(b("foo"))),
        None
    );
    assert_eq!(
        Variable::new(Some(b("bar")), Some(b("baz")), Some(b("foo")))
            .get_change_to(Some(b("foo"))),
        None
    );
}

#[test]
fn detects_no_required_change_to_empty() {
    assert_eq!(
        Variable::new(Some(b("bar")), Some(b("baz")), None).get_change_to(None),
        None
    );
    assert_eq!(Variable::new(None, None, None).get_change_to(None), None);
}

#[test]
fn detects_required_clear() {
    assert_eq!(
        Variable::new(Some(b("bar")), Some(b("baz")), Some(b("foo"))).get_change_to(None),
        Some(None)
    );
    assert_eq!(
        Variable::new(None, None, Some(b(""))).get_change_to(None),
        Some(None)
    );
}

#[test]
fn detects_required_change_to_value() {
    assert_eq!(
        Variable::new(Some(b("f0o")), Some(b("foo")), Some(b("foo")))
            .get_change_to(Some(b("bar"))),
        Some(Some(b("bar")))
    );
    assert_eq!(
        Variable::new(None, None, Some(b("foo"))).get_change_to(Some(b("bar"))),
        Some(Some(b("bar")))
    );
    assert_eq!(
        Variable::new(None, None, None).get_change_to(Some(b("bar"))),
        Some(Some(b("bar")))
    );
}
