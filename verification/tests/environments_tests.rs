use snap_out::environments::All;
use snap_out::environments::DetectError;
use snap_out::process::MockProcess;
use snap_out::snapshot::Snapshot;
use snap_out::variable::Variable;
use snap_out::varmap::VarMap;

fn b(s: &str) -> Vec<u8> {
    s.as_bytes().to_vec()
}

fn snapshot(pairs: &[(&str, &str)]) -> Snapshot {
    let mut s = Snapshot::new();
    for (key, val) in pairs {
        s.insert(b(key), b(val));
    }
    s
}

fn mock(envs: &[&[(&str, &str)]]) -> MockProcess {
    MockProcess::new(envs.iter().map(|pairs| snapshot(pairs)).collect())
}

fn assert_maps_to(map: &Snapshot, key: &str, val: Option<&str>) {
    assert_eq!(map.get(&b(key)), val.map(|v| b(v)).as_ref());
}

#[test]
fn detects_correctly_when_at_snap_boundry() {
    let process = mock(&[
        &[("USER", "alice"), ("OUTSIDE", "1")],
        &[("USER", "alice"), ("SNAP", "/snap"), ("INSIDE", "2")],
    ]);
    let result = All::detect(process);
    if let Ok(envs) = result {
        assert_maps_to(envs.external(), "OUTSIDE", Some("1"));
        assert_maps_to(envs.external(), "INSIDE", None);

        assert_maps_to(envs.snap(), "OUTSIDE", None);
        assert_maps_to(envs.snap(), "INSIDE", Some("2"));

        assert_maps_to(envs.myself(), "OUTSIDE", None);
        assert_maps_to(envs.myself(), "INSIDE", Some("2"));
    } else {
        assert!(false);
    }
}

#[test]
fn detects_correctly_when_multiple_layers_in_snap() {
    let process = mock(&[
        &[("USER", "alice")],
        &[("USER", "alice"), ("OUTSIDE", "1")],
        &[("USER", "alice"), ("SNAP", "/snap"), ("EDGE", "2")],
        &[("USER", "alice"), ("SNAP", "/snap")],
        &[("USER", "alice"), ("SNAP", "/snap"), ("MYSELF", "3")],
    ]);
    let result = All::detect(process);
    if let Ok(envs) = result {
        assert_maps_to(envs.external(), "OUTSIDE", Some("1"));
        assert_maps_to(envs.snap(), "EDGE", Some("2"));
        assert_maps_to(envs.myself(), "MYSELF", Some("3"));
    } else {
        assert!(false);
    }
}

#[test]
fn errors_when_not_in_snap() {
    let process = mock(&[
        &[("USER", "alice")],
        &[("USER", "alice"), ("DISPLAY", ":0")],
    ]);
    let result = All::detect(process);
    if let Ok(result) = result {
        panic!("Should have detected it was not in the snap: {:#?}", result)
    }
}

#[test]
fn errors_when_cant_escape_snap() {
    let process = mock(&[
        &[("USER", "alice"), ("SNAP", "/snap")],
        &[("USER", "alice"), ("DISPLAY", ":0"), ("SNAP", "/snap")],
    ]);
    let result = All::detect(process);
    if let Ok(result) = result {
        panic!(
            "Should have been unable to find the edge of the snap: {:#?}",
            result
        )
    }
}

#[test]
fn not_inside_sandbox_variant_when_first_snapshot_lacks_sentinel() {
    let process = mock(&[
        &[("USER", "alice")],
        &[("USER", "alice"), ("DISPLAY", ":0")],
    ]);
    assert_eq!(All::detect(process), Err(DetectError::NotInsideSandbox));
}

#[test]
fn boundary_not_found_variant_carries_visited_pids() {
    let process = mock(&[
        &[("USER", "alice"), ("SNAP", "/snap")],
        &[("USER", "alice"), ("DISPLAY", ":0"), ("SNAP", "/snap")],
    ]);
    match All::detect(process) {
        Err(DetectError::BoundaryNotFound(pids)) => assert_eq!(pids, vec![1, 1]),
        other => panic!("expected BoundaryNotFound, got {:#?}", other),
    }
}

fn mock_all(
    external: &[(&str, &str)],
    snap: &[(&str, &str)],
    myself: &[(&str, &str)],
) -> All {
    All::from_snapshots(snapshot(external), snapshot(snap), snapshot(myself))
}

struct MockVariable {
    name: &'static str,
    external: Option<&'static str>,
    snap: Option<&'static str>,
    myself: Option<&'static str>,
}

fn assert_consolidates_to(vars: &VarMap, expected: Vec<MockVariable>) {
    assert_eq!(vars.num_entries(), expected.len());
    for e in expected {
        let var = Variable::new(
            e.external.map(|s| b(s)),
            e.snap.map(|s| b(s)),
            e.myself.map(|s| b(s)),
        );
        assert_eq!(vars.get(&b(e.name)), Some(&var));
    }
}

#[test]
fn consolidates_single_variable() {
    let envs = mock_all(
        &[("FOO", "external")],
        &[("FOO", "snap")],
        &[("FOO", "myself")],
    );
    assert_consolidates_to(
        &envs.consolidate(),
        vec![MockVariable {
            name: "FOO",
            external: Some("external"),
            snap: Some("snap"),
            myself: Some("myself"),
        }],
    );
}

#[test]
fn consolidates_varibale_only_in_one_env() {
    let envs = mock_all(&[("FOO", "external")], &[("BAR", "snap")], &[("BAZ", "myself")]);
    assert_consolidates_to(
        &envs.consolidate(),
        vec![
            MockVariable {
                name: "FOO",
                external: Some("external"),
                snap: None,
                myself: None,
            },
            MockVariable {
                name: "BAR",
                external: None,
                snap: Some("snap"),
                myself: None,
            },
            MockVariable {
                name: "BAZ",
                external: None,
                snap: None,
                myself: Some("myself"),
            },
        ],
    );
}

#[test]
fn consolidates_multiple_variables() {
    let envs = mock_all(&[("FOO", "1"), ("BAR", "1")], &[("FOO", "1")], &[("BAR", "2")]);
    assert_consolidates_to(
        &envs.consolidate(),
        vec![
            MockVariable {
                name: "FOO",
                external: Some("1"),
                snap: Some("1"),
                myself: None,
            },
            MockVariable {
                name: "BAR",
                external: Some("1"),
                snap: None,
                myself: Some("2"),
            },
        ],
    );
}

#[test]
fn consolidated_names_stay_within_the_three_environments() {
    let envs = mock_all(
        &[("FOO", "1"), ("SAME", "x")],
        &[("BAR", "2"), ("SAME", "x")],
        &[("BAZ", "3"), ("SAME", "x")],
    );
    let vars = envs.consolidate();
    let changes = vars.required_changes();
    let union = ["FOO", "BAR", "BAZ", "SAME"];
    for (name, _) in &changes {
        let name = String::from_utf8(name.clone()).unwrap();
        assert!(union.contains(&name.as_str()));
    }
    // A name bound identically in all three environments needs no change.
    assert!(!changes.iter().any(|(name, _)| name == &b("SAME")));
}

#[test]
fn identical_environments_need_no_changes() {
    let env = &[("USER", "alice"), ("HOME", "/home/alice")];
    let envs = mock_all(env, env, env);
    let changes = envs.consolidate().required_changes();
    assert!(changes.is_empty());
}
