use snap_out::environments::DetectError;
use snap_out::manager::Manager;
use snap_out::options::Parsed;
use snap_out::process::MockProcess;
use snap_out::snapshot::Snapshot;

fn b(s: &str) -> Vec<u8> {
    s.as_bytes().to_vec()
}

fn snapshot(pairs: &[(&str, &str)]) -> Snapshot {
    let mut s = Snapshot::new();
    for (key, val) in pairs {
        s.insert(b(key), b(val));
    }
    s
}

fn mock(envs: &[&[(&str, &str)]]) -> MockProcess {
    MockProcess::new(envs.iter().map(|pairs| snapshot(pairs)).collect())
}

fn sandboxed_chain() -> MockProcess {
    mock(&[
        &[("USER", "alice"), ("OUTSIDE", "1")],
        &[("USER", "alice"), ("SNAP", "/snap"), ("INJECTED", "by-snap")],
        &[("USER", "alice"), ("SNAP", "/snap"), ("INJECTED", "by-snap"), ("MINE", "kept")],
    ])
}

#[test]
fn manager_returns_its_options() {
    let manager = Manager::new(Parsed::ShowScript, sandboxed_chain());
    assert_eq!(*manager.get_options(), Parsed::ShowScript);
}

#[test]
fn manager_detects_environments() {
    let mut manager = Manager::new(Parsed::ShowScript, sandboxed_chain());
    let envs = manager.get_environments_lazy().as_ref().unwrap();
    assert_eq!(envs.external().get(&b("OUTSIDE")), Some(&b("1")));
    assert_eq!(envs.myself().get(&b("MINE")), Some(&b("kept")));
}

#[test]
fn manager_computes_changes() {
    let mut manager = Manager::new(Parsed::ShowScript, sandboxed_chain());
    let changes = manager.get_variables_to_change_lazy().unwrap().clone();
    // SNAP and INJECTED came from the sandbox and must be cleared; OUTSIDE
    // must be restored; USER is unchanged and MINE is the user's own.
    assert_eq!(changes.len(), 3);
    assert!(changes.contains(&(b("SNAP"), None)));
    assert!(changes.contains(&(b("INJECTED"), None)));
    assert!(changes.contains(&(b("OUTSIDE"), Some(b("1")))));
}

#[test]
fn manager_renders_setup_script() {
    let mut manager = Manager::new(Parsed::ShowScript, sandboxed_chain());
    let script = manager.get_setup_script_lazy().unwrap();
    let text = String::from_utf8(script.text.clone()).unwrap();
    assert_eq!(text.matches('\n').count(), 3);
    assert!(text.contains("export OUTSIDE=1\n"));
    assert!(text.contains("unset SNAP\n"));
    assert!(text.contains("unset INJECTED\n"));
    assert!(!text.contains("USER"));
    assert!(!text.contains("MINE"));
    // Exports come before unsets.
    assert!(text.find("export").unwrap() < text.find("unset").unwrap());
    assert!(script.skipped.is_empty());
}

#[test]
fn manager_caches_detection() {
    let mut manager = Manager::new(Parsed::ShowScript, sandboxed_chain());
    let first = manager.get_environments_lazy().is_ok();
    let second = manager.get_environments_lazy().is_ok();
    assert!(first && second);
    let one = manager.get_setup_script_lazy().unwrap().text.clone();
    let two = manager.get_setup_script_lazy().unwrap().text.clone();
    assert_eq!(one, two);
}

#[test]
fn manager_propagates_detection_failure() {
    let outside = mock(&[&[("USER", "alice")]]);
    let mut manager = Manager::new(Parsed::ShowScript, outside);
    assert_eq!(
        *manager.get_environments_lazy(),
        Err(DetectError::NotInsideSandbox)
    );
    assert_eq!(
        manager.get_variables_lazy().err(),
        Some(&DetectError::NotInsideSandbox)
    );
    assert_eq!(
        manager.get_variables_to_change_lazy().err(),
        Some(&DetectError::NotInsideSandbox)
    );
    assert_eq!(
        manager.get_setup_script_lazy().err(),
        Some(&DetectError::NotInsideSandbox)
    );
}
