use snap_out::process::{MockProcess, Process};
use snap_out::snapshot::Snapshot;

fn b(s: &str) -> Vec<u8> {
    s.as_bytes().to_vec()
}

fn snapshot(pairs: &[(&str, &str)]) -> Snapshot {
    let mut s = Snapshot::new();
    for (key, val) in pairs {
        s.insert(b(key), b(val));
    }
    s
}

#[test]
fn mock_process_reports_its_snapshot() {
    let process = MockProcess::new(vec![
        snapshot(&[("ROOT", "1")]),
        snapshot(&[("CHILD", "2")]),
    ]);
    assert_eq!(process.get_env().get(&b("CHILD")), Some(&b("2")));
    assert_eq!(process.get_pid(), 1);
}

#[test]
fn mock_process_walks_to_its_root() {
    let process = MockProcess::new(vec![
        snapshot(&[("ROOT", "1")]),
        snapshot(&[("CHILD", "2")]),
    ]);
    let parent = process.get_parent().unwrap().unwrap();
    assert_eq!(parent.get_env().get(&b("ROOT")), Some(&b("1")));
    assert!(parent.get_parent().unwrap().is_none());
}
