use snap_out::snapshot::Snapshot;

fn b(s: &str) -> Vec<u8> {
    s.as_bytes().to_vec()
}

#[test]
fn empty_snapshot_has_no_entries() {
    let s = Snapshot::new();
    assert_eq!(s.num_entries(), 0);
    assert!(!s.contains_key(&b("PATH")));
    assert_eq!(s.get(&b("PATH")), None);
}

#[test]
fn insert_then_get_returns_the_value() {
    let mut s = Snapshot::new();
    s.insert(b("PATH"), b("/bin"));
    s.insert(b("HOME"), b("/root"));
    assert_eq!(s.num_entries(), 2);
    assert!(s.contains_key(&b("PATH")));
    assert_eq!(s.get(&b("PATH")), Some(&b("/bin")));
    assert_eq!(s.get(&b("HOME")), Some(&b("/root")));
    assert_eq!(s.get(&b("USER")), None);
}

#[test]
fn inserting_an_existing_name_replaces_its_value() {
    let mut s = Snapshot::new();
    s.insert(b("PATH"), b("/bin"));
    s.insert(b("PATH"), b("/usr/bin"));
    assert_eq!(s.num_entries(), 1);
    assert_eq!(s.get(&b("PATH")), Some(&b("/usr/bin")));
}

#[test]
fn duplicate_preserves_all_entries() {
    let mut s = Snapshot::new();
    s.insert(b("A"), b("1"));
    s.insert(b("B"), vec![0xFF, 0x00]);
    let copy = s.duplicate();
    assert_eq!(copy.num_entries(), 2);
    assert_eq!(copy.get(&b("A")), Some(&b("1")));
    assert_eq!(copy.get(&b("B")), Some(&vec![0xFF, 0x00]));
}

#[test]
fn names_and_values_may_hold_arbitrary_bytes() {
    let mut s = Snapshot::new();
    let name = vec![0xC0, 0x80];
    let value = vec![0x00, 0xFE];
    s.insert(name.clone(), value.clone());
    assert_eq!(s.get(&name), Some(&value));
}
