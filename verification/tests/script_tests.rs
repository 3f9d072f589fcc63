use snap_out::script::is_valid_utf8;
use snap_out::script::render_setup_script;

fn b(s: &str) -> Vec<u8> {
    s.as_bytes().to_vec()
}

#[test]
fn renders_exports_before_unsets() {
    let changes = vec![
        (b("CLEARED"), None),
        (b("FOO"), Some(b("bar"))),
        (b("ALSO_CLEARED"), None),
        (b("BAZ"), Some(b("qux"))),
    ];
    let script = render_setup_script(&changes);
    assert_eq!(
        script.text,
        b("export FOO=bar\nexport BAZ=qux\nunset CLEARED\nunset ALSO_CLEARED\n")
    );
    assert!(script.skipped.is_empty());
}

#[test]
fn renders_empty_script_for_empty_change_list() {
    let script = render_setup_script(&vec![]);
    assert_eq!(script.text, b(""));
    assert!(script.skipped.is_empty());
}

#[test]
fn skips_variable_with_invalid_name() {
    let changes = vec![(vec![0xFF, 0x41], Some(b("x"))), (b("OK"), Some(b("1")))];
    let script = render_setup_script(&changes);
    assert_eq!(script.text, b("export OK=1\n"));
    assert_eq!(script.skipped, vec![vec![0xFF, 0x41]]);
}

#[test]
fn skips_variable_with_invalid_value() {
    let changes = vec![(b("BAD"), Some(vec![0xC0, 0x80])), (b("GONE"), None)];
    let script = render_setup_script(&changes);
    assert_eq!(script.text, b("unset GONE\n"));
    assert_eq!(script.skipped, vec![b("BAD")]);
}

#[test]
fn clear_of_invalid_name_is_skipped() {
    let changes = vec![(vec![0x80], None)];
    let script = render_setup_script(&changes);
    assert_eq!(script.text, b(""));
    assert_eq!(script.skipped, vec![vec![0x80]]);
}

#[test]
fn accepts_valid_utf8() {
    assert!(is_valid_utf8(&b("plain ascii")));
    assert!(is_valid_utf8(&b("")));
    assert!(is_valid_utf8(&"héllo wörld".as_bytes().to_vec()));
    assert!(is_valid_utf8(&"\u{0800}\u{FFFD}\u{10FFFF}".as_bytes().to_vec()));
}

#[test]
fn rejects_invalid_utf8() {
    // Lone continuation byte.
    assert!(!is_valid_utf8(&vec![0x80]));
    // Overlong encodings.
    assert!(!is_valid_utf8(&vec![0xC0, 0x80]));
    assert!(!is_valid_utf8(&vec![0xE0, 0x80, 0x80]));
    assert!(!is_valid_utf8(&vec![0xF0, 0x80, 0x80, 0x80]));
    // Surrogate range.
    assert!(!is_valid_utf8(&vec![0xED, 0xA0, 0x80]));
    // Beyond the last scalar value.
    assert!(!is_valid_utf8(&vec![0xF4, 0x90, 0x80, 0x80]));
    // Truncated sequences.
    assert!(!is_valid_utf8(&vec![0xC3]));
    assert!(!is_valid_utf8(&vec![0xE2, 0x82]));
    // Stray leading byte outside any width.
    assert!(!is_valid_utf8(&vec![0xF8, 0x80, 0x80, 0x80, 0x80]));
}

#[test]
fn validity_matches_std(){
    let samples: Vec<Vec<u8>> = vec![
        b("ascii"),
        "é".as_bytes().to_vec(),
        vec![0xC2, 0x80],
        vec![0xC1, 0xBF],
        vec![0xED, 0x9F, 0xBF],
        vec![0xEE, 0x80, 0x80],
        vec![0xF4, 0x8F, 0xBF, 0xBF],
        vec![0xF5, 0x80, 0x80, 0x80],
        vec![0x41, 0xC3],
    ];
    for sample in samples {
        assert_eq!(
            is_valid_utf8(&sample),
            std::str::from_utf8(&sample).is_ok(),
            "disagrees with std on {:?}",
            sample
        );
    }
}
