use snap_out::options::parse;
use snap_out::options::Parsed;

fn args(xs: &[&str]) -> Vec<String> {
    xs.iter().map(|s| s.to_string()).collect()
}

#[test]
fn parses_command_with_no_args() {
    assert_eq!(
        parse(args(&["snap-out", "ls"])),
        Parsed::RunCommand {
            command: "ls".to_owned(),
            args: vec![],
        }
    );
}

#[test]
fn parses_command_with_args() {
    assert_eq!(
        parse(args(&["snap-out", "ls", "..", "-a"])),
        Parsed::RunCommand {
            command: "ls".to_owned(),
            args: vec!["..", "-a"].iter().map(|s| s.to_string()).collect(),
        }
    );
}

#[test]
fn parses_show_help() {
    assert_eq!(parse(args(&["snap-out", "--help"])), Parsed::ShowHelp);
    assert_eq!(parse(args(&["snap-out", "-h"])), Parsed::ShowHelp);
}

#[test]
fn parses_show_version() {
    assert_eq!(parse(args(&["snap-out", "--version"])), Parsed::ShowVersion);
    assert_eq!(parse(args(&["snap-out", "-v"])), Parsed::ShowVersion);
}

#[test]
fn parses_show_script() {
    assert_eq!(parse(args(&["snap-out", "--script"])), Parsed::ShowScript);
    assert_eq!(parse(args(&["snap-out", "-s"])), Parsed::ShowScript);
}

#[test]
fn errors_on_bad_arg() {
    match parse(args(&["snap-out", "--bad"])) {
        Parsed::Error(_) => (),
        result @ _ => panic!(
            "Should have been an error, but instead returned {:?}",
            result
        ),
    };
    match parse(args(&["snap-out", "-x"])) {
        Parsed::Error(_) => (),
        result @ _ => panic!(
            "Should have been an error, but instead returned {:?}",
            result
        ),
    };
}

#[test]
fn none_on_no_args() {
    assert_eq!(parse(args(&["snap-out"])), Parsed::NoCommand);
    assert_eq!(parse(args(&[])), Parsed::NoCommand);
}
