use dump::cli::{check_path, parse_args, usage, Command, DumpError, SUCCESS};
use dump::mode::Mode;

fn args(list: &[&str]) -> Vec<String> {
    list.iter().map(|s| s.to_string()).collect()
}

#[test]
fn unknown_mode_foo() {
    let e = parse_args(&args(&["dump", "foo", "file.bin"])).unwrap_err();
    assert_eq!(e, DumpError::UnknownMode("foo".to_string()));
    assert_eq!(e.exit_code(), 2);
    assert_eq!(e.message(), "Unknown mode: foo\nUsage: dump [bin|oct|hex] FILE");
}

#[test]
fn directory_path() {
    let e = check_path(&"/tmp".to_string(), true, true).unwrap_err();
    assert_eq!(e, DumpError::IsDirectory);
    assert_eq!(e.exit_code(), 4);
    assert_eq!(e.message(), "Path is a directory!");
}

#[test]
fn missing_path() {
    let e = check_path(&"nope.bin".to_string(), false, false).unwrap_err();
    assert_eq!(e, DumpError::FileNotFound("nope.bin".to_string()));
    assert_eq!(e.exit_code(), 3);
    assert_eq!(e.message(), "File not found: nope.bin");
}

#[test]
fn regular_file_path_is_accepted() {
    assert_eq!(check_path(&"a.bin".to_string(), true, false), Ok(()));
}

#[test]
fn help_flag_anywhere_wins() {
    assert_eq!(parse_args(&args(&["dump", "-h"])), Ok(Command::Help));
    assert_eq!(parse_args(&args(&["dump", "foo", "x", "--help"])), Ok(Command::Help));
    assert_eq!(parse_args(&args(&["dump", "hex", "-h"])), Ok(Command::Help));
}

#[test]
fn wrong_argument_count() {
    for list in [&["dump"][..], &["dump", "hex"][..], &["dump", "hex", "a", "b"][..]] {
        let e = parse_args(&args(list)).unwrap_err();
        assert_eq!(e, DumpError::WrongArgCount);
        assert_eq!(e.exit_code(), 1);
        assert_eq!(e.message(), "Usage: dump [bin|oct|hex] FILE");
    }
}

#[test]
fn valid_modes_give_a_dump_command() {
    for (tok, m) in [("bin", Mode::Bin), ("oct", Mode::Oct), ("hex", Mode::Hex)] {
        assert_eq!(
            parse_args(&args(&["dump", tok, "f.bin"])),
            Ok(Command::Dump { mode: m, path: "f.bin".to_string() })
        );
    }
}

#[test]
fn mode_tokens_are_exact_and_case_sensitive() {
    assert_eq!(Mode::parse("bin"), Some(Mode::Bin));
    assert_eq!(Mode::parse("oct"), Some(Mode::Oct));
    assert_eq!(Mode::parse("hex"), Some(Mode::Hex));
    assert_eq!(Mode::parse("HEX"), None);
    assert_eq!(Mode::parse("he"), None);
    assert_eq!(Mode::parse(""), None);
}

#[test]
fn mode_constants() {
    assert_eq!((Mode::Bin.columns(), Mode::Bin.radix(), Mode::Bin.width()), (4, 2, 8));
    assert_eq!((Mode::Oct.columns(), Mode::Oct.radix(), Mode::Oct.width()), (8, 8, 3));
    assert_eq!((Mode::Hex.columns(), Mode::Hex.radix(), Mode::Hex.width()), (16, 16, 2));
}

#[test]
fn io_failures_have_their_codes() {
    let open = DumpError::OpenFailed("Permission denied (os error 13)".to_string());
    assert_eq!(open.exit_code(), 5);
    assert_eq!(open.message(), "Error opening File: Permission denied (os error 13)");
    let read = DumpError::ReadFailed("Input/output error (os error 5)".to_string());
    assert_eq!(read.exit_code(), 6);
    assert_eq!(read.message(), "Error reading file: Input/output error (os error 5)");
}

#[test]
fn success_code_and_usage() {
    assert_eq!(SUCCESS, 0);
    assert_eq!(usage(), "Usage: dump [bin|oct|hex] FILE");
}
