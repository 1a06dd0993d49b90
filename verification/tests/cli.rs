use zm::cli::scan_options;
use zm::error::ZmError;

fn toks(ts: &[&str]) -> Vec<String> {
    ts.iter().map(|t| t.to_string()).collect()
}

#[test]
fn empty_invocation_asks_for_help() {
    let req = scan_options(&toks(&[])).unwrap();
    assert!(req.help);
    assert!(req.file.is_none());
    assert!(req.delim.is_none());
    assert!(req.rest.is_empty());
}

#[test]
fn options_before_separator_are_scanned() {
    let req = scan_options(&toks(&[
        "-f",
        "conf.json",
        "--show_keyword_with",
        "=",
        "--",
        "a",
        "b",
    ]))
    .unwrap();
    assert!(!req.help);
    assert_eq!(req.file.as_deref(), Some("conf.json"));
    assert_eq!(req.delim.as_deref(), Some("="));
    assert_eq!(req.rest, toks(&["a", "b"]));
}

#[test]
fn long_file_option_and_help_flag() {
    let req = scan_options(&toks(&["--file", "c.json", "-h", "--", "x"])).unwrap();
    assert!(req.help);
    assert_eq!(req.file.as_deref(), Some("c.json"));
    assert_eq!(req.rest, toks(&["x"]));
}

#[test]
fn later_file_option_wins() {
    let req = scan_options(&toks(&["-f", "one.json", "-f", "two.json", "--"])).unwrap();
    assert_eq!(req.file.as_deref(), Some("two.json"));
}

#[test]
fn unknown_options_are_ignored() {
    let req = scan_options(&toks(&["--verbose", "--", "t"])).unwrap();
    assert!(!req.help);
    assert!(req.file.is_none());
    assert_eq!(req.rest, toks(&["t"]));
}

#[test]
fn missing_separator_leaves_no_rest() {
    let req = scan_options(&toks(&["-h"])).unwrap();
    assert!(req.help);
    assert!(req.rest.is_empty());
}

#[test]
fn file_option_needs_its_argument() {
    match scan_options(&toks(&["-f"])) {
        Err(ZmError::MissingFileArg { opt }) => assert_eq!(opt, "-f"),
        r => panic!("expected a missing-argument error, got {:?}", r.is_ok()),
    }
    match scan_options(&toks(&["--file", "--", "x"])) {
        Err(ZmError::MissingFileArg { opt }) => assert_eq!(opt, "--file"),
        r => panic!("expected a missing-argument error, got {:?}", r.is_ok()),
    }
}

#[test]
fn delimiter_option_needs_its_argument() {
    match scan_options(&toks(&["--show_keyword_with", "--", "x"])) {
        Err(ZmError::MissingDelimArg) => {}
        r => panic!("expected a missing-delimiter error, got {:?}", r.is_ok()),
    }
    let e = scan_options(&toks(&["--show_keyword_with"])).unwrap_err();
    assert_eq!(
        e.message(),
        "Option Error: option `--show_keyword_with` requires the delimitor excluding \"--\" but not given."
    );
}
