use zm::optdef::OptionDefinition;

#[test]
fn optiondefinition_header_len() {
    let opt = OptionDefinition::new("--foo", "-f", "", "foo help");
    assert_eq!(opt.header_len(), 9);
    assert_eq!(opt.to_string_with_spaces(2), "-f, --foo  foo help");

    let opt = OptionDefinition::new("--foo", "", "", "foo help");
    assert_eq!(opt.header_len(), 5);
    assert_eq!(opt.to_string_with_spaces(2), "--foo  foo help");

    let opt = OptionDefinition::new("--foo", "", "<FOO>", "foo help");
    assert_eq!(opt.header_len(), 11);
    assert_eq!(opt.to_string_with_spaces(2), "--foo <FOO>  foo help");

    let opt = OptionDefinition::new("--foo", "-f", "<FOO>", "foo help");
    assert_eq!(opt.header_len(), 15);
    assert_eq!(opt.to_string_with_spaces(2), "-f, --foo <FOO>  foo help");
}

#[test]
fn optiondefinition_no_alignment_spaces() {
    let opt = OptionDefinition::new("--file", "-f", "<FILE>", "path of JSON configuration file");
    assert_eq!(opt.header_len(), 17);
    assert_eq!(
        opt.to_string_with_spaces(0),
        "-f, --file <FILE>path of JSON configuration file"
    );
}
