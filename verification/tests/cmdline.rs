use zm::cmdline::CommandLine;
use zm::config::ZmKeywordConfig;
use zm::rules::{PredicateFn, ReplacerFn};

#[test]
fn handler_table_init_lifetime() {
    {
        // the table's lifetime starts first
        let mut ht = CommandLine::new();
        ht.add_word_to_word("word", "replaced");

        let args = vec!["word".to_string()];

        let res = ht.parse_args(&args);
        assert!(res.is_ok());
        assert_eq!(res.unwrap(), &["replaced".to_string()]);
    }
    {
        // the argument vector's lifetime starts first
        let args = vec!["word".to_string()];

        let mut ht = CommandLine::new();
        ht.add_word_to_word("word", "replaced");

        let res = ht.parse_args(&args);
        assert!(res.is_ok());
        assert_eq!(res.unwrap(), &["replaced".to_string()]);
    }
}

#[test]
fn command_line_word_registration_refuses_duplicates() {
    let mut cl = CommandLine::new();
    assert!(cl.add_word_to_word("w", "a"));
    assert!(!cl.add_word_to_word("w", "b"));
    let out = cl.parse_args(&vec!["w".to_string()]).unwrap();
    assert_eq!(out, vec!["a".to_string()]);
}

#[test]
fn command_line_passthrough_keeps_unknown_tokens() {
    let mut cl = CommandLine::new();
    cl.add_word_to_word("word", "replaced");
    let args = vec![
        "begin".to_string(),
        "word".to_string(),
        "end".to_string(),
    ];
    let out = cl.parse_args(&args).unwrap();
    assert_eq!(
        out,
        vec!["begin".to_string(), "replaced".to_string(), "end".to_string()]
    );
}

#[test]
fn command_line_prefixed_name_keyword() {
    let mut cl = CommandLine::new();
    let kw = ZmKeywordConfig {
        name: "v".to_string(),
        help: String::new(),
        mapping: None,
        default: None,
        prefix: Some("-".to_string()),
    };
    assert!(cl.add_keyword(&kw));
    let out = cl
        .parse_args(&vec!["-v".to_string(), "v".to_string()])
        .unwrap();
    // "-v" matches the prefixed handler; a bare "v" does not
    assert_eq!(out, vec!["v".to_string(), "v".to_string()]);
}

#[test]
fn command_line_mapping_keyword_conflict() {
    let mut cl = CommandLine::new();
    assert!(cl.add_word_to_word("x", "word-x"));
    let kw = ZmKeywordConfig {
        name: "m".to_string(),
        help: String::new(),
        mapping: Some(vec![("x".to_string(), "X".to_string())]),
        default: None,
        prefix: None,
    };
    // "x" is already a registered word, so the mapping keyword is refused
    assert!(!cl.add_keyword(&kw));
    let out = cl.parse_args(&vec!["x".to_string()]).unwrap();
    assert_eq!(out, vec!["word-x".to_string()]);
}

#[test]
fn command_line_pred_to_replacer_mapping() {
    let mut cl = CommandLine::new();
    let mapping = vec![("a".to_string(), "A".to_string())];
    cl.add_pred_to_replacer(
        PredicateFn::Mapping {
            mapping: mapping.clone(),
        },
        ReplacerFn::Mapping { mapping },
    );
    let out = cl
        .parse_args(&vec!["a".to_string(), "b".to_string()])
        .unwrap();
    assert_eq!(out, vec!["A".to_string(), "b".to_string()]);
}
