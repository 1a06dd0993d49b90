use zm::config::ZmKeywordConfig;
use zm::handler::HandlerTable;
use zm::rules::{PredicateFn, ReplacerFn};

fn kw(
    name: &str,
    mapping: Option<Vec<(&str, &str)>>,
    prefix: Option<&str>,
) -> ZmKeywordConfig {
    ZmKeywordConfig {
        name: name.to_string(),
        help: String::new(),
        mapping: mapping.map(|m| {
            m.into_iter()
                .map(|(k, v)| (k.to_string(), v.to_string()))
                .collect()
        }),
        default: None,
        prefix: prefix.map(str::to_string),
    }
}

#[test]
fn handler_table_words_and_passthrough() {
    let mut ht = HandlerTable::new();
    assert!(ht.add_word_to_word("word", "replaced"));
    assert!(!ht.add_word_to_word("word", "other"));
    let out = ht
        .parse_args(&vec!["word".to_string(), "keep".to_string()])
        .unwrap();
    assert_eq!(out, vec!["replaced".to_string(), "keep".to_string()]);
}

#[test]
fn handler_table_mapping_keyword_registers_keys() {
    let mut ht = HandlerTable::new();
    assert!(ht.add_keyword(&kw("m", Some(vec![("x", "X")]), None)));
    // "x" is now a registered key, so it cannot become an exact word
    assert!(!ht.add_word_to_word("x", "other"));
    let out = ht.parse_args(&vec!["x".to_string()]).unwrap();
    assert_eq!(out, vec!["X".to_string()]);
}

#[test]
fn handler_table_rejects_mapping_reusing_registered_key() {
    let mut ht = HandlerTable::new();
    assert!(ht.add_word_to_word("x", "word-x"));
    // one key of the new mapping collides: the whole keyword is rejected
    assert!(!ht.add_keyword(&kw("m", Some(vec![("x", "X"), ("y", "Y")]), None)));
    // nothing of the rejected mapping was registered
    assert!(ht.add_word_to_word("y", "word-y"));
    let out = ht
        .parse_args(&vec!["x".to_string(), "y".to_string()])
        .unwrap();
    assert_eq!(out, vec!["word-x".to_string(), "word-y".to_string()]);
}

#[test]
fn handler_table_prefixed_mapping() {
    let mut ht = HandlerTable::new();
    assert!(ht.add_keyword(&kw("opt", Some(vec![("x", "X")]), Some("-"))));
    let out = ht
        .parse_args(&vec!["-x".to_string(), "x".to_string()])
        .unwrap();
    // "-x" goes through the prefixed mapping; the bare key is an exact word
    // nowhere, so it passes through
    assert_eq!(out, vec!["X".to_string(), "x".to_string()]);
}

#[test]
fn handler_table_pred_to_word() {
    let mut ht = HandlerTable::new();
    ht.add_pred_to_word(
        PredicateFn::Word {
            word: "hit".to_string(),
        },
        "replaced",
    );
    let out = ht
        .parse_args(&vec!["hit".to_string(), "miss".to_string()])
        .unwrap();
    assert_eq!(out, vec!["replaced".to_string(), "miss".to_string()]);
}

#[test]
fn handler_table_word_beats_handler() {
    let mut ht = HandlerTable::new();
    ht.add_pred_to_replacer(
        PredicateFn::Word {
            word: "t".to_string(),
        },
        ReplacerFn::Literal {
            text: "from-handler".to_string(),
        },
    );
    assert!(ht.add_word_to_word("t", "from-word"));
    let out = ht.parse_args(&vec!["t".to_string()]).unwrap();
    assert_eq!(out, vec!["from-word".to_string()]);
}
