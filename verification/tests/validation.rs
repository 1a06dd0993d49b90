use zm::config::{ZmCommandConfig, ZmConfig, ZmKeywordConfig};
use zm::error::ZmError;

fn kw(
    name: &str,
    mapping: Option<Vec<(&str, &str)>>,
    prefix: Option<&str>,
) -> ZmKeywordConfig {
    ZmKeywordConfig {
        name: name.to_string(),
        help: String::new(),
        mapping: mapping.map(|m| {
            m.into_iter()
                .map(|(k, v)| (k.to_string(), v.to_string()))
                .collect()
        }),
        default: None,
        prefix: prefix.map(str::to_string),
    }
}

fn cmd(name: &str) -> ZmCommandConfig {
    ZmCommandConfig {
        name: name.to_string(),
        help: String::new(),
        priority: 0,
        requirements: vec![],
        pre: vec![],
        post: vec![],
    }
}

#[test]
fn validate_accepts_disjoint_rules() {
    let config = ZmConfig::new(
        vec![
            kw("a", None, None),
            kw("b", Some(vec![("x", "X"), ("y", "Y")]), None),
            kw("c", None, Some("-")),
        ],
        vec![cmd("run")],
    );
    assert!(config.validate().is_ok());
}

#[test]
fn validate_rejects_shared_prefix_naming_both_rules() {
    let config = ZmConfig::new(
        vec![kw("first", None, Some("-")), kw("second", None, Some("-"))],
        vec![],
    );
    match config.validate() {
        Err(ZmError::PrefixConflict {
            prefix,
            name,
            other,
        }) => {
            assert_eq!(prefix, "-");
            assert_eq!(name, "second");
            assert_eq!(other, "first");
        }
        r => panic!("expected a prefix conflict, got {:?}", r.is_ok()),
    }
}

#[test]
fn validate_rejects_key_collision_naming_both_rules() {
    let config = ZmConfig::new(
        vec![
            kw("alpha", Some(vec![("k", "1")]), None),
            kw("beta", Some(vec![("k", "2")]), None),
        ],
        vec![],
    );
    match config.validate() {
        Err(ZmError::MappingKeyConflict { key, name, other }) => {
            assert_eq!(key, "k");
            assert_eq!(name, "beta");
            assert_eq!(other, "alpha");
        }
        r => panic!("expected a keyword conflict, got {:?}", r.is_ok()),
    }
}

#[test]
fn validate_rejects_key_collision_in_either_order() {
    // the same two overlapping rules, declared the other way round
    let config = ZmConfig::new(
        vec![
            kw("beta", Some(vec![("k", "2")]), None),
            kw("alpha", Some(vec![("k", "1")]), None),
        ],
        vec![],
    );
    let err = config.validate().err().expect("must be rejected");
    match err {
        ZmError::MappingKeyConflict { key, name, other } => {
            assert_eq!(key, "k");
            assert_eq!(name, "alpha");
            assert_eq!(other, "beta");
        }
        e => panic!("unexpected error {}", e.message()),
    }
}

#[test]
fn validate_rejects_name_against_mapping_key() {
    let config = ZmConfig::new(
        vec![kw("m", Some(vec![("word", "W")]), None), kw("word", None, None)],
        vec![],
    );
    match config.validate() {
        Err(ZmError::NameConflict { name, other }) => {
            assert_eq!(name, "word");
            assert_eq!(other, "m");
        }
        r => panic!("expected a name conflict, got {:?}", r.is_ok()),
    }
}

#[test]
fn validate_rejects_duplicate_command_names() {
    let config = ZmConfig::new(vec![], vec![cmd("run"), cmd("run")]);
    match config.validate() {
        Err(ZmError::CommandDuplicate { name }) => assert_eq!(name, "run"),
        r => panic!("expected a duplicate command, got {:?}", r.is_ok()),
    }
}

#[test]
fn validate_rejects_command_colliding_with_keyword() {
    let config = ZmConfig::new(vec![kw("run", None, None)], vec![cmd("run")]);
    match config.validate() {
        Err(ZmError::CommandConflict { name, other }) => {
            assert_eq!(name, "run");
            assert_eq!(other, "run");
        }
        r => panic!("expected a command conflict, got {:?}", r.is_ok()),
    }
}

#[test]
fn revalidating_identical_records_succeeds() {
    let records = || {
        vec![
            kw("a", None, None),
            kw("b", Some(vec![("x", "X")]), Some("-")),
        ]
    };
    let first = ZmConfig::new(records(), vec![]).validate();
    assert!(first.is_ok());
    let again = ZmConfig::new(records(), vec![]).validate();
    assert!(again.is_ok());
    let names: Vec<String> = again
        .unwrap()
        .get_keyword()
        .iter()
        .map(|k| k.name.clone())
        .collect();
    assert_eq!(names, vec!["a".to_string(), "b".to_string()]);
}

#[test]
fn error_messages_name_the_conflict() {
    let e = ZmError::PrefixConflict {
        prefix: "-".to_string(),
        name: "b".to_string(),
        other: "a".to_string(),
    };
    assert_eq!(
        e.message(),
        "Prefix Error: prefix `-` of \"b\" conflicts with one of \"a\""
    );
    let e = ZmError::MappingKeyConflict {
        key: "k".to_string(),
        name: "b".to_string(),
        other: "a".to_string(),
    };
    assert_eq!(
        e.message(),
        "Keyword Error: keyword `k` in mapping of \"b\" conflicts with keyword \"a\""
    );
    let e = ZmError::NameConflict {
        name: "n".to_string(),
        other: "a".to_string(),
    };
    assert_eq!(e.message(), "Keyword Error: keyword `n` conflict with \"a\"");
    let e = ZmError::CommandDuplicate {
        name: "run".to_string(),
    };
    assert_eq!(
        e.message(),
        "Command Error: command name `run` already exists"
    );
    let e = ZmError::CommandConflict {
        name: "run".to_string(),
        other: "kw".to_string(),
    };
    assert_eq!(
        e.message(),
        "Command Error: command name `run` conflicts with \"kw\""
    );
    let e = ZmError::MissingFileArg {
        opt: "-f".to_string(),
    };
    assert_eq!(
        e.message(),
        "Option Error: option `-f` requires a path to configuration file but not given."
    );
}
