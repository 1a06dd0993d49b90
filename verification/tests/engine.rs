use zm::config::{ZmConfig, ZmKeywordConfig};
use zm::engine::{compose, rewrite};

fn kw(
    name: &str,
    mapping: Option<Vec<(&str, &str)>>,
    default: Option<&str>,
    prefix: Option<&str>,
) -> ZmKeywordConfig {
    ZmKeywordConfig {
        name: name.to_string(),
        help: String::new(),
        mapping: mapping.map(|m| {
            m.into_iter()
                .map(|(k, v)| (k.to_string(), v.to_string()))
                .collect()
        }),
        default: default.map(str::to_string),
        prefix: prefix.map(str::to_string),
    }
}

fn toks(ts: &[&str]) -> Vec<String> {
    ts.iter().map(|t| t.to_string()).collect()
}

#[test]
fn prefix_stripping_matches_only_with_prefix() {
    let rule = kw("p", Some(vec![("x", "X")]), None, Some("-"));
    assert_eq!(rule.replace("-x"), Some("X".to_string()));
    assert_eq!(rule.replace("x"), None);
}

#[test]
fn exact_name_match_without_mapping() {
    let rule = kw("build", None, None, None);
    assert_eq!(rule.replace("build"), Some("build".to_string()));
    assert_eq!(rule.replace("run"), None);
}

#[test]
fn empty_mapping_matches_nothing() {
    // an explicitly empty mapping reserves the name with no active entries
    let rule = kw("r", Some(vec![]), None, None);
    assert_eq!(rule.replace("r"), None);
    assert_eq!(rule.replace(""), None);
}

#[test]
fn rewrite_emits_pairs_in_input_order() {
    let config = ZmConfig::new(
        vec![kw("opt", Some(vec![("fast", "-O2")]), None, None)],
        vec![],
    )
    .validate()
    .unwrap();
    let pairs = rewrite(&config, &toks(&["cc", "fast", "main.c"]));
    assert_eq!(
        pairs,
        vec![
            (String::new(), "cc".to_string()),
            ("opt".to_string(), "-O2".to_string()),
            (String::new(), "main.c".to_string()),
        ]
    );
}

#[test]
fn rewrite_appends_default_once_when_never_matched() {
    let config = ZmConfig::new(
        vec![kw("mode", Some(vec![("debug", "-g")]), Some("-O2"), None)],
        vec![],
    )
    .validate()
    .unwrap();
    let pairs = rewrite(&config, &toks(&["cc", "main.c"]));
    assert_eq!(
        pairs,
        vec![
            (String::new(), "cc".to_string()),
            (String::new(), "main.c".to_string()),
            ("mode".to_string(), "-O2".to_string()),
        ]
    );
    let count = pairs
        .iter()
        .filter(|p| p == &&("mode".to_string(), "-O2".to_string()))
        .count();
    assert_eq!(count, 1);
}

#[test]
fn rewrite_of_empty_input_yields_defaults_only() {
    let config = ZmConfig::new(
        vec![
            kw("a", None, Some("A"), None),
            kw("b", Some(vec![("x", "X")]), Some("B"), None),
        ],
        vec![],
    )
    .validate()
    .unwrap();
    let pairs = rewrite(&config, &toks(&[]));
    assert_eq!(
        pairs,
        vec![
            ("a".to_string(), "A".to_string()),
            ("b".to_string(), "B".to_string()),
        ]
    );
}

#[test]
fn prefixed_name_rule_requires_its_prefix() {
    let rule = kw("v", None, None, Some("-"));
    assert_eq!(rule.replace("-v"), Some("v".to_string()));
    assert_eq!(rule.replace("v"), None);
}

#[test]
fn rewrite_skips_default_when_matched() {
    let config = ZmConfig::new(
        vec![kw("mode", Some(vec![("debug", "-g")]), Some("-O2"), None)],
        vec![],
    )
    .validate()
    .unwrap();
    let pairs = rewrite(&config, &toks(&["debug"]));
    assert_eq!(pairs, vec![("mode".to_string(), "-g".to_string())]);
}

#[test]
fn rewrite_first_declared_rule_wins() {
    let config = ZmConfig::new(
        vec![
            kw("a", None, None, Some("-")),
            kw("b", Some(vec![("-a", "mapped")]), None, None),
        ],
        vec![],
    )
    .validate()
    .unwrap();
    // "-a" satisfies rule "a" (prefix "-", remainder equals its name) and is
    // also a mapping key of rule "b"; the first-declared rule claims it
    let pairs = rewrite(&config, &toks(&["-a"]));
    assert_eq!(pairs, vec![("a".to_string(), "a".to_string())]);
}

#[test]
fn compose_with_delimiter_joins_keyed_pairs() {
    let pairs = vec![
        ("k".to_string(), "v".to_string()),
        (String::new(), "raw".to_string()),
    ];
    let delim = "=".to_string();
    let out = compose(&pairs, Some(&delim));
    assert_eq!(out, vec!["k=v".to_string(), "raw".to_string()]);
}

#[test]
fn compose_without_delimiter_keeps_values() {
    let pairs = vec![
        ("k".to_string(), "v".to_string()),
        (String::new(), "raw".to_string()),
    ];
    let out = compose(&pairs, None);
    assert_eq!(out, vec!["v".to_string(), "raw".to_string()]);
}

#[test]
fn compose_without_delimiter_drops_empty_passthrough_only() {
    let pairs = vec![
        (String::new(), String::new()),
        ("k".to_string(), String::new()),
        (String::new(), "t".to_string()),
    ];
    let out = compose(&pairs, None);
    // the keyed pair's empty value stays; the empty pass-through is dropped
    assert_eq!(out, vec![String::new(), "t".to_string()]);
}

#[test]
fn passthrough_tokens_keep_their_relative_order() {
    let config = ZmConfig::new(
        vec![kw("w", None, None, None)],
        vec![],
    )
    .validate()
    .unwrap();
    let pairs = rewrite(&config, &toks(&["one", "w", "two", "three"]));
    let passed: Vec<&str> = pairs
        .iter()
        .filter(|p| p.0.is_empty())
        .map(|p| p.1.as_str())
        .collect();
    assert_eq!(passed, vec!["one", "two", "three"]);
}

#[test]
fn whole_invocation_scan_rewrite_compose() {
    let argv: Vec<String> = ["--show_keyword_with", "=", "--", "fast", "src.c"]
        .iter()
        .map(|t| t.to_string())
        .collect();
    let req = zm::cli::scan_options(&argv).unwrap();
    assert_eq!(req.delim.as_deref(), Some("="));

    let config = ZmConfig::new(
        vec![kw("opt", Some(vec![("fast", "-O2")]), Some("-O0"), None)],
        vec![],
    )
    .validate()
    .unwrap();
    let pairs = rewrite(&config, &req.rest);
    let out = compose(&pairs, req.delim.as_ref());
    assert_eq!(out, vec!["opt=-O2".to_string(), "src.c".to_string()]);

    // the same parse joined without the delimiter
    let plain = compose(&pairs, None);
    assert_eq!(plain, vec!["-O2".to_string(), "src.c".to_string()]);
}

#[test]
fn rewrite_twice_is_deterministic() {
    let config = ZmConfig::new(
        vec![kw("opt", Some(vec![("fast", "-O2")]), Some("-O0"), None)],
        vec![],
    )
    .validate()
    .unwrap();
    let input = toks(&["fast", "x"]);
    let first = rewrite(&config, &input);
    let second = rewrite(&config, &input);
    assert_eq!(first, second);
}
