use zm::command::{parse_args, GeneratorFn, Mers};
use zm::config::ZmCommandConfig;
use zm::error::ZmError;

fn toks(ts: &[&str]) -> Vec<String> {
    ts.iter().map(|t| t.to_string()).collect()
}

fn cmd(name: &str, requirements: &[&str]) -> ZmCommandConfig {
    ZmCommandConfig {
        name: name.to_string(),
        help: String::new(),
        priority: 0,
        requirements: requirements.iter().map(|r| r.to_string()).collect(),
        pre: vec![],
        post: vec![],
    }
}

#[test]
fn parse_args_splits_params_and_commands() {
    let (kw, args) = parse_args(&toks(&["cmd=ls", "cmd=-l", "build", "build", "k=a=b"]));
    assert_eq!(
        kw,
        vec![
            ("cmd".to_string(), toks(&["ls", "-l"])),
            ("k".to_string(), toks(&["a=b"])),
        ]
    );
    // bare tokens are a set: the duplicate is kept once
    assert_eq!(args, toks(&["build"]));
}

#[test]
fn parse_args_empty_key_and_value() {
    let (kw, args) = parse_args(&toks(&["=v", "k="]));
    assert_eq!(
        kw,
        vec![
            (String::new(), toks(&["v"])),
            ("k".to_string(), toks(&[""])),
        ]
    );
    assert!(args.is_empty());
}

#[test]
fn push_rejects_duplicate_command_names() {
    let mut mers = Mers::new();
    assert!(mers
        .push(
            "exec",
            GeneratorFn::JoinValues {
                key: "cmd".to_string()
            }
        )
        .is_ok());
    let err = mers
        .push(
            "exec",
            GeneratorFn::JoinValues {
                key: "cmd".to_string()
            },
        )
        .unwrap_err();
    assert_eq!(err, ZmError::DupCommand {
        name: "exec".to_string()
    });
    assert_eq!(err.message(), "dup command: exec");
}

#[test]
fn gen_tasks_joins_collected_values() {
    let mut mers = Mers::new();
    mers.push(
        "exec",
        GeneratorFn::JoinValues {
            key: "cmd".to_string(),
        },
    )
    .unwrap();
    let (kw, args) = parse_args(&toks(&["cmd=ls", "cmd=-l", "exec"]));
    let tasks = mers
        .gen_tasks(&kw, &args, &vec![cmd("exec", &["cmd"])])
        .unwrap();
    assert_eq!(tasks, toks(&["ls -l"]));
}

#[test]
fn gen_tasks_skips_unrequested_commands() {
    let mut mers = Mers::new();
    mers.push(
        "exec",
        GeneratorFn::JoinValues {
            key: "cmd".to_string(),
        },
    )
    .unwrap();
    let (kw, args) = parse_args(&toks(&["cmd=ls"]));
    let tasks = mers
        .gen_tasks(&kw, &args, &vec![cmd("exec", &["cmd"])])
        .unwrap();
    assert!(tasks.is_empty());
}

#[test]
fn gen_tasks_requires_a_registered_generator() {
    let mers = Mers::new();
    let (kw, args) = parse_args(&toks(&["build"]));
    let err = mers
        .gen_tasks(&kw, &args, &vec![cmd("build", &[])])
        .unwrap_err();
    assert_eq!(err.message(), "not registerred: build");
}

#[test]
fn gen_tasks_requires_collected_keywords() {
    let mut mers = Mers::new();
    mers.push(
        "exec",
        GeneratorFn::JoinValues {
            key: "cmd".to_string(),
        },
    )
    .unwrap();
    let (kw, args) = parse_args(&toks(&["exec"]));
    let err = mers
        .gen_tasks(&kw, &args, &vec![cmd("exec", &["cmd"])])
        .unwrap_err();
    assert_eq!(err.message(), "not req: exec");
}
