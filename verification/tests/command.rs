use exec_protocol::subprocess::{CommandOptions, StdinMode};
use std::path::PathBuf;

#[test]
fn command_options_start_with_piped_stdin_and_nothing_else() {
    let options = CommandOptions::new("sh".to_string(), PathBuf::from("/tmp"));
    assert_eq!(options.get_program(), "sh");
    assert!(options.get_args().is_empty());
    assert_eq!(options.get_cwd(), &PathBuf::from("/tmp"));
    assert!(options.get_envs().is_empty());
    assert_eq!(options.get_stdin(), StdinMode::Piped);
    assert_eq!(StdinMode::default(), StdinMode::Piped);
}

#[test]
fn command_options_collect_arguments_in_order() {
    let options = CommandOptions::new("sh".to_string(), PathBuf::from("."))
        .arg("-c".to_string())
        .args(vec!["echo".to_string(), "hi".to_string()]);
    assert_eq!(options.get_args(), &vec!["-c".to_string(), "echo".to_string(), "hi".to_string()]);
}

#[test]
fn command_options_later_env_value_wins() {
    let options = CommandOptions::new("sh".to_string(), PathBuf::from("."))
        .env("A".to_string(), "1".to_string())
        .envs(vec![("B".to_string(), "2".to_string()), ("A".to_string(), "3".to_string())]);
    let mut resolved = std::collections::HashMap::new();
    for (k, v) in options.get_envs() {
        resolved.insert(k.clone(), v.clone());
    }
    assert_eq!(resolved.len(), 2);
    assert_eq!(resolved["A"], "3");
    assert_eq!(resolved["B"], "2");
}

#[test]
fn command_options_no_stdin() {
    let options = CommandOptions::new("sh".to_string(), PathBuf::from(".")).no_stdin();
    assert_eq!(options.get_stdin(), StdinMode::Null);
    let options = options.stdin(StdinMode::Piped);
    assert_eq!(options.get_stdin(), StdinMode::Piped);
}

#[test]
fn command_options_default_is_new_with_empty_program_and_path() {
    let d = CommandOptions::default();
    let n = CommandOptions::new(String::new(), PathBuf::from(String::new()));
    assert_eq!(d.get_program(), n.get_program());
    assert_eq!(d.get_args(), n.get_args());
    assert_eq!(d.get_cwd(), n.get_cwd());
    assert_eq!(d.get_cwd(), &PathBuf::default());
    assert_eq!(d.get_envs(), n.get_envs());
    assert_eq!(d.get_stdin(), n.get_stdin());
}

#[test]
fn args_equals_arg_by_arg() {
    let base = || CommandOptions::new("sh".to_string(), PathBuf::from(".")).arg("-x".to_string());
    let at_once = base().args(vec!["a".to_string(), "b".to_string()]);
    let one_by_one = base().arg("a".to_string()).arg("b".to_string());
    assert_eq!(at_once.get_args(), one_by_one.get_args());
    assert_eq!(base().args(Vec::new()).get_args(), base().get_args());
}

#[test]
fn envs_equals_env_by_env() {
    let at_once = CommandOptions::new("sh".to_string(), PathBuf::from("."))
        .envs(vec![("K".to_string(), "1".to_string()), ("K".to_string(), "2".to_string())]);
    let one_by_one = CommandOptions::new("sh".to_string(), PathBuf::from("."))
        .env("K".to_string(), "1".to_string())
        .env("K".to_string(), "2".to_string());
    let last = |o: &CommandOptions| {
        o.get_envs().iter().filter(|(k, _)| k == "K").last().map(|(_, v)| v.clone())
    };
    assert_eq!(last(&at_once), Some("2".to_string()));
    assert_eq!(last(&at_once), last(&one_by_one));
}
