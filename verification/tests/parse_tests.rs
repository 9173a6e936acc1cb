use ase_shell::commands::parse::{expand_arg, expand_vars_and_tilde, expansion_of};
use ase_shell::commands::{ParsedInvocation, StderrTarget, StdoutTarget};
use ase_shell::environment::Environment;

fn strings(v: &[&str]) -> Vec<String> {
    v.iter().map(|s| s.to_string()).collect()
}

fn test_env() -> Environment {
    let mut env = Environment::new();
    env.set("FOO".to_string(), "bar".to_string());
    env.set("HOME".to_string(), "/home/testuser".to_string());
    env
}

#[test]
fn expands_env_vars_and_tilde_in_args() {
    let env = test_env();
    let tokens = strings(&["echo", "$FOO", "x$FOO", "~", "~/dir"]);
    let inv = ParsedInvocation::from_tokens(tokens, &env).unwrap();
    assert_eq!(
        inv.args,
        vec![
            "bar".to_string(),
            "xbar".to_string(),
            "/home/testuser".to_string(),
            "/home/testuser/dir".to_string()
        ]
    );
}

#[test]
fn expands_tilde_and_vars_in_redirection_paths() {
    let env = test_env();
    let tokens = strings(&["echo", "hi", ">", "~/out.txt", "2>", "/tmp/dummy.log"]);
    let inv = ParsedInvocation::from_tokens(tokens, &env).unwrap();
    assert_eq!(inv.stdout, StdoutTarget::Overwrite("/home/testuser/out.txt".to_string()));
    assert_eq!(inv.stderr, StderrTarget::Overwrite("/tmp/dummy.log".to_string()));
}

#[test]
fn redirections_and_trailing_operators() {
    let env = Environment::new();
    let inv = ParsedInvocation::from_tokens(strings(&["cmd", "a", ">>", "log", "1>", "out", "b", "2>>", "err", ">"]), &env).unwrap();
    assert_eq!(inv.cmd_name, "cmd");
    assert_eq!(inv.args, strings(&["a", "b", ">"]));
    assert_eq!(inv.stdout, StdoutTarget::Overwrite("out".to_string()));
    assert_eq!(inv.stderr, StderrTarget::Append("err".to_string()));
    assert!(ParsedInvocation::from_tokens(Vec::new(), &env).is_none());
}

#[test]
fn variable_expansion_rules() {
    let env = test_env();
    assert_eq!(expand_vars_and_tilde("$FOO.txt", &env), "bar.txt");
    assert_eq!(expand_vars_and_tilde("$MISSING-x", &env), "-x");
    assert_eq!(expand_vars_and_tilde("cost $5", &env), "cost ");
    assert_eq!(expand_vars_and_tilde("a$", &env), "a$");
    assert_eq!(expand_vars_and_tilde("~user", &env), "~user");
    assert_eq!(expand_vars_and_tilde("a~", &env), "a~");
    assert_eq!(expand_vars_and_tilde("~", &Environment::new()), "~");
}

#[test]
fn non_ascii_characters_pass_through() {
    let env = test_env();
    assert_eq!(expand_vars_and_tilde("\u{e9}", &env), "\u{e9}");
    assert_eq!(expand_vars_and_tilde("\u{e0}\u{1e63}\u{1eb9}$FOO\u{e9}", &env), "\u{e0}\u{1e63}\u{1eb9}bar\u{e9}");
    let inv = ParsedInvocation::from_tokens(strings(&["echo", "\u{e0}\u{1e63}\u{1eb9}"]), &env).unwrap();
    assert_eq!(inv.args, strings(&["\u{e0}\u{1e63}\u{1eb9}"]));
}

#[test]
fn globs_expand_to_matches_or_stay() {
    let env = Environment::new();
    assert_eq!(expand_arg("/no-such-dir-xyz/*.txt", &env), strings(&["/no-such-dir-xyz/*.txt"]));
    let root = expand_arg("/*", &env);
    assert!(root.len() > 1);
    assert!(root.iter().all(|p| p.starts_with('/')));
    assert_eq!(expansion_of("*.rs".to_string(), Some(vec![None, Some("a.rs".to_string())])), strings(&["a.rs"]));
    assert_eq!(expansion_of("*.rs".to_string(), Some(vec![None])), strings(&["*.rs"]));
    assert_eq!(expansion_of("plain".to_string(), Some(vec![Some("x".to_string())])), strings(&["plain"]));
    assert_eq!(expansion_of("[a".to_string(), None), strings(&["[a"]));
}

#[test]
fn environment_reads_back_what_was_set() {
    let mut env = Environment::new();
    assert_eq!(env.get("A"), None);
    env.set("A".to_string(), "1".to_string());
    env.set("B".to_string(), "2".to_string());
    env.set("A".to_string(), "3".to_string());
    assert_eq!(env.get("A"), Some("3".to_string()));
    assert_eq!(env.get("B"), Some("2".to_string()));
}

#[test]
fn expands_globs_in_args() {
    let env = test_env();
    let tokens = strings(&["echo", "src/commands/p*.rs"]);
    let inv = ParsedInvocation::from_tokens(tokens, &env).unwrap();
    assert_eq!(inv.args, strings(&["src/commands/parse.rs", "src/commands/pipeline.rs"]));
    assert!(!inv.args.contains(&"src/commands/ls.rs".to_string()));
}
