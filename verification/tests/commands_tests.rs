use ase_shell::commands::builtins::{echo_args, history_text, resolve_types};
use ase_shell::commands::control::{split_by_and_or, split_by_semicolon, ControlOp};
use ase_shell::commands::effects::{plan_part, status_byte, Effect, PartPlan};
use ase_shell::commands::pipeline::{plan_pipeline, split_pipeline, Program};
use ase_shell::commands::{find_executable, builtin_names, is_builtin, needs_more_input, Cmd, RunResult, StderrTarget, StdoutTarget};
use ase_shell::environment::Environment;
use ase_shell::repl::complete_command;

fn strings(v: &[&str]) -> Vec<String> {
    v.iter().map(|s| s.to_string()).collect()
}

#[test]
fn from_input_empty_returns_none() {
    let env = Environment::new();
    assert!(matches!(Cmd::from_input("", &env), None));
    assert!(matches!(Cmd::from_input("   ", &env), None));
}

#[test]
fn from_input_echo_preserves_whitespace() {
    let env = Environment::new();
    let cmd = Cmd::from_input(r#"echo "hello   world""#, &env).unwrap();
    assert!(cmd.is_echo());
    let Cmd::Echo { cmd, .. } = cmd else {
        unreachable!()
    };
    assert_eq!(cmd.args, vec!["hello   world"]);
}

#[test]
fn from_input_echo_multiple_args() {
    let env = Environment::new();
    let cmd = Cmd::from_input("echo a b c", &env).unwrap();
    let Cmd::Echo { cmd, .. } = cmd else {
        unreachable!()
    };
    assert_eq!(cmd.args, vec!["a", "b", "c"]);
}

#[test]
fn needs_more_input_unclosed_quotes() {
    assert!(needs_more_input(r#"echo "hello"#));
    assert!(needs_more_input("echo 'hello"));
    assert!(!needs_more_input(r#"echo "hello""#));
    assert!(!needs_more_input(""));
}

#[test]
fn from_parts_exit_no_args_is_zero() {
    let cmd = Cmd::from_parts("exit", vec![], StdoutTarget::Stdout, StderrTarget::Stderr);
    assert!(matches!(cmd, Cmd::Exit(0)));
}

#[test]
fn from_parts_exit_with_code() {
    let cmd = Cmd::from_parts(
        "exit",
        vec!["42".into()],
        StdoutTarget::Stdout,
        StderrTarget::Stderr,
    );
    assert!(matches!(cmd, Cmd::Exit(42)));
}

#[test]
fn from_parts_pwd() {
    let cmd = Cmd::from_parts("pwd", vec![], StdoutTarget::Stdout, StderrTarget::Stderr);
    assert!(matches!(cmd, Cmd::Pwd { .. }));
}

#[test]
fn from_parts_type_args() {
    let cmd = Cmd::from_parts(
        "type",
        vec!["cd".into(), "ls".into()],
        StdoutTarget::Stdout,
        StderrTarget::Stderr,
    );
    let Cmd::Type { cmd, .. } = cmd else {
        unreachable!()
    };
    assert_eq!(cmd.args, vec!["cd", "ls"]);
}

#[test]
fn from_parts_cd_args() {
    let cmd = Cmd::from_parts(
        "cd",
        vec!["/tmp".into()],
        StdoutTarget::Stdout,
        StderrTarget::Stderr,
    );
    let Cmd::Cd { cmd, .. } = cmd else {
        unreachable!()
    };
    assert_eq!(cmd.args, vec!["/tmp"]);
}

#[test]
fn is_builtin_known() {
    for name in builtin_names() {
        assert!(is_builtin(&name), "{name} should be builtin");
    }
}

#[test]
fn is_builtin_unknown() {
    assert!(!is_builtin("ls"));
    assert!(!is_builtin(""));
}

#[test]
fn split_by_semicolon_respects_quotes() {
    let input = r#"echo "a;b"; echo c; echo 'd;e'"#;
    let parts = split_by_semicolon(input);
    assert_eq!(parts.len(), 3);
    assert_eq!(parts[0], r#"echo "a;b""#);
    assert_eq!(parts[1], "echo c");
    assert_eq!(parts[2], r#"echo 'd;e'"#);
}

#[test]
fn split_by_and_or_respects_quotes() {
    let input = r#"echo "a && b" && echo c || echo 'd || e'"#;
    let (parts, ops) = split_by_and_or(input);
    assert_eq!(
        parts,
        vec![r#"echo "a && b""#, "echo c", r#"echo 'd || e'"#]
    );
    assert_eq!(ops, vec![ControlOp::AndAnd, ControlOp::OrOr]);
}

#[test]
fn run_one_part_uses_builtin_status() {
    let env = Environment::new();
    let history: Vec<String> = Vec::new();
    let PartPlan::Single(cmd) = plan_part("echo ok", &env) else {
        panic!("expected a single command")
    };
    match cmd.effect("ase-test", &history) {
        Effect::Write { text, .. } => assert_eq!(text, "ok\n"),
        _ => panic!("echo should write"),
    }

    let PartPlan::Single(cmd) = plan_part("definitely-does-not-exist-xyz", &env) else {
        panic!("expected a single command")
    };
    match cmd.effect("ase-test", &history) {
        Effect::Report { status, text, .. } => {
            assert_eq!(status, 127);
            assert_eq!(text, "ase-test: command not found: definitely-does-not-exist-xyz\n");
        },
        _ => panic!("an unknown command should be reported"),
    }
}

#[test]
fn run_one_part_pipeline_command_not_found_gives_127() {
    let env = Environment::new();
    let PartPlan::Pipeline(tokens) = plan_part("no-such-cmd-abc | also-no-such-cmd-def", &env) else {
        panic!("expected a pipeline")
    };
    let plan = plan_pipeline(tokens, "ase-test", &env);
    assert!(plan.stages.is_empty());
    assert_eq!(
        plan.failure.as_deref(),
        Some("ase-test: command not found: no-such-cmd-abc")
    );
}

#[test]
fn complete_command_includes_builtins_and_path_executables() {
    let names = complete_command("ec", &Vec::new());
    assert!(names.contains(&"echo".to_string()));
}

#[test]
fn complete_command_sorts_and_removes_repeats() {
    let names = complete_command("e", &strings(&["env", "echo", "ed", "env", "x"]));
    assert_eq!(names, strings(&["echo", "ed", "env", "exit"]));
}

#[test]
fn history_builtin_respects_count() {
    let history = strings(&["ls", "echo a", "echo b"]);
    let text = history_text(&strings(&["2"]), &history);
    assert_eq!(text, "     2  echo a\n     3  echo b\n");
    assert!(!text.contains("ls"));
    let all = history_text(&Vec::new(), &history);
    assert_eq!(all, "     1  ls\n     2  echo a\n     3  echo b\n");
    let too_many = history_text(&strings(&["9"]), &history);
    assert_eq!(too_many, all);
    let not_a_number = history_text(&strings(&["x"]), &history);
    assert_eq!(not_a_number, all);
}

#[test]
fn echo_joins_with_spaces() {
    assert_eq!(echo_args(&strings(&["a", "b  c", "d"])), "a b  c d\n");
    assert_eq!(echo_args(&Vec::new()), "\n");
}

#[test]
fn type_reports_builtins_and_missing_names() {
    let text = resolve_types(&strings(&["cd", "no-such-cmd-zzz", ""]));
    assert_eq!(text, "cd is a shell builtin\nno-such-cmd-zzz: not found\n: not found");
}

#[test]
fn type_finds_programs_on_path() {
    let text = resolve_types(&strings(&["sh"]));
    assert!(text.starts_with("sh is "));
    assert!(text.ends_with("/sh"));
}

#[test]
fn exit_code_parsing() {
    let code = |arg: &str| match Cmd::from_parts("exit", vec![arg.to_string()], StdoutTarget::Stdout, StderrTarget::Stderr) {
        Cmd::Exit(c) => c,
        _ => panic!("exit"),
    };
    assert_eq!(code("255"), 255);
    assert_eq!(code("256"), 0);
    assert_eq!(code("+7"), 7);
    assert_eq!(code("-1"), 0);
    assert_eq!(code("007"), 7);
    assert_eq!(code(""), 0);
    assert_eq!(code("+"), 0);
}

#[test]
fn exit_effect_stops_with_its_code() {
    let cmd = Cmd::from_parts("exit", vec!["3".into()], StdoutTarget::Stdout, StderrTarget::Stderr);
    match cmd.effect("ase-test", &Vec::new()) {
        Effect::Finish { result, status } => {
            assert_eq!(result, RunResult::Exit(3));
            assert_eq!(status, 3);
        },
        _ => panic!("exit should finish"),
    }
}

#[test]
fn names_with_a_slash_run_that_path() {
    let cmd = Cmd::from_parts("./run.sh", vec![], StdoutTarget::Stdout, StderrTarget::Stderr);
    let Cmd::Exec { cmd, .. } = cmd else {
        panic!("expected a program")
    };
    assert_eq!(cmd.path.as_deref(), Some("./run.sh"));
    assert_eq!(cmd.program(), "./run.sh");
}

#[test]
fn programs_on_path_are_found() {
    let cmd = Cmd::from_parts("sh", vec![], StdoutTarget::Stdout, StderrTarget::Stderr);
    let Cmd::Exec { cmd, .. } = cmd else {
        panic!("sh should be found on PATH")
    };
    assert!(cmd.path.unwrap().ends_with("/sh"));
}

#[test]
fn failures_are_reported_with_their_status() {
    let cmd = Cmd::from_parts("./nowhere", vec![], StdoutTarget::Stdout, StderrTarget::Stderr);
    let effect = cmd.effect("ase", &Vec::new());
    assert_eq!(effect.on_failure("ase", "boom"), Some(("ase: boom\n".to_string(), 127)));
    let cd = Cmd::from_parts("cd", vec!["/x".into()], StdoutTarget::Stdout, StderrTarget::Stderr);
    let effect = cd.effect("ase", &Vec::new());
    assert_eq!(effect.on_failure("ase", "boom"), Some(("ase: boom\n".to_string(), 1)));
    let ls = Cmd::from_parts("ls", vec![], StdoutTarget::Stdout, StderrTarget::Stderr);
    let effect = ls.effect("ase", &Vec::new());
    assert_eq!(effect.on_failure("ase", "boom"), Some(("ase: ls: boom\n".to_string(), 1)));
    let echo = Cmd::from_parts("echo", vec![], StdoutTarget::Stdout, StderrTarget::Stderr);
    let effect = echo.effect("ase", &Vec::new());
    assert_eq!(effect.on_failure("ase", "boom"), None);
}

#[test]
fn status_bytes() {
    assert_eq!(status_byte(Some(0)), 0);
    assert_eq!(status_byte(Some(300)), 44);
    assert_eq!(status_byte(Some(-1)), 255);
    assert_eq!(status_byte(None), 1);
}

#[test]
fn pipeline_split_and_invalid_pipelines() {
    let segs = split_pipeline(strings(&["ls", "-l", "|", "wc"])).unwrap();
    assert_eq!(segs, vec![strings(&["ls", "-l"]), strings(&["wc"])]);
    assert!(split_pipeline(strings(&["|", "wc"])).is_none());
    assert!(split_pipeline(strings(&["ls", "|"])).is_none());
    assert!(split_pipeline(strings(&["ls", "|", "|", "wc"])).is_none());
    let env = Environment::new();
    let plan = plan_pipeline(strings(&["ls", "|"]), "ase", &env);
    assert_eq!(plan.failure.as_deref(), Some("ase: invalid pipeline"));
}

#[test]
fn pipeline_plan_redirects_only_the_last_stage() {
    let env = Environment::new();
    let plan = plan_pipeline(strings(&["sh", ">", "a", "|", "sh", "2>", "b"]), "ase", &env);
    assert_eq!(plan.failure, None);
    assert_eq!(plan.stages.len(), 2);
    assert_eq!(plan.stages[0].stdout, None);
    assert_eq!(plan.stages[0].stderr, StderrTarget::Stderr);
    assert_eq!(plan.stages[1].stdout, Some(StdoutTarget::Stdout));
    assert_eq!(plan.stages[1].stderr, StderrTarget::Overwrite("b".to_string()));
}

#[test]
fn pipeline_stops_at_a_missing_program() {
    let env = Environment::new();
    let plan = plan_pipeline(strings(&["sh", "|", "no-such-cmd-q", "|", "sh"]), "ase", &env);
    assert_eq!(plan.stages.len(), 1);
    assert_eq!(plan.failure.as_deref(), Some("ase: command not found: no-such-cmd-q"));
}

#[test]
fn history_builtin_respects_count_and_writes_to_file() {
    let env = Environment::new();
    let history = strings(&["ls", "echo a", "echo b"]);
    let cmd = Cmd::from_input("history 2 > /tmp/ase_test_history", &env).unwrap();
    let Effect::Write { to, text } = cmd.effect("ase-test", &history) else {
        panic!("history should write its output")
    };
    assert_eq!(*to, StdoutTarget::Overwrite("/tmp/ase_test_history".to_string()));
    assert!(text.contains("echo a"));
    assert!(text.contains("echo b"));
    assert!(!text.contains("ls"));
}

#[test]
fn path_search_finds_the_name_it_was_given() {
    let found = find_executable("sh").expect("sh is on PATH");
    let text = found.text.expect("a UTF-8 path");
    assert!(text == "sh" || text.ends_with("/sh"));
    assert_eq!(found.shown, text);
    let cat = find_executable("cat").expect("cat is on PATH");
    assert!(cat.text.unwrap().ends_with("/cat"));
    assert!(find_executable("").is_none());
    let cmd = Cmd::from_parts("cat", Vec::new(), StdoutTarget::Stdout, StderrTarget::Stderr);
    let Cmd::Exec { cmd, .. } = cmd else {
        panic!("cat runs a program")
    };
    assert!(cmd.path.unwrap().ends_with("/cat"));
}

#[test]
fn pipeline_stages_run_the_programs_they_name() {
    let env = Environment::new();
    let plan = plan_pipeline(strings(&["cat", "|", "sh"]), "ase", &env);
    assert_eq!(plan.status(5), 5);
    let Program::Found(first) = &plan.stages[0].program else {
        panic!("cat is searched on PATH")
    };
    assert!(first.text.as_ref().unwrap().ends_with("/cat"));
    let Program::Found(second) = &plan.stages[1].program else {
        panic!("sh is searched on PATH")
    };
    assert!(second.text.as_ref().unwrap().ends_with("/sh"));
    let failed = plan_pipeline(strings(&["no-such-cmd-q", "|", "sh"]), "ase", &env);
    assert_eq!(failed.status(0), 127);
}

#[test]
fn effects_settle_with_their_status() {
    let env = Environment::new();
    let history = Vec::new();
    let echo = Cmd::from_input("echo hi", &env).unwrap();
    assert_eq!(echo.effect("ase", &history).settle(9), (RunResult::Continue, 0));
    let exit = Cmd::from_input("exit 3", &env).unwrap();
    assert_eq!(exit.effect("ase", &history).settle(9), (RunResult::Exit(3), 3));
    let unknown = Cmd::from_input("no-such-cmd-q", &env).unwrap();
    assert_eq!(unknown.effect("ase", &history).settle(9), (RunResult::Continue, 127));
    let program = Cmd::from_input("cat", &env).unwrap();
    assert_eq!(program.effect("ase", &history).settle(9), (RunResult::Continue, 9));
}
