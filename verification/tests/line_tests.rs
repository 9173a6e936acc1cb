use ase_shell::commands::control::{LineAction, LineRun};
use ase_shell::commands::RunResult;

fn run(mut line: LineRun, statuses: &[u8]) -> (Vec<String>, RunResult) {
    let mut ran = Vec::new();
    let mut i = 0;
    loop {
        match line.next_action() {
            LineAction::Run(part) => {
                ran.push(part);
                let status = statuses[i];
                i += 1;
                line.record(RunResult::Continue, status);
            },
            LineAction::Done(result) => return (ran, result),
        }
    }
}

#[test]
fn control_and_and_runs_second_only_on_success() {
    let (ran, result) = run(LineRun::new("echo first > f && echo second >> f"), &[0, 0]);
    assert_eq!(ran, vec!["echo first > f", "echo second >> f"]);
    assert_eq!(result, RunResult::Continue);
}

#[test]
fn control_and_and_skips_on_failure() {
    let (ran, result) = run(LineRun::new("no-such-cmd-xyz && echo should-not-run > f"), &[127]);
    assert_eq!(ran, vec!["no-such-cmd-xyz"]);
    assert_eq!(result, RunResult::Continue);
}

#[test]
fn control_or_or_runs_on_failure() {
    let (ran, _) = run(LineRun::new("no-such-cmd-xyz || echo ran-after-failure > f"), &[127, 0]);
    assert_eq!(ran, vec!["no-such-cmd-xyz", "echo ran-after-failure > f"]);
}

#[test]
fn control_or_or_skips_on_success() {
    let (ran, _) = run(LineRun::new("echo ok || echo should-not-run > f"), &[0]);
    assert_eq!(ran, vec!["echo ok"]);
}

#[test]
fn semicolon_always_runs_both() {
    let (ran, _) = run(LineRun::new("echo one > f; echo two >> f"), &[1, 0]);
    assert_eq!(ran, vec!["echo one > f", "echo two >> f"]);
}

#[test]
fn or_or_after_success_passes_over_the_rest_of_the_segment() {
    let (ran, _) = run(LineRun::new("a || b && c; d"), &[0, 0]);
    assert_eq!(ran, vec!["a", "d"]);
}

#[test]
fn and_and_after_failure_keeps_the_status() {
    let (ran, _) = run(LineRun::new("a && b || c"), &[1, 0]);
    assert_eq!(ran, vec!["a", "c"]);
}

#[test]
fn blank_lines_and_parts_run_nothing() {
    let (ran, result) = run(LineRun::new("   "), &[]);
    assert!(ran.is_empty());
    assert_eq!(result, RunResult::Continue);
    let (ran, _) = run(LineRun::new(";; a ;"), &[0]);
    assert_eq!(ran, vec!["a"]);
}

#[test]
fn exit_stops_the_line() {
    let mut line = LineRun::new("exit 3; echo after");
    assert_eq!(line.next_action(), LineAction::Run("exit 3".to_string()));
    line.record(RunResult::Exit(3), 3);
    assert_eq!(line.next_action(), LineAction::Done(RunResult::Exit(3)));
}
