//! What running a command does: the decisions of each builtin and of a
//! program run, and how a command line's part is run.

use vstd::prelude::*;

use crate::bindings::{shell_words, shlex_split};
use crate::commands::builtins::{echo_args, history_output, history_text, resolve_types, types_fit};
use crate::commands::parse::{parsed_from, InvocationView};
use crate::commands::targets::{Redirect, StderrTarget, StdoutTarget};
use crate::commands::{built_from, has_words, Cmd, CmdView, Command, CommandView, RunResult};
use crate::environment::Environment;
use crate::text::{join, text_eq, trim, trimmed, views};

verus! {

/// What running a command does, for the caller to carry out. After it
/// succeeds, the status is 0, except where the effect gives one (`Finish`,
/// `Report`) or a program ran (`Spawn`, whose exit status counts).
pub enum Effect<'a> {
    /// Stop with this result and status.
    Finish { result: RunResult, status: u8 },
    /// Write `text` to standard output or where it is redirected.
    Write { to: &'a StdoutTarget, text: String },
    /// Run the program of `cmd` with its arguments and redirections.
    Spawn { cmd: &'a Command, stdout: &'a StdoutTarget, stderr: &'a StderrTarget },
    /// Change the working directory to `target`.
    ChangeDir { target: String, stderr: &'a StderrTarget },
    /// Write the working directory, and a newline.
    PrintCwd { to: &'a StdoutTarget },
    /// List the directories and files that `args` name.
    List { args: &'a Vec<String>, stdout: &'a StdoutTarget, stderr: &'a StderrTarget },
    /// Write `text` to standard error or where it is redirected, and end
    /// with `status`.
    Report { to: &'a StderrTarget, text: String, status: u8 },
}

/// The model of an `Effect`.
pub enum EffectView {
    Finish { result: RunResult, status: u8 },
    Write { to: Redirect, text: Seq<char> },
    Spawn { cmd: CommandView, stdout: Redirect, stderr: Redirect },
    ChangeDir { target: Seq<char>, stderr: Redirect },
    PrintCwd { to: Redirect },
    List { args: Seq<Seq<char>>, stdout: Redirect, stderr: Redirect },
    Report { to: Redirect, text: Seq<char>, status: u8 },
}

impl<'a> View for Effect<'a> {
    type V = EffectView;

    open spec fn view(&self) -> EffectView {
        match self {
            Effect::Finish { result, status } => EffectView::Finish {
                result: *result,
                status: *status,
            },
            Effect::Write { to, text } => EffectView::Write { to: to@, text: text@ },
            Effect::Spawn { cmd, stdout, stderr } => EffectView::Spawn {
                cmd: cmd@,
                stdout: stdout@,
                stderr: stderr@,
            },
            Effect::ChangeDir { target, stderr } => EffectView::ChangeDir {
                target: target@,
                stderr: stderr@,
            },
            Effect::PrintCwd { to } => EffectView::PrintCwd { to: to@ },
            Effect::List { args, stdout, stderr } => EffectView::List {
                args: views(args@),
                stdout: stdout@,
                stderr: stderr@,
            },
            Effect::Report { to, text, status } => EffectView::Report {
                to: to@,
                text: text@,
                status: *status,
            },
        }
    }
}

/// The directory that `cd` goes to: its first argument, or the empty text
/// (for `HOME`) when it has none.
pub open spec fn cd_target(args: Seq<Seq<char>>) -> Seq<char> {
    if args.len() > 0 {
        args[0]
    } else {
        Seq::empty()
    }
}

/// What a command does: `exit` stops with its code; `echo` and `history`
/// write what they print; `type` writes `types`, the lines that describe
/// its names (which depend on `PATH`, see `types_fit`), and a newline; a
/// program is run; `cd` changes to its target; `pwd` writes the working
/// directory; `ls` lists; an unknown command is reported with status 127.
pub open spec fn effect_of(
    cmd: CmdView,
    shell_name: Seq<char>,
    history: Seq<Seq<char>>,
    types: Seq<char>,
) -> EffectView {
    match cmd {
        CmdView::Exit(c) => EffectView::Finish { result: RunResult::Exit(c), status: c },
        CmdView::Echo { cmd, stdout, stderr } => EffectView::Write {
            to: stdout,
            text: join(cmd.args, " "@) + "\n"@,
        },
        CmdView::History { cmd, stdout, stderr } => EffectView::Write {
            to: stdout,
            text: history_output(cmd.args, history),
        },
        CmdView::Exec { cmd, stdout, stderr } => EffectView::Spawn { cmd, stdout, stderr },
        CmdView::Cd { cmd, stderr } => EffectView::ChangeDir { target: cd_target(cmd.args), stderr },
        CmdView::Pwd { stdout, stderr } => EffectView::PrintCwd { to: stdout },
        CmdView::Ls { cmd, stdout, stderr } => EffectView::List { args: cmd.args, stdout, stderr },
        CmdView::Unknown { cmd, stderr } => EffectView::Report {
            to: stderr,
            text: shell_name + ": command not found: "@ + cmd.name + "\n"@,
            status: 127,
        },
        CmdView::Type { cmd, stdout, stderr } => EffectView::Write { to: stdout, text: types + "\n"@ },
    }
}

impl Cmd {
    /// What running this command does. `history` is the session's history,
    /// which `history` prints; `shell_name` starts the shell's messages.
    pub fn effect<'a>(&'a self, shell_name: &str, history: &Vec<String>) -> (r: Effect<'a>)
        ensures
            exists|types: Seq<char>|
                {
                    &&& (self@ matches CmdView::Type { cmd, .. } ==> types_fit(cmd.args, types))
                    &&& r@ == effect_of(self@, shell_name@, views(history@), types)
                },
    {
        let ghost mut types: Seq<char> = Seq::empty();
        let r = match self {
            Cmd::Exit(c) => Effect::Finish { result: RunResult::Exit(*c), status: *c },
            Cmd::Echo { cmd, stdout, stderr: _ } => Effect::Write {
                to: stdout,
                text: echo_args(&cmd.args),
            },
            Cmd::Type { cmd, stdout, stderr: _ } => {
                let mut text = resolve_types(&cmd.args);
                proof {
                    types = text@;
                }
                text.append("\n");
                Effect::Write { to: stdout, text }
            },
            Cmd::History { cmd, stdout, stderr: _ } => Effect::Write {
                to: stdout,
                text: history_text(&cmd.args, history),
            },
            Cmd::Exec { cmd, stdout, stderr } => Effect::Spawn { cmd, stdout, stderr },
            Cmd::Cd { cmd, stderr } => {
                let target = if cmd.args.len() > 0 {
                    cmd.args[0].clone()
                } else {
                    String::new()
                };
                Effect::ChangeDir { target, stderr }
            },
            Cmd::Pwd { stdout, stderr: _ } => Effect::PrintCwd { to: stdout },
            Cmd::Ls { cmd, stdout, stderr } => Effect::List { args: &cmd.args, stdout, stderr },
            Cmd::Unknown { cmd, stderr } => {
                let mut text = String::from_str(shell_name);
                text.append(": command not found: ");
                text.append(cmd.name.as_str());
                text.append("\n");
                Effect::Report { to: stderr, text, status: 127 }
            },
        };
        assert(r@ == effect_of(self@, shell_name@, views(history@), types));
        r
    }
}

/// The result and status that a part ends with once the effect `e` was
/// carried out without failing, where `ran` is the exit status of the
/// program that `Spawn` ran: `Finish` gives its own; a program gives its
/// exit status; `Report` gives its status; any other effect gives 0. Only
/// `Finish` can stop the shell.
pub open spec fn settled(e: EffectView, ran: u8) -> (RunResult, u8) {
    match e {
        EffectView::Finish { result, status } => (result, status),
        EffectView::Spawn { .. } => (RunResult::Continue, ran),
        EffectView::Report { status, .. } => (RunResult::Continue, status),
        _ => (RunResult::Continue, 0),
    }
}

impl<'a> Effect<'a> {
    /// The result and status that a part ends with once this effect was
    /// carried out without failing; `ran` is the exit status of the
    /// program, for `Spawn`.
    pub fn settle(&self, ran: u8) -> (r: (RunResult, u8))
        ensures
            r == settled(self@, ran),
    {
        match self {
            Effect::Finish { result, status } => (*result, *status),
            Effect::Spawn { .. } => (RunResult::Continue, ran),
            Effect::Report { status, .. } => (RunResult::Continue, *status),
            _ => (RunResult::Continue, 0),
        }
    }
}

/// Whether the failure of an effect is reported (rather than ending the
/// line with an error): that of running a program, of `cd`, or of `ls`.
pub open spec fn failure_is_reported(e: EffectView) -> bool {
    e is Spawn || e is ChangeDir || e is List
}

/// What is written to standard error (or where it is redirected) when an
/// effect fails with the message `err`, and the status it ends with: a
/// program that could not run gives 127, a failed `cd` or `ls` gives 1.
pub open spec fn failure_report(e: EffectView, shell_name: Seq<char>, err: Seq<char>) -> (Seq<char>, u8) {
    match e {
        EffectView::Spawn { .. } => (shell_name + ": "@ + err + "\n"@, 127),
        EffectView::ChangeDir { .. } => (shell_name + ": "@ + err + "\n"@, 1),
        _ => (shell_name + ": ls: "@ + err + "\n"@, 1),
    }
}

impl<'a> Effect<'a> {
    /// What is reported, and the status, when this effect fails with the
    /// message `err` (the part then ends with `RunResult::Continue` and that
    /// status); `None` for an effect whose failure ends the line with an
    /// error instead.
    pub fn on_failure(&self, shell_name: &str, err: &str) -> (r: Option<(String, u8)>)
        ensures
            match r {
                Some((text, status)) => failure_is_reported(self@) && (text@, status)
                    == failure_report(self@, shell_name@, err@),
                None => !failure_is_reported(self@),
            },
    {
        let (middle, status) = match self {
            Effect::Spawn { .. } => (": ", 127u8),
            Effect::ChangeDir { .. } => (": ", 1u8),
            Effect::List { .. } => (": ls: ", 1u8),
            _ => {
                return None;
            },
        };
        let mut text = String::from_str(shell_name);
        text.append(middle);
        text.append(err);
        text.append("\n");
        Some((text, status))
    }
}

/// The status byte of a program that ended with exit code `code`: its low
/// eight bits, or 1 for a program that was stopped by a signal (no code).
pub open spec fn status_of(code: Option<i32>) -> u8 {
    match code {
        Some(c) => (c & 0xff) as u8,
        None => 1,
    }
}

/// The status byte of a program that ended with exit code `code`.
pub fn status_byte(code: Option<i32>) -> (r: u8)
    ensures
        r == status_of(code),
{
    match code {
        Some(c) => (c & 0xff) as u8,
        None => 1,
    }
}

/// How one part of a command line runs.
pub enum PartPlan {
    /// Nothing runs: the status is 0.
    Nothing,
    /// A pipeline of these words runs.
    Pipeline(Vec<String>),
    /// This command runs.
    Single(Cmd),
}

/// Whether the words hold a `|` word.
pub open spec fn has_pipe(words: Seq<Seq<char>>) -> bool {
    words.contains("|"@)
}

/// How the part `raw` of a command line runs: a blank part, one whose
/// words cannot be split, or one with no words, runs nothing; words with a
/// `|` word run as a pipeline; any other words run as one command.
pub fn plan_part(raw: &str, env: &Environment) -> (r: PartPlan)
    ensures
        !has_words(trim(raw@)) ==> r is Nothing,
        has_words(trim(raw@)) && has_pipe(shell_words(trim(raw@))->0) ==> (r matches PartPlan::Pipeline(
            ts,
        ) && views(ts@) == shell_words(trim(raw@))->0),
        has_words(trim(raw@)) && !has_pipe(shell_words(trim(raw@))->0) ==> (r matches PartPlan::Single(
            c,
        ) && exists|inv: InvocationView|
            parsed_from(shell_words(trim(raw@))->0, env@, inv) && built_from(
                inv.cmd_name,
                inv.args,
                inv.stdout,
                inv.stderr,
                c@,
            )),
{
    let line = trimmed(raw);
    if line.as_str().is_empty() {
        return PartPlan::Nothing;
    }
    let tokens = match shlex_split(line.as_str()) {
        Some(t) => t,
        None => {
            return PartPlan::Nothing;
        },
    };
    if tokens.len() == 0 {
        return PartPlan::Nothing;
    }
    let ghost words = views(tokens@);
    assert(words =~= tokens.deep_view());
    let mut i: usize = 0;
    while i < tokens.len()
        invariant
            i <= tokens@.len(),
            words == views(tokens@),
            line@ == trim(raw@),
            line@.len() > 0,
            shell_words(line@) == Some(words),
            words.len() > 0,
            forall|k: int| 0 <= k < i ==> words[k] != "|"@,
        decreases tokens@.len() - i,
    {
        if text_eq(tokens[i].as_str(), "|") {
            assert(words[i as int] == "|"@);
            return PartPlan::Pipeline(tokens);
        }
        i = i + 1;
    }
    assert(!words.contains("|"@));
    match Cmd::from_input(raw, env) {
        Some(c) => PartPlan::Single(c),
        None => PartPlan::Nothing,
    }
}

/// The directory that `cd` changes to for the argument `target`: `HOME`
/// for no argument (the empty target) or `~`, where `HOME` is set; the
/// target itself otherwise. `None`: `HOME` is needed and not set.
pub open spec fn cd_destination_of(target: Seq<char>, env: Map<Seq<char>, Seq<char>>) -> Option<Seq<char>> {
    if target.len() == 0 || target == "~"@ {
        if env.contains_key("HOME"@) {
            Some(env["HOME"@])
        } else {
            None
        }
    } else {
        Some(target)
    }
}

/// `cd` with no argument, or with `~`, goes to `HOME` whenever `HOME` is
/// set; with any other argument it goes to that argument, whatever the
/// environment holds.
pub proof fn law_cd_goes_home(target: Seq<char>, env: Map<Seq<char>, Seq<char>>)
    ensures
        env.contains_key("HOME"@) ==> cd_destination_of(Seq::empty(), env) == Some(env["HOME"@]),
        env.contains_key("HOME"@) ==> cd_destination_of("~"@, env) == Some(env["HOME"@]),
        !env.contains_key("HOME"@) ==> cd_destination_of(Seq::empty(), env) is None,
        target.len() > 0 && target != "~"@ ==> cd_destination_of(target, env) == Some(target),
{
}

/// The directory that `cd` changes to for the argument `target`.
pub fn cd_destination(target: &str, env: &Environment) -> (r: Option<String>)
    ensures
        match cd_destination_of(target@, env@) {
            Some(d) => r matches Some(s) && s@ == d,
            None => r is None,
        },
{
    if target.is_empty() || text_eq(target, "~") {
        env.get("HOME")
    } else {
        Some(String::from_str(target))
    }
}

/// What `cd` prints (on standard output, ending with status 0) when its
/// target does not exist.
pub fn cd_missing_message(target: &str) -> (r: String)
    ensures
        r@ == "cd: "@ + target@ + ": No such file or directory\n"@,
{
    let mut r = String::from_str("cd: ");
    r.append(target);
    r.append(": No such file or directory\n");
    r
}

} // verus!
