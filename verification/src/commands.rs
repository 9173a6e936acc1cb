//! Command parsing and the decisions taken when a command runs.

pub mod builtins;
pub mod columns;
pub mod control;
pub mod effects;
pub mod ls;
pub mod parse;
pub mod pipeline;
pub mod targets;

use vstd::prelude::*;

use crate::bindings::{ends_with_component, found_names, search_path, shell_words, shlex_split, ExecutablePath};
use crate::environment::Environment;
use crate::text::{
    contains_char, decimal, decimal_text, join, join_strings, opt_view, pad_left, parse_unsigned,
    parse_unsigned_exec, push_spaces, spaces, text_eq, trim, trimmed, views,
};
pub use control::{ControlOp, LineAction, LineRun};
pub use parse::{needs_more_input, ParsedInvocation};
use parse::{parsed_from, InvocationView};
pub use targets::{Redirect, StderrTarget, StdoutTarget};

verus! {

/// Whether the shell goes on reading lines, or exits with a status.
#[derive(Debug, PartialEq, Eq, Clone, Copy, Structural)]
pub enum RunResult {
    Continue,
    Exit(u8),
}

/// The names of the shell's builtin commands.
pub open spec fn builtins() -> Seq<Seq<char>> {
    seq!["cd"@, "echo"@, "exit"@, "type"@, "pwd"@, "history"@]
}

/// Whether `name` is the name of a builtin command.
pub open spec fn is_builtin_name(name: Seq<char>) -> bool {
    ||| name == "cd"@
    ||| name == "echo"@
    ||| name == "exit"@
    ||| name == "type"@
    ||| name == "pwd"@
    ||| name == "history"@
}

/// The names of the builtin commands are exactly those in `builtins()`.
pub proof fn lemma_builtins_listed(name: Seq<char>)
    ensures
        is_builtin_name(name) <==> builtins().contains(name),
{
    if is_builtin_name(name) {
        let b = builtins();
        if name == "cd"@ {
            assert(b[0] == name);
        } else if name == "echo"@ {
            assert(b[1] == name);
        } else if name == "exit"@ {
            assert(b[2] == name);
        } else if name == "type"@ {
            assert(b[3] == name);
        } else if name == "pwd"@ {
            assert(b[4] == name);
        } else {
            assert(b[5] == name);
        }
    }
}

/// The names of the builtin commands, in the order `builtins()` lists them.
pub fn builtin_names() -> (r: Vec<String>)
    ensures
        views(r@) == builtins(),
{
    let r = vec![
        String::from_str("cd"),
        String::from_str("echo"),
        String::from_str("exit"),
        String::from_str("type"),
        String::from_str("pwd"),
        String::from_str("history"),
    ];
    assert(views(r@) =~= builtins());
    r
}

/// Whether `name` is a builtin command of the shell.
pub fn is_builtin(name: &str) -> (r: bool)
    ensures
        r == is_builtin_name(name@),
{
    text_eq(name, "cd") || text_eq(name, "echo") || text_eq(name, "exit") || text_eq(name, "type")
        || text_eq(name, "pwd") || text_eq(name, "history")
}

/// A command: its name, the path of the program that runs it (if one was
/// resolved), and its arguments.
#[derive(Debug, PartialEq, Clone)]
pub struct Command {
    pub name: String,
    pub path: Option<String>,
    pub args: Vec<String>,
}

/// The model of a `Command`.
pub struct CommandView {
    pub name: Seq<char>,
    pub path: Option<Seq<char>>,
    pub args: Seq<Seq<char>>,
}

impl View for Command {
    type V = CommandView;

    open spec fn view(&self) -> CommandView {
        CommandView { name: self.name@, path: opt_view(self.path), args: views(self.args@) }
    }
}

impl Command {
    pub fn new(name: &str, path: Option<String>, args: Vec<String>) -> (r: Self)
        ensures
            r@ == (CommandView { name: name@, path: opt_view(path), args: views(args@) }),
    {
        Command { name: String::from_str(name), path, args }
    }

    /// The program that runs the command: its resolved path, or else its
    /// name.
    pub fn program(&self) -> (r: &str)
        ensures
            r@ == match self.path {
                Some(p) => p@,
                None => self.name@,
            },
    {
        match &self.path {
            Some(p) => p.as_str(),
            None => self.name.as_str(),
        }
    }
}

/// A parsed command line, ready to run.
#[derive(Debug, PartialEq, Clone)]
pub enum Cmd {
    Cd { cmd: Command, stderr: StderrTarget },
    Echo { cmd: Command, stdout: StdoutTarget, stderr: StderrTarget },
    Exit(u8),
    Type { cmd: Command, stdout: StdoutTarget, stderr: StderrTarget },
    Exec { cmd: Command, stdout: StdoutTarget, stderr: StderrTarget },
    Pwd { stdout: StdoutTarget, stderr: StderrTarget },
    History { cmd: Command, stdout: StdoutTarget, stderr: StderrTarget },
    Ls { cmd: Command, stdout: StdoutTarget, stderr: StderrTarget },
    Unknown { cmd: Command, stderr: StderrTarget },
}

/// The model of a `Cmd`.
pub enum CmdView {
    Cd { cmd: CommandView, stderr: Redirect },
    Echo { cmd: CommandView, stdout: Redirect, stderr: Redirect },
    Exit(u8),
    Type { cmd: CommandView, stdout: Redirect, stderr: Redirect },
    Exec { cmd: CommandView, stdout: Redirect, stderr: Redirect },
    Pwd { stdout: Redirect, stderr: Redirect },
    History { cmd: CommandView, stdout: Redirect, stderr: Redirect },
    Ls { cmd: CommandView, stdout: Redirect, stderr: Redirect },
    Unknown { cmd: CommandView, stderr: Redirect },
}

impl View for Cmd {
    type V = CmdView;

    open spec fn view(&self) -> CmdView {
        match self {
            Cmd::Cd { cmd, stderr } => CmdView::Cd { cmd: cmd@, stderr: stderr@ },
            Cmd::Echo { cmd, stdout, stderr } => CmdView::Echo {
                cmd: cmd@,
                stdout: stdout@,
                stderr: stderr@,
            },
            Cmd::Exit(code) => CmdView::Exit(*code),
            Cmd::Type { cmd, stdout, stderr } => CmdView::Type {
                cmd: cmd@,
                stdout: stdout@,
                stderr: stderr@,
            },
            Cmd::Exec { cmd, stdout, stderr } => CmdView::Exec {
                cmd: cmd@,
                stdout: stdout@,
                stderr: stderr@,
            },
            Cmd::Pwd { stdout, stderr } => CmdView::Pwd { stdout: stdout@, stderr: stderr@ },
            Cmd::History { cmd, stdout, stderr } => CmdView::History {
                cmd: cmd@,
                stdout: stdout@,
                stderr: stderr@,
            },
            Cmd::Ls { cmd, stdout, stderr } => CmdView::Ls {
                cmd: cmd@,
                stdout: stdout@,
                stderr: stderr@,
            },
            Cmd::Unknown { cmd, stderr } => CmdView::Unknown { cmd: cmd@, stderr: stderr@ },
        }
    }
}

/// The exit code that `exit` takes from its arguments: the first argument
/// read as a number from 0 to 255, or 0 when it is missing or is no such
/// number.
pub open spec fn exit_code(args: Seq<Seq<char>>) -> u8 {
    if args.len() > 0 {
        match parse_unsigned(args[0], 255) {
            Some(v) => v as u8,
            None => 0,
        }
    } else {
        0
    }
}

/// Whether building a command named `name` asks `PATH` where its program
/// is: a name that is no builtin, not `ls`, not empty and holds no `/`.
pub open spec fn needs_lookup(name: Seq<char>) -> bool {
    &&& !is_builtin_name(name)
    &&& name != "ls"@
    &&& name.len() > 0
    &&& !name.contains('/')
}

/// The command that `Cmd::from_parts` builds, where `found` is the path text
/// that a search of `PATH` gave for the name (`None`: nothing found). The
/// builtins keep their arguments; `exit` reads its code from them; a name
/// with a `/` runs the program at that path; any other name runs what
/// `PATH` found, or is unknown.
pub open spec fn cmd_from_parts(
    name: Seq<char>,
    args: Seq<Seq<char>>,
    stdout: Redirect,
    stderr: Redirect,
    found: Option<Seq<char>>,
) -> CmdView {
    let plain = CommandView { name, path: None, args };
    if name == "cd"@ {
        CmdView::Cd { cmd: plain, stderr }
    } else if name == "exit"@ {
        CmdView::Exit(exit_code(args))
    } else if name == "echo"@ {
        CmdView::Echo { cmd: plain, stdout, stderr }
    } else if name == "history"@ {
        CmdView::History { cmd: plain, stdout, stderr }
    } else if name == "type"@ {
        CmdView::Type { cmd: plain, stdout, stderr }
    } else if name == "pwd"@ {
        CmdView::Pwd { stdout, stderr }
    } else if name == "ls"@ {
        CmdView::Ls { cmd: plain, stdout, stderr }
    } else if name.contains('/') {
        CmdView::Exec { cmd: CommandView { name, path: Some(name), args }, stdout, stderr }
    } else {
        match found {
            Some(p) => CmdView::Exec {
                cmd: CommandView { name, path: Some(p), args },
                stdout,
                stderr,
            },
            None => CmdView::Unknown { cmd: plain, stderr },
        }
    }
}

/// Whether `found` can be the path text that a search of `PATH` for `name`
/// gave: nothing found, the empty text (for a path that is not valid
/// UTF-8), or a path that names `name` inside a directory.
pub open spec fn found_for(name: Seq<char>, found: Option<Seq<char>>) -> bool {
    match found {
        Some(p) => p.len() == 0 || ends_with_component(p, name),
        None => true,
    }
}

/// Whether `cmd` is a command that `Cmd::from_parts` can build from these
/// parts: exactly `cmd_from_parts(.., None)` for a name that needs no
/// `PATH` search; for one that does, the command that runs what the search
/// for that name found, or an unknown command.
pub open spec fn built_from(
    name: Seq<char>,
    args: Seq<Seq<char>>,
    stdout: Redirect,
    stderr: Redirect,
    cmd: CmdView,
) -> bool {
    if needs_lookup(name) {
        exists|found: Option<Seq<char>>|
            found_for(name, found) && cmd == cmd_from_parts(name, args, stdout, stderr, found)
    } else {
        cmd == cmd_from_parts(name, args, stdout, stderr, None)
    }
}

/// Whether the (trimmed) line `t` names a command: it is not blank, and
/// splits into one or more words.
pub open spec fn has_words(t: Seq<char>) -> bool {
    t.len() > 0 && match shell_words(t) {
        Some(w) => w.len() > 0,
        None => false,
    }
}

/// The path text that a `PATH` search result gives a command: the path's
/// text, or the empty text where the path is not valid UTF-8.
pub open spec fn found_text(found: Option<ExecutablePath>) -> Option<Seq<char>> {
    match found {
        Some(e) => Some(
            match e.text {
                Some(t) => t@,
                None => Seq::empty(),
            },
        ),
        None => None,
    }
}

/// Look `cmd` up on `PATH`: a program found there is named `cmd` inside
/// one of its directories; an empty name is never found.
pub fn find_executable(cmd: &str) -> (r: Option<ExecutablePath>)
    ensures
        cmd@.len() == 0 ==> r is None,
        r matches Some(e) ==> found_names(e, cmd@),
{
    if cmd.is_empty() {
        return None;
    }
    search_path(cmd)
}

/// The exit code that `exit` takes from its arguments.
fn exit_code_exec(args: &Vec<String>) -> (r: u8)
    ensures
        r == exit_code(views(args@)),
{
    if args.len() > 0 {
        match parse_unsigned_exec(args[0].as_str(), 255) {
            Some(v) => v as u8,
            None => 0,
        }
    } else {
        0
    }
}

impl Cmd {
    /// The command named `cmd_name`, where `found` is what a search of
    /// `PATH` for that name gave. `found` is read only for a name that
    /// `needs_lookup`.
    pub fn from_lookup(
        cmd_name: &str,
        args: Vec<String>,
        stdout: StdoutTarget,
        stderr: StderrTarget,
        found: Option<ExecutablePath>,
    ) -> (r: Self)
        ensures
            r@ == cmd_from_parts(cmd_name@, views(args@), stdout@, stderr@, found_text(found)),
    {
        if text_eq(cmd_name, "cd") {
            Cmd::Cd { cmd: Command::new(cmd_name, None, args), stderr }
        } else if text_eq(cmd_name, "exit") {
            Cmd::Exit(exit_code_exec(&args))
        } else if text_eq(cmd_name, "echo") {
            Cmd::Echo { cmd: Command::new(cmd_name, None, args), stdout, stderr }
        } else if text_eq(cmd_name, "history") {
            Cmd::History { cmd: Command::new(cmd_name, None, args), stdout, stderr }
        } else if text_eq(cmd_name, "type") {
            Cmd::Type { cmd: Command::new(cmd_name, None, args), stdout, stderr }
        } else if text_eq(cmd_name, "pwd") {
            Cmd::Pwd { stdout, stderr }
        } else if text_eq(cmd_name, "ls") {
            Cmd::Ls { cmd: Command::new(cmd_name, None, args), stdout, stderr }
        } else if contains_char(cmd_name, '/') {
            Cmd::Exec {
                cmd: Command::new(cmd_name, Some(String::from_str(cmd_name)), args),
                stdout,
                stderr,
            }
        } else {
            match found {
                Some(e) => {
                    let text = match e.text {
                        Some(t) => t,
                        None => String::new(),
                    };
                    Cmd::Exec { cmd: Command::new(cmd_name, Some(text), args), stdout, stderr }
                },
                None => Cmd::Unknown { cmd: Command::new(cmd_name, None, args), stderr },
            }
        }
    }

    /// The command named `cmd_name` with `args` and the given redirections.
    /// A name that `needs_lookup` is searched for on `PATH`: the command
    /// then runs the program found there, or is unknown. Every other name
    /// gives exactly `cmd_from_parts(.., None)`.
    pub fn from_parts(
        cmd_name: &str,
        args: Vec<String>,
        stdout: StdoutTarget,
        stderr: StderrTarget,
    ) -> (r: Self)
        ensures
            built_from(cmd_name@, views(args@), stdout@, stderr@, r@),
            needs_lookup(cmd_name@) && r@ is Exec ==> (r@->Exec_cmd.path matches Some(p) && (p.len()
                == 0 || ends_with_component(p, cmd_name@))),
    {
        let needs = !is_builtin(cmd_name) && !text_eq(cmd_name, "ls") && !contains_char(
            cmd_name,
            '/',
        );
        let found = if needs {
            find_executable(cmd_name)
        } else {
            None
        };
        let ghost found_view = found_text(found);
        let r = Self::from_lookup(cmd_name, args, stdout, stderr, found);
        proof {
            if !needs_lookup(cmd_name@) && cmd_name@.len() == 0 {
                assert(found is None);
            }
            if needs_lookup(cmd_name@) {
                assert(found_for(cmd_name@, found_view));
                assert(r@ == cmd_from_parts(cmd_name@, views(args@), stdout@, stderr@, found_view));
            }
        }
        r
    }

    /// The command that the line `raw` names: `None` for a blank line, one
    /// whose words cannot be split, or one with no words. Otherwise the
    /// words are read by `ParsedInvocation::from_tokens` and the command is
    /// built by `Cmd::from_parts`.
    pub fn from_input(raw: &str, env: &Environment) -> (r: Option<Self>)
        ensures
            r is Some <==> has_words(trim(raw@)),
            r matches Some(c) ==> exists|inv: InvocationView|
                parsed_from(shell_words(trim(raw@))->0, env@, inv) && built_from(
                    inv.cmd_name,
                    inv.args,
                    inv.stdout,
                    inv.stderr,
                    c@,
                ),
    {
        let line = trimmed(raw);
        if line.as_str().is_empty() {
            return None;
        }
        let tokens = match shlex_split(line.as_str()) {
            Some(t) => t,
            None => Vec::new(),
        };
        if tokens.len() == 0 {
            return None;
        }
        let ghost words = views(tokens@);
        assert(words =~= tokens.deep_view());
        match ParsedInvocation::from_tokens(tokens, env) {
            Some(inv) => {
                let ghost iv = inv@;
                let c = Self::from_parts(inv.cmd_name.as_str(), inv.args, inv.stdout, inv.stderr);
                assert(parsed_from(words, env@, iv));
                Some(c)
            },
            None => None,
        }
    }

    /// Whether this is `cd`.
    pub fn is_cd(&self) -> (r: bool)
        ensures
            r == self@ is Cd,
    {
        matches!(self, Cmd::Cd { .. })
    }

    /// Whether this is `echo`.
    pub fn is_echo(&self) -> (r: bool)
        ensures
            r == self@ is Echo,
    {
        matches!(self, Cmd::Echo { .. })
    }

    /// Whether this is `exit`.
    pub fn is_exit(&self) -> (r: bool)
        ensures
            r == self@ is Exit,
    {
        matches!(self, Cmd::Exit(_))
    }

    /// Whether this is `type`.
    pub fn is_type(&self) -> (r: bool)
        ensures
            r == self@ is Type,
    {
        matches!(self, Cmd::Type { .. })
    }

    /// Whether this runs a program.
    pub fn is_exec(&self) -> (r: bool)
        ensures
            r == self@ is Exec,
    {
        matches!(self, Cmd::Exec { .. })
    }

    /// Whether this is `pwd`.
    pub fn is_pwd(&self) -> (r: bool)
        ensures
            r == self@ is Pwd,
    {
        matches!(self, Cmd::Pwd { .. })
    }

    /// Whether this is `history`.
    pub fn is_history(&self) -> (r: bool)
        ensures
            r == self@ is History,
    {
        matches!(self, Cmd::History { .. })
    }

    /// Whether this is `ls`.
    pub fn is_ls(&self) -> (r: bool)
        ensures
            r == self@ is Ls,
    {
        matches!(self, Cmd::Ls { .. })
    }

    /// Whether this is an unknown command.
    pub fn is_unknown(&self) -> (r: bool)
        ensures
            r == self@ is Unknown,
    {
        matches!(self, Cmd::Unknown { .. })
    }

    /// The exit code, for `exit`.
    pub fn try_as_exit(&self) -> (r: Option<u8>)
        ensures
            match self@ {
                CmdView::Exit(c) => r == Some(c),
                _ => r is None,
            },
    {
        match self {
            Cmd::Exit(c) => Some(*c),
            _ => None,
        }
    }
}

} // verus!
