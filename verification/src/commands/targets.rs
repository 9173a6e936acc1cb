//! Where a command's standard output and standard error go.

use vstd::prelude::*;

verus! {

/// Where a command's standard output goes.
#[derive(Debug, PartialEq, Clone)]
pub enum StdoutTarget {
    /// The shell's own standard output.
    Stdout,
    /// The file at this path, truncated first (`>`, `1>`).
    Overwrite(String),
    /// The end of the file at this path, created if missing (`>>`, `1>>`).
    Append(String),
}

/// Where a command's standard error goes.
#[derive(Debug, PartialEq, Clone)]
pub enum StderrTarget {
    /// The shell's own standard error.
    Stderr,
    /// The file at this path, truncated first (`2>`).
    Overwrite(String),
    /// The end of the file at this path, created if missing (`2>>`).
    Append(String),
}

/// The model of a redirection: the stream stays where it is, or goes to a
/// file (truncated, or appended to) at a path.
pub enum Redirect {
    Inherit,
    Overwrite(Seq<char>),
    Append(Seq<char>),
}

impl View for StdoutTarget {
    type V = Redirect;

    open spec fn view(&self) -> Redirect {
        match self {
            StdoutTarget::Stdout => Redirect::Inherit,
            StdoutTarget::Overwrite(p) => Redirect::Overwrite(p@),
            StdoutTarget::Append(p) => Redirect::Append(p@),
        }
    }
}

impl View for StderrTarget {
    type V = Redirect;

    open spec fn view(&self) -> Redirect {
        match self {
            StderrTarget::Stderr => Redirect::Inherit,
            StderrTarget::Overwrite(p) => Redirect::Overwrite(p@),
            StderrTarget::Append(p) => Redirect::Append(p@),
        }
    }
}

} // verus!
