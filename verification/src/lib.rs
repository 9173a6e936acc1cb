//! A small interactive Unix shell: the parsing, planning and formatting
//! rules of the shell, each stated and proved.

pub mod bindings;
pub mod commands;
pub mod environment;
pub mod paths;
pub mod repl;
pub mod sorting;
pub mod text;
pub mod utils;

use vstd::prelude::*;

verus! {

/// The shell's name, which starts its prompt and its messages.
pub const SHELL_NAME: &'static str = "\u{e0}\u{1e63}\u{1eb9}";

} // verus!
