//! The prompt, and the Git branch that it shows: where the Git directory
//! is looked for, and what its `HEAD` file names.

use vstd::prelude::*;

use crate::bindings::{path_parent, path_parent_of};
use crate::paths::{file_name, file_name_of};
use crate::text::{chars_of, owned_substring, starts_with, text_starts_with, trim, trimmed, views};

verus! {

/// The branch that a Git `HEAD` file names: for `ref: <path>`, the file
/// name of the path; for a detached `HEAD`, the first seven characters of
/// the commit id; nothing for an empty file. Surrounding whitespace is
/// ignored.
pub open spec fn head_branch(contents: Seq<char>) -> Option<Seq<char>> {
    let t = trim(contents);
    if starts_with(t, "ref:"@) {
        file_name(trim(t.skip(4)))
    } else if t.len() == 0 {
        None
    } else if t.len() < 7 {
        Some(t)
    } else {
        Some(t.take(7))
    }
}

/// The branch that the contents of a Git `HEAD` file name.
pub fn branch_from_head(contents: &str) -> (r: Option<String>)
    ensures
        match head_branch(contents@) {
            Some(b) => r matches Some(s) && s@ == b,
            None => r is None,
        },
{
    let t = trimmed(contents);
    let ts = t.as_str();
    if text_starts_with(ts, "ref:") {
        proof {
            reveal_strlit("ref:");
        }
        let n = ts.unicode_len();
        let rest = owned_substring(ts, 4, n);
        assert(rest@ =~= t@.skip(4));
        let path = trimmed(rest.as_str());
        return file_name_of(path.as_str());
    }
    let n = ts.unicode_len();
    if n == 0 {
        return None;
    }
    if n < 7 {
        return Some(t);
    }
    assert(t@.subrange(0, 7) =~= t@.take(7));
    Some(owned_substring(ts, 0, 7))
}

/// The prompt: the shell's name in green, then the name of the working
/// directory and, in a Git repository, its branch in parentheses, in
/// brackets, then a bold `>`.
pub open spec fn prompt_text(shell_name: Seq<char>, dir_name: Seq<char>, branch: Seq<char>) -> Seq<char> {
    "\x1b[32m"@ + shell_name + "\x1b[0m ["@ + dir_name + (if branch.len() == 0 {
        Seq::empty()
    } else {
        " ("@ + branch + ")"@
    }) + "] \x1b[1m>\x1b[0m "@
}

/// The prompt, for the working directory named `dir_name` and the Git
/// branch `branch` (empty outside a repository).
pub fn format_prompt(shell_name: &str, dir_name: &str, branch: &str) -> (r: String)
    ensures
        r@ == prompt_text(shell_name@, dir_name@, branch@),
{
    let mut r = String::from_str("\x1b[32m");
    r.append(shell_name);
    r.append("\x1b[0m [");
    r.append(dir_name);
    let ghost before = r@;
    if !branch.is_empty() {
        r.append(" (");
        r.append(branch);
        r.append(")");
    }
    r.append("] \x1b[1m>\x1b[0m ");
    r
}

/// The path of the `.git` entry inside directory `dir`: `.git` appended
/// with a `/` between, as `Path::join` appends a relative path (no `/` is
/// added after an empty path or one that ends with `/`).
pub open spec fn git_entry(dir: Seq<char>) -> Seq<char> {
    if dir.len() == 0 || dir.last() == '/' {
        dir + ".git"@
    } else {
        dir + "/.git"@
    }
}

/// Where the Git directory of `dir` may be, nearest first: the `.git`
/// entry of `dir`, then of each of its ancestors (by `Path::parent`).
pub open spec fn git_dir_chain(dir: Seq<char>) -> Seq<Seq<char>>
    decreases dir.len(),
{
    seq![git_entry(dir)] + match path_parent_of(dir) {
        Some(up) => if up.len() < dir.len() {
            git_dir_chain(up)
        } else {
            Seq::empty()
        },
        None => Seq::empty(),
    }
}

/// The `.git` entry of the directory `dir`.
fn git_entry_of(dir: &str) -> (r: String)
    ensures
        r@ == git_entry(dir@),
{
    let mut r = String::from_str(dir);
    let n = dir.unicode_len();
    if n == 0 || dir.get_char(n - 1) == '/' {
        r.append(".git");
    } else {
        r.append("/.git");
    }
    r
}

/// The places where the Git directory of `start` may be, nearest first:
/// the `.git` entry of `start` and of each of its ancestors.
pub fn git_dir_candidates(start: &str) -> (r: Vec<String>)
    ensures
        views(r@) == git_dir_chain(start@),
{
    let mut out: Vec<String> = Vec::new();
    let mut cur = String::from_str(start);
    loop
        invariant
            views(out@) + git_dir_chain(cur@) == git_dir_chain(start@),
        decreases cur@.len(),
    {
        let ghost before = cur@;
        out.push(git_entry_of(cur.as_str()));
        match path_parent(cur.as_str()) {
            Some(up) => {
                assert(views(out@) =~= views(out@.drop_last()).push(git_entry(before)));
                assert(git_dir_chain(before) == seq![git_entry(before)] + git_dir_chain(up@));
                assert(views(out@) + git_dir_chain(up@) =~= views(out@.drop_last()) + git_dir_chain(
                    before,
                ));
                cur = up;
            },
            None => {
                assert(views(out@) =~= views(out@.drop_last()).push(git_entry(before)));
                assert(git_dir_chain(before) =~= seq![git_entry(before)]);
                assert(views(out@) =~= views(out@.drop_last()) + git_dir_chain(before));
                return out;
            },
        }
    }
}

/// Which of the places where the Git directory may be holds it: the first
/// of them that is a directory, where `is_dir` says of each whether it is
/// one.
pub fn first_git_dir(is_dir: &Vec<bool>) -> (r: Option<usize>)
    ensures
        match r {
            Some(i) => i < is_dir@.len() && is_dir@[i as int] && forall|j: int|
                0 <= j < i ==> !is_dir@[j],
            None => forall|j: int| 0 <= j < is_dir@.len() ==> !is_dir@[j],
        },
{
    let mut i: usize = 0;
    while i < is_dir.len()
        invariant
            i <= is_dir@.len(),
            forall|j: int| 0 <= j < i ==> !is_dir@[j],
        decreases is_dir@.len() - i,
    {
        if is_dir[i] {
            return Some(i);
        }
        i = i + 1;
    }
    None
}

} // verus!
