//! The calls into other crates, and into the few parts of std that have no
//! specification of their own, that the shell's logic makes. Each item here
//! is taken on trust: its contract says what the called code is documented
//! (or, from its source, seen) to do, and nothing is proved of it.

use vstd::prelude::*;

use std::path::PathBuf;

use vstd::utf8::encode_utf8;

use crate::commands::control::unquoted;
use crate::text::opt_view;

verus! {

/// `std::path::PathBuf`, carried through as an opaque value.
#[verifier::external_type_specification]
#[verifier::external_body]
pub struct ExPathBuf(PathBuf);

/// The words that `shlex::split` makes of a line, or `None` where it reports
/// an error (an unclosed quote, or a trailing backslash).
pub uninterp spec fn shell_words(line: Seq<char>) -> Option<Seq<Seq<char>>>;

/// Calls `shlex::split`, which splits `line` into words by the quoting rules
/// of a POSIX shell. Its result depends on `line` alone; it is named
/// `shell_words`. One fact of it is stated: `split` fails only where a
/// quoted part is not closed or a backslash ends the line (its `had_error`),
/// so for a line with no backslash and no `#` (which starts a comment) it
/// fails exactly when a quote is still open at the end.
#[verifier::external_body]
pub(crate) fn shlex_split(line: &str) -> (r: Option<Vec<String>>)
    ensures
        r.deep_view() == shell_words(line@),
        !line@.contains('\\') && !line@.contains('#') ==> (r is None <==> !unquoted(
            line@,
            line@.len() as int,
        )),
{
    shlex::split(line)
}

/// Whether `glob`, with its default options, can give `path` for
/// `pattern`: in some state of the file system, `glob::glob(pattern)` yields
/// a path whose text is `path`. It depends on the pattern and the path
/// alone.
pub uninterp spec fn glob_matches(pattern: Seq<char>, path: Seq<char>) -> bool;

/// Calls `glob::glob`, which lists the paths on disk that match `pattern`.
/// `None` stands for a pattern that `glob` refuses; each entry is the path's
/// text, or `None` where the entry could not be read or its path is not
/// valid UTF-8. What is on disk decides which paths are listed; each one
/// listed is one that `glob` gives for `pattern` (`glob_matches`).
#[verifier::external_body]
pub(crate) fn glob_entries(pattern: &str) -> (r: Option<Vec<Option<String>>>)
    ensures
        r.deep_view() matches Some(es) ==> forall|j: int|
            0 <= j < es.len() && (#[trigger] es[j]) is Some ==> glob_matches(pattern@, es[j]->0),
{
    match glob::glob(pattern) {
        Ok(paths) => {
            let mut out = Vec::new();
            for entry in paths {
                out.push(entry.ok().and_then(|p| p.to_str().map(|s| s.to_string())));
            }
            Some(out)
        },
        Err(_) => None,
    }
}

/// An executable found on `PATH`: its path, the path's text where it is
/// valid UTF-8, and the path's text with each sequence that is not valid
/// UTF-8 replaced by U+FFFD.
pub struct ExecutablePath {
    pub path: PathBuf,
    pub text: Option<String>,
    pub shown: String,
}

/// Whether the path text `t` names `command` inside some directory: it is
/// `command` itself, or ends with `/` followed by `command`.
pub open spec fn ends_with_component(t: Seq<char>, command: Seq<char>) -> bool {
    let k = t.len() - command.len();
    &&& k >= 0
    &&& t.skip(k) == command
    &&& (k == 0 || t[k - 1] == '/')
}

/// What holds of a path that a search of `PATH` for `command` found: where
/// its text is valid UTF-8, that text names `command` inside a directory,
/// and is also how the path is shown; where it is not, the shown text holds
/// a U+FFFD.
pub open spec fn found_names(e: ExecutablePath, command: Seq<char>) -> bool {
    match e.text {
        Some(t) => ends_with_component(t@, command) && e.shown@ == t@,
        None => e.shown@.contains('\u{FFFD}'),
    }
}

/// Calls `pathsearch::find_executable_in_path`, which looks for an
/// executable file named `command` in the directories of `PATH`, and returns
/// the first it finds. Which file that is, if any, the environment and what
/// is on disk decide; nothing is stated of it. Each candidate is a directory
/// of `PATH` joined with `command` (`Path::join`), so a path found ends
/// with `command` as its last part, or is `command` itself (an empty `PATH`
/// entry, or an absolute `command`). `Path::to_str` gives the text of a
/// path that is valid UTF-8, and `Path::to_string_lossy` gives the same
/// text for it, or replaces the sequences that are not UTF-8 by U+FFFD.
#[verifier::external_body]
pub(crate) fn search_path(command: &str) -> (r: Option<ExecutablePath>)
    ensures
        r matches Some(e) ==> found_names(e, command@),
{
    pathsearch::find_executable_in_path(command).map(
        |path: PathBuf|
            ExecutablePath {
                text: path.to_str().map(|s| s.to_string()),
                shown: path.to_string_lossy().into_owned(),
                path,
            },
    )
}

/// What `Path::parent` gives for the path `p`: the path without its last
/// component, or `None` where it has none (the root, or an empty path).
pub uninterp spec fn path_parent_of(p: Seq<char>) -> Option<Seq<char>>;

/// Calls `Path::parent` on `p`. Its result depends on `p` alone; it is
/// named `path_parent_of`. It is a part of `p` that leaves out at least the
/// last component, so it is shorter than `p`; as a part of a `str` cut at a
/// separator, its text is the same under `to_string_lossy`.
#[verifier::external_body]
pub(crate) fn path_parent(p: &str) -> (r: Option<String>)
    ensures
        opt_view(r) == path_parent_of(p@),
        r matches Some(q) ==> q@.len() < p@.len(),
{
    std::path::Path::new(p).parent().map(|q| q.to_string_lossy().into_owned())
}

/// What `str::to_lowercase` makes of a string: each character replaced by
/// its Unicode lowercase mapping (a capital sigma at the end of a word by
/// the final form, as Unicode's context rule says).
pub uninterp spec fn lowercase(s: Seq<char>) -> Seq<char>;

/// Calls `str::to_lowercase`. Its result depends on `s` alone; it is named
/// `lowercase`, and nothing more of it is stated.
#[verifier::external_body]
pub(crate) fn to_lowercase(s: &str) -> (r: String)
    ensures
        r@ == lowercase(s@),
{
    s.to_lowercase()
}

/// Calls `String::push`, which appends `c` to the end of `s`.
#[verifier::external_body]
pub(crate) fn push_char(s: &mut String, c: char)
    ensures
        final(s)@ == old(s)@.push(c),
{
    s.push(c);
}

/// Whether byte `pos` of the UTF-8 text of `line` starts a character (or is
/// its end): the bytes of the first `k` characters are `pos` bytes long,
/// for some `k`.
pub open spec fn at_char_boundary(line: Seq<char>, pos: int) -> bool {
    exists|k: int| 0 <= k <= line.len() && #[trigger] encode_utf8(line.take(k)).len() == pos
}

/// Whether `before` and `word` split the text of `line` up to byte `pos`:
/// together they make up that text, the word holds no space or tab, and
/// the text before it is empty or ends with one.
pub open spec fn word_split(line: Seq<char>, pos: int, before: Seq<char>, word: Seq<char>) -> bool {
    &&& exists|k: int|
        0 <= k <= line.len() && #[trigger] encode_utf8(line.take(k)).len() == pos && before + word
            == line.take(k)
    &&& !word.contains(' ') && !word.contains('\t')
    &&& before.len() == 0 || before.last() == ' ' || before.last() == '\t'
}

/// The characters that end a word for completion: space and tab.
pub fn is_word_break(c: char) -> (r: bool)
    ensures
        r == (c == ' ' || c == '\t'),
{
    c == ' ' || c == '\t'
}

/// Calls `rustyline::completion::extract_word` with no escape character
/// and `is_word_break` as the test for the characters that end a word. For
/// the text of `line` up to byte `pos`, it gives the word at its end (all
/// that follows its last space or tab) and the byte where that word
/// starts; the text before that byte is taken from `line` too. So the
/// text before and the word make up the line up to `pos`, the word holds
/// no space or tab, and the text before is empty or ends with one.
#[verifier::external_body]
pub(crate) fn extract_last_word(line: &str, pos: usize) -> (r: (usize, String, String))
    requires
        at_char_boundary(line@, pos as int),
    ensures
        word_split(line@, pos as int, r.1@, r.2@),
        r.0 == encode_utf8(r.1@).len(),
{
    let (start, word) = rustyline::completion::extract_word(line, pos, None, is_word_break);
    (start, line[..start].to_string(), word.to_string())
}

} // verus!
