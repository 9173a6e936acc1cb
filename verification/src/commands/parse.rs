//! Turning the words of a command into a command name, its arguments and
//! its redirections; expanding `~`, `$NAME` and glob patterns in words.

use vstd::prelude::*;

use crate::bindings::{glob_entries, glob_matches, push_char, shell_words, shlex_split};
use crate::commands::control::unquoted;
use crate::commands::targets::{Redirect, StderrTarget, StdoutTarget};
use crate::environment::Environment;
use crate::text::{chars_of, contains_char, opt_view, text_eq, trim, trimmed, views};

verus! {

/// Whether more input is needed before `raw` can run: it is not blank, and
/// its words cannot be split yet (an open quote, or a trailing backslash).
/// For a line without backslashes and `#`, that is exactly a line that ends
/// inside a quote.
pub fn needs_more_input(raw: &str) -> (r: bool)
    ensures
        r == (trim(raw@).len() > 0 && shell_words(trim(raw@)) is None),
        !trim(raw@).contains('\\') && !trim(raw@).contains('#') ==> (r <==> !unquoted(
            trim(raw@),
            trim(raw@).len() as int,
        )),
{
    let r = trimmed(raw);
    !r.as_str().is_empty() && shlex_split(r.as_str()).is_none()
}

/// Whether `c` may be part of a variable name: `_`, an ASCII letter or an
/// ASCII digit.
pub open spec fn is_name_char(c: char) -> bool {
    c == '_' || ('0' <= c && c <= '9') || ('A' <= c && c <= 'Z') || ('a' <= c && c <= 'z')
}

/// How many characters at the start of `s` belong to a variable name.
pub open spec fn name_len(s: Seq<char>) -> nat
    decreases s.len(),
{
    if s.len() > 0 && is_name_char(s[0]) {
        1 + name_len(s.drop_first())
    } else {
        0
    }
}

/// A name is never longer than the text it is read from.
pub proof fn lemma_name_len_bound(s: Seq<char>)
    ensures
        name_len(s) <= s.len(),
    decreases s.len(),
{
    if s.len() > 0 && is_name_char(s[0]) {
        lemma_name_len_bound(s.drop_first());
    }
}

/// The value of `name` in `env`, or nothing where it is not set.
pub open spec fn lookup(env: Map<Seq<char>, Seq<char>>, name: Seq<char>) -> Seq<char> {
    if env.contains_key(name) {
        env[name]
    } else {
        Seq::empty()
    }
}

/// `$NAME` expansion: a `$` followed by a name (`_`, ASCII letters and
/// digits) stands for the variable's value, or for nothing where it is not
/// set; every other character is kept as it is.
pub open spec fn expand_vars_chars(s: Seq<char>, env: Map<Seq<char>, Seq<char>>) -> Seq<char>
    decreases s.len(),
{
    if s.len() == 0 {
        Seq::empty()
    } else if s[0] == '$' && name_len(s.drop_first()) > 0 {
        let n = name_len(s.drop_first()) as int;
        proof {
            lemma_name_len_bound(s.drop_first());
        }
        lookup(env, s.subrange(1, n + 1)) + expand_vars_chars(s.skip(n + 1), env)
    } else {
        seq![s[0]] + expand_vars_chars(s.drop_first(), env)
    }
}

/// Text without a `$` is left as it is by `$NAME` expansion.
pub proof fn lemma_no_dollar_unchanged(s: Seq<char>, env: Map<Seq<char>, Seq<char>>)
    requires
        !s.contains('$'),
    ensures
        expand_vars_chars(s, env) == s,
    decreases s.len(),
{
    if s.len() > 0 {
        assert(!s.drop_first().contains('$')) by {
            if s.drop_first().contains('$') {
                let k = choose|k: int| 0 <= k < s.drop_first().len() && s.drop_first()[k] == '$';
                assert(s[k + 1] == '$');
            }
        }
        assert(s[0] != '$') by {
            assert(s[0] == s[0]);
        }
        lemma_no_dollar_unchanged(s.drop_first(), env);
        assert(s =~= seq![s[0]] + s.drop_first());
    }
}

/// `~` expansion: a word that is `~`, or starts with `~/`, has the `~`
/// replaced by the value of `HOME`, where `HOME` is set.
pub open spec fn tilde_expanded(s: Seq<char>, env: Map<Seq<char>, Seq<char>>) -> Seq<char> {
    if env.contains_key("HOME"@) && s.len() > 0 && s[0] == '~' && (s.len() == 1 || s[1] == '/') {
        env["HOME"@] + s.drop_first()
    } else {
        s
    }
}

/// A word after `~` expansion, then `$NAME` expansion.
pub open spec fn expand_word(s: Seq<char>, env: Map<Seq<char>, Seq<char>>) -> Seq<char> {
    expand_vars_chars(tilde_expanded(s, env), env)
}

/// Expansion changes only `$` names and a leading `~`: a word with
/// neither comes back as it is.
pub proof fn law_plain_words_unchanged(s: Seq<char>, env: Map<Seq<char>, Seq<char>>)
    requires
        !s.contains('$'),
        !(s.len() > 0 && s[0] == '~'),
    ensures
        expand_word(s, env) == s,
{
    lemma_no_dollar_unchanged(s, env);
}

/// Whether a word is a glob pattern: it holds `*`, `?` or `[`.
pub open spec fn has_glob_meta(s: Seq<char>) -> bool {
    s.contains('*') || s.contains('?') || s.contains('[')
}

fn is_name_char_exec(c: char) -> (r: bool)
    ensures
        r == is_name_char(c),
{
    c == '_' || ('0' <= c && c <= '9') || ('A' <= c && c <= 'Z') || ('a' <= c && c <= 'z')
}

proof fn lemma_name_len(s: Seq<char>, start: int, j: int)
    requires
        0 <= start <= j <= s.len(),
        forall|k: int| start <= k < j ==> is_name_char(#[trigger] s[k]),
        j == s.len() || !is_name_char(s[j]),
    ensures
        name_len(s.skip(start)) == j - start,
    decreases j - start,
{
    if start < j {
        lemma_name_len(s, start + 1, j);
        assert(s.skip(start).drop_first() =~= s.skip(start + 1));
    }
}

/// `$NAME` expansion of `s`.
fn expand_vars(s: &str, env: &Environment) -> (r: String)
    ensures
        r@ == expand_vars_chars(s@, env@),
{
    let cs = chars_of(s);
    let n = cs.len();
    let ghost t = s@;
    let mut out = String::new();
    let mut i: usize = 0;
    assert(t.skip(0) =~= t);
    while i < n
        invariant
            cs@ == t,
            n == t.len(),
            i <= n,
            out@ + expand_vars_chars(t.skip(i as int), env@) == expand_vars_chars(t, env@),
        decreases n - i,
    {
        let ghost rest = t.skip(i as int);
        assert(rest.drop_first() =~= t.skip(i + 1));
        if cs[i] == '$' {
            let start = i + 1;
            let mut j = start;
            while j < n && is_name_char_exec(cs[j])
                invariant
                    cs@ == t,
                    n == t.len(),
                    start <= j <= n,
                    forall|k: int| start <= k < j ==> is_name_char(#[trigger] t[k]),
                decreases n - j,
            {
                j = j + 1;
            }
            if j > start {
                proof {
                    lemma_name_len(t, start as int, j as int);
                    assert(rest.drop_first() =~= t.skip(start as int));
                    assert(rest.subrange(1, (j - i) as int) =~= t.subrange(start as int, j as int));
                    assert(rest.skip((j - i) as int) =~= t.skip(j as int));
                }
                let mut name = String::new();
                let mut k = start;
                while k < j
                    invariant
                        cs@ == t,
                        start <= k <= j <= n,
                        n == t.len(),
                        name@ == t.subrange(start as int, k as int),
                    decreases j - k,
                {
                    push_char(&mut name, cs[k]);
                    k = k + 1;
                    assert(name@ =~= t.subrange(start as int, k as int));
                }
                let ghost before = out@;
                match env.get(name.as_str()) {
                    Some(val) => {
                        out.append(val.as_str());
                    },
                    None => {},
                }
                assert(out@ == before + lookup(env@, name@));
                assert(before + expand_vars_chars(rest, env@) =~= out@ + expand_vars_chars(
                    t.skip(j as int),
                    env@,
                ));
                i = j;
                continue;
            }
        }
        let ghost before = out@;
        push_char(&mut out, cs[i]);
        assert(before + expand_vars_chars(rest, env@) =~= out@ + expand_vars_chars(
            t.skip(i + 1),
            env@,
        ));
        i = i + 1;
    }
    assert(expand_vars_chars(t.skip(n as int), env@) =~= Seq::<char>::empty());
    out
}

/// `~` expansion of `token`.
fn expand_tilde(token: &str, env: &Environment) -> (r: String)
    ensures
        r@ == tilde_expanded(token@, env@),
{
    let n = token.unicode_len();
    if n > 0 && token.get_char(0) == '~' && (n == 1 || token.get_char(1) == '/') {
        match env.get("HOME") {
            Some(home) => {
                let mut s = home;
                s.append(token.substring_char(1, n));
                assert(token@.subrange(1, n as int) =~= token@.drop_first());
                s
            },
            None => String::from_str(token),
        }
    } else {
        String::from_str(token)
    }
}

/// The expansion of `token` by `~` and `$NAME`.
pub fn expand_vars_and_tilde(token: &str, env: &Environment) -> (r: String)
    ensures
        r@ == expand_word(token@, env@),
        !token@.contains('$') && !(token@.len() > 0 && token@[0] == '~') ==> r@ == token@,
{
    proof {
        if !token@.contains('$') && !(token@.len() > 0 && token@[0] == '~') {
            law_plain_words_unchanged(token@, env@);
        }
    }
    let t = expand_tilde(token, env);
    expand_vars(t.as_str(), env)
}

/// The path that a redirection target names, after `~` and `$NAME`
/// expansion.
pub fn expand_single_path(token: &str, env: &Environment) -> (r: String)
    ensures
        r@ == expand_word(token@, env@),
{
    expand_vars_and_tilde(token, env)
}

/// Whether `s` is a glob pattern: it holds `*`, `?` or `[`.
pub fn has_glob_meta_exec(s: &str) -> (r: bool)
    ensures
        r == has_glob_meta(s@),
{
    contains_char(s, '*') || contains_char(s, '?') || contains_char(s, '[')
}

/// The readable paths among what `glob` listed: nothing for a refused
/// pattern, and otherwise every entry that has a path text, in order.
pub open spec fn glob_found(entries: Option<Seq<Option<Seq<char>>>>) -> Seq<Seq<char>> {
    match entries {
        Some(es) => present(es),
        None => Seq::empty(),
    }
}

/// The values that are present in a sequence of options, in order.
pub open spec fn present(es: Seq<Option<Seq<char>>>) -> Seq<Seq<char>>
    decreases es.len(),
{
    if es.len() == 0 {
        Seq::empty()
    } else {
        match es.last() {
            Some(x) => present(es.drop_last()).push(x),
            None => present(es.drop_last()),
        }
    }
}

/// Whether every path in `found` is one that `glob` gives for `pattern`.
pub open spec fn all_glob_matches(pattern: Seq<char>, found: Seq<Seq<char>>) -> bool {
    forall|i: int| 0 <= i < found.len() ==> glob_matches(pattern, #[trigger] found[i])
}

/// The paths present among glob entries that all match `pattern` match it.
proof fn lemma_present_match(pattern: Seq<char>, es: Seq<Option<Seq<char>>>)
    requires
        forall|j: int|
            0 <= j < es.len() && (#[trigger] es[j]) is Some ==> glob_matches(pattern, es[j]->0),
    ensures
        all_glob_matches(pattern, present(es)),
    decreases es.len(),
{
    if es.len() > 0 {
        let init = es.drop_last();
        assert forall|j: int| 0 <= j < init.len() && (#[trigger] init[j]) is Some implies glob_matches(
            pattern,
            init[j]->0,
        ) by {
            assert(init[j] == es[j]);
        }
        lemma_present_match(pattern, init);
        let last = es[es.len() - 1];
        if last is Some {
            assert(glob_matches(pattern, last->0));
        }
    }
}

/// The arguments that a word gives once expanded to `word`, where `found`
/// is what a glob of it found on disk: the paths found, for a glob pattern
/// that found any; otherwise the word itself.
pub open spec fn expansion(word: Seq<char>, found: Seq<Seq<char>>) -> Seq<Seq<char>> {
    if has_glob_meta(word) && found.len() > 0 {
        found
    } else {
        seq![word]
    }
}

/// The arguments that the expanded `word` gives, where `entries` is what
/// `glob` listed for it.
pub fn expansion_of(word: String, entries: Option<Vec<Option<String>>>) -> (r: Vec<String>)
    ensures
        views(r@) == expansion(word@, glob_found(entries.deep_view())),
{
    let ghost es_view = entries.deep_view();
    let mut results: Vec<String> = Vec::new();
    if has_glob_meta_exec(word.as_str()) {
        if let Some(es) = entries {
            let mut i: usize = 0;
            while i < es.len()
                invariant
                    i <= es@.len(),
                    es_view == Some(es.deep_view()),
                    views(results@) == present(es.deep_view().take(i as int)),
                decreases es@.len() - i,
            {
                let ghost before = results@;
                assert(es.deep_view().take(i + 1).drop_last() =~= es.deep_view().take(i as int));
                assert(es.deep_view().take(i + 1).last() == opt_view(es@[i as int]));
                match &es[i] {
                    Some(p) => {
                        results.push(p.clone());
                        assert(views(results@) =~= views(before).push(p@));
                    },
                    None => {},
                }
                i = i + 1;
            }
            assert(es.deep_view().take(es@.len() as int) =~= es.deep_view());
        }
        if results.len() > 0 {
            return results;
        }
    }
    let r = vec![word];
    assert(views(r@) =~= seq![r@[0]@]);
    r
}

/// The arguments that `token` gives: its expansion by `~` and `$NAME`, and
/// then, for a glob pattern, the paths on disk that match it, if any.
pub fn expand_arg(token: &str, env: &Environment) -> (r: Vec<String>)
    ensures
        exists|found: Seq<Seq<char>>|
            all_glob_matches(expand_word(token@, env@), found) && views(r@) == expansion(
                expand_word(token@, env@),
                found,
            ),
{
    let word = expand_vars_and_tilde(token, env);
    let entries = if has_glob_meta_exec(word.as_str()) {
        glob_entries(word.as_str())
    } else {
        None
    };
    let ghost found = glob_found(entries.deep_view());
    proof {
        if let Some(es) = entries.deep_view() {
            lemma_present_match(word@, es);
        }
    }
    expansion_of(word, entries)
}

/// A word of a command line that becomes arguments: one kept as it is
/// written, or one that is expanded.
pub enum ArgPiece {
    Verbatim(Seq<char>),
    Word(Seq<char>),
}

/// What reading the words after the command name gives: where standard
/// output and standard error go, and the words that become arguments.
pub struct Scan {
    pub stdout: Redirect,
    pub stderr: Redirect,
    pub pieces: Seq<ArgPiece>,
}

/// Whether `t` redirects standard output to the end of a file.
pub open spec fn is_stdout_append(t: Seq<char>) -> bool {
    t == ">>"@ || t == "1>>"@
}

/// Whether `t` redirects standard output to a truncated file.
pub open spec fn is_stdout_overwrite(t: Seq<char>) -> bool {
    t == ">"@ || t == "1>"@
}

/// Whether `t` redirects standard error to the end of a file.
pub open spec fn is_stderr_append(t: Seq<char>) -> bool {
    t == "2>>"@
}

/// Whether `t` redirects standard error to a truncated file.
pub open spec fn is_stderr_overwrite(t: Seq<char>) -> bool {
    t == "2>"@
}

/// Whether `t` is a redirection operator.
pub open spec fn is_redirect_op(t: Seq<char>) -> bool {
    is_stdout_append(t) || is_stdout_overwrite(t) || is_stderr_append(t) || is_stderr_overwrite(t)
}

/// Reading `words` from position `i` on, starting from `acc`: a redirection
/// operator followed by a word sends its stream to the file that the word
/// names (after `~` and `$NAME` expansion), replacing any earlier
/// redirection of that stream; an operator with no word after it is kept
/// as an argument as it is written; every other word becomes an argument
/// once expanded.
pub open spec fn scan_words(
    words: Seq<Seq<char>>,
    i: int,
    env: Map<Seq<char>, Seq<char>>,
    acc: Scan,
) -> Scan
    decreases words.len() - i,
{
    if i < 0 || i >= words.len() {
        acc
    } else {
        let t = words[i];
        let target = i + 1 < words.len();
        if is_stdout_append(t) && target {
            let path = expand_word(words[i + 1], env);
            scan_words(words, i + 2, env, Scan { stdout: Redirect::Append(path), ..acc })
        } else if is_stdout_overwrite(t) && target {
            let path = expand_word(words[i + 1], env);
            scan_words(words, i + 2, env, Scan { stdout: Redirect::Overwrite(path), ..acc })
        } else if is_stderr_append(t) && target {
            let path = expand_word(words[i + 1], env);
            scan_words(words, i + 2, env, Scan { stderr: Redirect::Append(path), ..acc })
        } else if is_stderr_overwrite(t) && target {
            let path = expand_word(words[i + 1], env);
            scan_words(words, i + 2, env, Scan { stderr: Redirect::Overwrite(path), ..acc })
        } else if is_redirect_op(t) {
            scan_words(words, i + 1, env, Scan { pieces: acc.pieces.push(ArgPiece::Verbatim(t)), ..acc })
        } else {
            scan_words(words, i + 1, env, Scan { pieces: acc.pieces.push(ArgPiece::Word(t)), ..acc })
        }
    }
}

/// What reading the words after the command name gives, from the start.
pub open spec fn scan_of(words: Seq<Seq<char>>, env: Map<Seq<char>, Seq<char>>) -> Scan {
    scan_words(
        words,
        0,
        env,
        Scan { stdout: Redirect::Inherit, stderr: Redirect::Inherit, pieces: Seq::empty() },
    )
}

/// Whether `out` are arguments that `piece` can give: a word kept as it is
/// gives itself; an expanded word gives itself once expanded, or, for a
/// glob pattern, the (one or more) paths that matched it.
pub open spec fn piece_fits(piece: ArgPiece, env: Map<Seq<char>, Seq<char>>, out: Seq<Seq<char>>) -> bool {
    match piece {
        ArgPiece::Verbatim(t) => out == seq![t],
        ArgPiece::Word(t) => exists|found: Seq<Seq<char>>|
            all_glob_matches(expand_word(t, env), found) && #[trigger] expansion(
                expand_word(t, env),
                found,
            ) == out,
    }
}

/// Whether `args` are arguments that `pieces` can give, one after another.
pub open spec fn args_fit(pieces: Seq<ArgPiece>, env: Map<Seq<char>, Seq<char>>, args: Seq<Seq<char>>) -> bool {
    exists|outs: Seq<Seq<Seq<char>>>|
        {
            &&& outs.len() == pieces.len()
            &&& forall|k: int| 0 <= k < outs.len() ==> piece_fits(pieces[k], env, #[trigger] outs[k])
            &&& outs.flatten() == args
        }
}

/// A command's words, read: its name, its arguments and its redirections.
pub struct ParsedInvocation {
    pub cmd_name: String,
    pub args: Vec<String>,
    pub stdout: StdoutTarget,
    pub stderr: StderrTarget,
}

/// The model of a `ParsedInvocation`.
pub struct InvocationView {
    pub cmd_name: Seq<char>,
    pub args: Seq<Seq<char>>,
    pub stdout: Redirect,
    pub stderr: Redirect,
}

impl View for ParsedInvocation {
    type V = InvocationView;

    open spec fn view(&self) -> InvocationView {
        InvocationView {
            cmd_name: self.cmd_name@,
            args: views(self.args@),
            stdout: self.stdout@,
            stderr: self.stderr@,
        }
    }
}

/// Whether `inv` is what reading the words `tokens` gives: the first word
/// names the command, as it is written; the rest are read by `scan_of`.
pub open spec fn parsed_from(
    tokens: Seq<Seq<char>>,
    env: Map<Seq<char>, Seq<char>>,
    inv: InvocationView,
) -> bool {
    let sc = scan_of(tokens.drop_first(), env);
    &&& tokens.len() > 0
    &&& inv.cmd_name == tokens[0]
    &&& inv.stdout == sc.stdout
    &&& inv.stderr == sc.stderr
    &&& args_fit(sc.pieces, env, inv.args)
}

impl ParsedInvocation {
    /// Read a command's words: `None` when there are none.
    pub fn from_tokens(tokens: Vec<String>, env: &Environment) -> (r: Option<Self>)
        ensures
            r is None <==> tokens@.len() == 0,
            r matches Some(inv) ==> parsed_from(views(tokens@), env@, inv@),
    {
        if tokens.len() == 0 {
            return None;
        }
        let ghost all = views(tokens@);
        let ghost words = all.drop_first();
        let ghost target = scan_of(words, env@);
        let cmd_name = tokens[0].clone();
        let n = tokens.len();
        let mut stdout = StdoutTarget::Stdout;
        let mut stderr = StderrTarget::Stderr;
        let mut args: Vec<String> = Vec::new();
        let ghost mut pieces: Seq<ArgPiece> = Seq::empty();
        let ghost mut outs: Seq<Seq<Seq<char>>> = Seq::empty();
        let mut i: usize = 1;
        while i < n
            invariant
                n == tokens@.len(),
                1 <= i <= n,
                all == views(tokens@),
                words == all.drop_first(),
                target == scan_of(words, env@),
                scan_words(words, i - 1, env@, Scan { stdout: stdout@, stderr: stderr@, pieces })
                    == target,
                outs.len() == pieces.len(),
                forall|k: int| 0 <= k < outs.len() ==> piece_fits(pieces[k], env@, #[trigger] outs[k]),
                outs.flatten() == views(args@),
            decreases n - i,
        {
            let t = tokens[i].as_str();
            let ghost acc = Scan { stdout: stdout@, stderr: stderr@, pieces };
            assert(words[i - 1] == t@);
            let has_target = i + 1 < n;
            if has_target {
                assert(words[i as int] == tokens@[i + 1]@);
            }
            if (text_eq(t, ">>") || text_eq(t, "1>>")) && has_target {
                let path = expand_single_path(tokens[i + 1].as_str(), env);
                stdout = StdoutTarget::Append(path);
                i = i + 2;
            } else if (text_eq(t, ">") || text_eq(t, "1>")) && has_target {
                let path = expand_single_path(tokens[i + 1].as_str(), env);
                stdout = StdoutTarget::Overwrite(path);
                i = i + 2;
            } else if text_eq(t, "2>>") && has_target {
                let path = expand_single_path(tokens[i + 1].as_str(), env);
                stderr = StderrTarget::Append(path);
                i = i + 2;
            } else if text_eq(t, "2>") && has_target {
                let path = expand_single_path(tokens[i + 1].as_str(), env);
                stderr = StderrTarget::Overwrite(path);
                i = i + 2;
            } else if text_eq(t, ">>") || text_eq(t, "1>>") || text_eq(t, ">") || text_eq(t, "1>")
                || text_eq(t, "2>>") || text_eq(t, "2>") {
                let ghost before = views(args@);
                args.push(tokens[i].clone());
                proof {
                    pieces = pieces.push(ArgPiece::Verbatim(t@));
                    let out = seq![t@];
                    assert(outs.push(out).flatten() =~= outs.flatten() + out) by {
                        Seq::lemma_flatten_push(outs, out);
                    }
                    outs = outs.push(out);
                    assert(views(args@) =~= before + out);
                }
                i = i + 1;
            } else {
                let ghost before = views(args@);
                let mut more = expand_arg(t, env);
                let ghost out = views(more@);
                let ghost found = choose|f: Seq<Seq<char>>|
                    views(more@) == expansion(expand_word(t@, env@), f);
                assert(out == expansion(expand_word(t@, env@), found));
                args.append(&mut more);
                proof {
                    pieces = pieces.push(ArgPiece::Word(t@));
                    assert(outs.push(out).flatten() =~= outs.flatten() + out) by {
                        Seq::lemma_flatten_push(outs, out);
                    }
                    outs = outs.push(out);
                    assert(views(args@) =~= before + out);
                    let ghost pw = ArgPiece::Word(t@);
                    assert(expansion(expand_word(t@, env@), found) == out);
                    assert(pw matches ArgPiece::Word(w) && w == t@);
                    assert(piece_fits(pw, env@, out));
                }
                i = i + 1;
            }
        }
        proof {
            assert(scan_words(words, i - 1, env@, Scan { stdout: stdout@, stderr: stderr@, pieces })
                == Scan { stdout: stdout@, stderr: stderr@, pieces });
            assert(args_fit(pieces, env@, views(args@)));
        }
        Some(ParsedInvocation { cmd_name, args, stdout, stderr })
    }
}

/// Whether `c` is `_`, an ASCII letter or an ASCII digit.
pub open spec fn word_char(c: char) -> bool {
    c == '_' || ('0' <= c && c <= '9') || ('A' <= c && c <= 'Z') || ('a' <= c && c <= 'z')
}

proof fn lemma_name_run(name: Seq<char>, rest: Seq<char>)
    requires
        forall|k: int| 0 <= k < name.len() ==> word_char(#[trigger] name[k]),
        rest.len() == 0 || !word_char(rest[0]),
    ensures
        name_len(name + rest) == name.len(),
    decreases name.len(),
{
    if name.len() == 0 {
        assert(name + rest =~= rest);
    } else {
        assert((name + rest).drop_first() =~= name.drop_first() + rest);
        assert(name[0] == (name + rest)[0]);
        lemma_name_run(name.drop_first(), rest);
    }
}

/// `$NAME` stands for the value of the whole name: a word that is `$`, then
/// a run of `_`, ASCII letters and digits, then text without a `$` that
/// does not go on with such a character, expands to the value of that run
/// (nothing where it is not set) followed by the text, unchanged.
pub proof fn law_dollar_name_expands(
    name: Seq<char>,
    rest: Seq<char>,
    env: Map<Seq<char>, Seq<char>>,
)
    requires
        name.len() > 0,
        forall|k: int| 0 <= k < name.len() ==> word_char(#[trigger] name[k]),
        rest.len() == 0 || !word_char(rest[0]),
        !rest.contains('$'),
    ensures
        expand_word(seq!['$'] + name + rest, env) == (if env.contains_key(name) {
            env[name]
        } else {
            Seq::empty()
        }) + rest,
{
    let s = seq!['$'] + name + rest;
    assert(tilde_expanded(s, env) == s) by {
        assert(s[0] == '$');
    }
    assert(s.drop_first() =~= name + rest);
    lemma_name_run(name, rest);
    let n = name.len() as int;
    assert(s.subrange(1, n + 1) =~= name);
    assert(s.skip(n + 1) =~= rest);
    lemma_no_dollar_unchanged(rest, env);
}

/// Whether `w` is one of the redirection operators `>`, `1>`, `>>`, `1>>`,
/// `2>` and `2>>`.
pub open spec fn operator_word(w: Seq<char>) -> bool {
    w == ">"@ || w == "1>"@ || w == ">>"@ || w == "1>>"@ || w == "2>"@ || w == "2>>"@
}

/// Reading words that hold no operator leaves the redirections as they were.
proof fn lemma_scan_plain(
    words: Seq<Seq<char>>,
    i: int,
    k: int,
    env: Map<Seq<char>, Seq<char>>,
    acc: Scan,
) -> (after: Scan)
    requires
        0 <= i <= k <= words.len(),
        forall|j: int| i <= j < k ==> !operator_word(#[trigger] words[j]),
    ensures
        after.stdout == acc.stdout,
        after.stderr == acc.stderr,
        scan_words(words, i, env, acc) == scan_words(words, k, env, after),
    decreases k - i,
{
    if i == k {
        acc
    } else {
        let t = words[i];
        assert(!operator_word(t));
        assert(!is_redirect_op(t));
        lemma_scan_plain(words, i + 1, k, env, Scan { pieces: acc.pieces.push(ArgPiece::Word(t)), ..acc })
    }
}

/// Redirections send a stream to the file that the word after the operator
/// names (after `~` and `$NAME` expansion): where a command's words are its
/// name, words with no redirection operator, one operator and a path, and
/// then more words with no operator, `>>` and `1>>` append standard output
/// to the file, `>` and `1>` truncate it first, `2>>` appends standard
/// error and `2>` truncates it first; the other stream stays where it is.
pub proof fn law_redirect_targets(
    front: Seq<Seq<char>>,
    op: Seq<char>,
    path: Seq<char>,
    back: Seq<Seq<char>>,
    env: Map<Seq<char>, Seq<char>>,
    inv: InvocationView,
)
    requires
        front.len() >= 1,
        operator_word(op),
        forall|j: int| 1 <= j < front.len() ==> !operator_word(#[trigger] front[j]),
        forall|j: int| 0 <= j < back.len() ==> !operator_word(#[trigger] back[j]),
        parsed_from(front + seq![op, path] + back, env, inv),
    ensures
        op == ">>"@ || op == "1>>"@ ==> inv.stdout == Redirect::Append(expand_word(path, env))
            && inv.stderr == Redirect::Inherit,
        op == ">"@ || op == "1>"@ ==> inv.stdout == Redirect::Overwrite(expand_word(path, env))
            && inv.stderr == Redirect::Inherit,
        op == "2>>"@ ==> inv.stderr == Redirect::Append(expand_word(path, env)) && inv.stdout
            == Redirect::Inherit,
        op == "2>"@ ==> inv.stderr == Redirect::Overwrite(expand_word(path, env)) && inv.stdout
            == Redirect::Inherit,
{
    reveal_strlit(">>");
    reveal_strlit("1>>");
    reveal_strlit(">");
    reveal_strlit("1>");
    reveal_strlit("2>");
    reveal_strlit("2>>");
    assert(">"@ != ">>"@ && ">"@ != "1>>"@ && "1>"@ != ">>"@ && "1>"@ != "1>>"@) by {
        assert(">"@.len() != ">>"@.len());
        assert("1>"@[1] != "1>>"@[1] || "1>"@.len() != "1>>"@.len());
        assert("1>"@.len() != ">>"@.len() || "1>"@[0] != ">>"@[0]);
    }
    assert("2>"@ != ">>"@ && "2>"@ != "1>>"@ && "2>"@ != ">"@ && "2>"@ != "1>"@ && "2>"@ != "2>>"@) by {
        assert("2>"@[0] != ">>"@[0]);
        assert("2>"@.len() != "1>>"@.len());
        assert("2>"@.len() != ">"@.len());
        assert("2>"@[0] != "1>"@[0]);
        assert("2>"@.len() != "2>>"@.len());
    }
    assert("2>>"@ != ">>"@ && "2>>"@ != "1>>"@ && "2>>"@ != ">"@ && "2>>"@ != "1>"@) by {
        assert("2>>"@.len() != ">>"@.len());
        assert("2>>"@[0] != "1>>"@[0]);
        assert("2>>"@.len() != ">"@.len());
        assert("2>>"@.len() != "1>"@.len());
    }
    let tokens = front + seq![op, path] + back;
    let words = tokens.drop_first();
    let k = front.len() - 1;
    let start = Scan { stdout: Redirect::Inherit, stderr: Redirect::Inherit, pieces: Seq::empty() };
    assert forall|j: int| 0 <= j < k implies !operator_word(#[trigger] words[j]) by {
        assert(words[j] == front[j + 1]);
    }
    let mid = lemma_scan_plain(words, 0, k, env, start);
    assert(words[k] == op);
    assert(words[k + 1] == path);
    let p = expand_word(path, env);
    let next = if is_stdout_append(op) {
        Scan { stdout: Redirect::Append(p), ..mid }
    } else if is_stdout_overwrite(op) {
        Scan { stdout: Redirect::Overwrite(p), ..mid }
    } else if is_stderr_append(op) {
        Scan { stderr: Redirect::Append(p), ..mid }
    } else {
        Scan { stderr: Redirect::Overwrite(p), ..mid }
    };
    assert(scan_words(words, k, env, mid) == scan_words(words, k + 2, env, next));
    assert forall|j: int| k + 2 <= j < words.len() implies !operator_word(#[trigger] words[j]) by {
        assert(words[j] == back[j - k - 2]);
    }
    let end = lemma_scan_plain(words, k + 2, words.len() as int, env, next);
    assert(scan_words(words, words.len() as int, env, end) == end);
}

} // verus!
