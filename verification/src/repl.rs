//! What the line editor completes and how it highlights the line: the
//! decisions behind tab completion and coloring.

use vstd::prelude::*;

use crate::bindings::{at_char_boundary, extract_last_word, word_split};
use vstd::utf8::encode_utf8;
use crate::commands::{builtin_names, builtins, find_executable, is_builtin, is_builtin_name};
use crate::sorting::{chars_lt, lemma_lex_irreflexive, lemma_lex_total, lemma_lex_transitive, lex_lt};
use crate::text::{
    chars_of, char_is_space, is_space, owned_substring, split_chars, split_on, starts_with,
    text_eq, text_starts_with, trim, trim_start, trimmed, views,
};

verus! {

/// Whether `v` is in strictly increasing order.
pub open spec fn strictly_sorted(v: Seq<Seq<char>>) -> bool {
    forall|i: int, j: int| 0 <= i < j < v.len() ==> lex_lt(#[trigger] v[i], #[trigger] v[j])
}

/// The command names that complete `prefix`: the builtins and the
/// executables on `PATH` (`executables`) that start with it.
pub open spec fn completes(name: Seq<char>, prefix: Seq<char>, executables: Seq<Seq<char>>) -> bool {
    (builtins().contains(name) || executables.contains(name)) && starts_with(name, prefix)
}

/// Insert `x` into the strictly increasing `v`, unless it is there.
fn insert_sorted(v: &mut Vec<String>, x: String)
    requires
        strictly_sorted(views(old(v)@)),
    ensures
        strictly_sorted(views(final(v)@)),
        forall|y: Seq<char>| views(final(v)@).contains(y) <==> (views(old(v)@).contains(y) || y == x@),
{
    let ghost before = views(v@);
    let xc = chars_of(x.as_str());
    let mut p: usize = 0;
    while p < v.len()
        invariant
            before == views(v@),
            p <= v@.len(),
            xc@ == x@,
            forall|k: int| 0 <= k < p ==> lex_lt(#[trigger] before[k], x@),
        ensures
            p <= v@.len(),
            forall|k: int| 0 <= k < p ==> lex_lt(#[trigger] before[k], x@),
            p < v@.len() ==> !lex_lt(before[p as int], x@),
        decreases v@.len() - p,
    {
        let vc = chars_of(v[p].as_str());
        assert(before[p as int] == v@[p as int]@);
        if !chars_lt(&vc, &xc) {
            break;
        }
        p = p + 1;
    }
    if p < v.len() {
        assert(before[p as int] == v@[p as int]@);
        if text_eq(v[p].as_str(), x.as_str()) {
            return;
        }
        proof {
            lemma_lex_total(before[p as int], x@);
        }
    }
    proof {
        assert forall|k: int| p <= k < before.len() implies lex_lt(x@, #[trigger] before[k]) by {
            lemma_lex_total(before[p as int], x@);
            if k > p {
                lemma_lex_transitive(x@, before[p as int], before[k]);
            }
        }
    }
    v.insert(p, x);
    let ghost after = views(v@);
    assert(after =~= before.insert(p as int, x@));
    assert forall|i: int, j: int| 0 <= i < j < after.len() implies lex_lt(
        #[trigger] after[i],
        #[trigger] after[j],
    ) by {
        if j < p {
        } else if j == p {
        } else if i < p {
            lemma_lex_transitive(after[i], x@, after[j]);
        } else if i == p {
        } else {
        }
    }
    assert forall|y: Seq<char>| after.contains(y) <==> (before.contains(y) || y == x@) by {
        if after.contains(y) {
            let k = choose|k: int| 0 <= k < after.len() && after[k] == y;
            if k < p {
                assert(before[k] == y);
            } else if k > p {
                assert(before[k - 1] == y);
            }
        }
        if before.contains(y) {
            let k = choose|k: int| 0 <= k < before.len() && before[k] == y;
            if k < p {
                assert(after[k] == y);
            } else {
                assert(after[k + 1] == y);
            }
        }
        if y == x@ {
            assert(after[p as int] == y);
        }
    }
}

/// The command names that complete `prefix`, sorted and without repeats:
/// the builtins, and the executables on `PATH` (`executables`), that start
/// with `prefix`.
pub fn complete_command(prefix: &str, executables: &Vec<String>) -> (r: Vec<String>)
    ensures
        strictly_sorted(views(r@)),
        forall|name: Seq<char>|
            views(r@).contains(name) <==> completes(name, prefix@, views(executables@)),
{
    let ghost ex = views(executables@);
    let builtin = builtin_names();
    let ghost b = builtins();
    let mut names: Vec<String> = Vec::new();
    let mut i: usize = 0;
    while i < builtin.len()
        invariant
            i <= builtin@.len(),
            views(builtin@) == b,
            strictly_sorted(views(names@)),
            forall|y: Seq<char>|
                #![trigger views(names@).contains(y)]
                #![trigger b.take(i as int).contains(y)]
                views(names@).contains(y) <==> (b.take(i as int).contains(y) && starts_with(
                    y,
                    prefix@,
                )),
        decreases builtin@.len() - i,
    {
        let ghost t = b.take(i as int);
        assert(b.take(i + 1) =~= t.push(b[i as int]));
        assert(b[i as int] == builtin@[i as int]@);
        let ghost old_names = views(names@);
        assert(forall|y: Seq<char>| old_names.contains(y) <==> (t.contains(y) && starts_with(y, prefix@)));
        let keep = text_starts_with(builtin[i].as_str(), prefix);
        if keep {
            insert_sorted(&mut names, builtin[i].clone());
        }
        proof {
            assert forall|y: Seq<char>| t.push(b[i as int]).contains(y) <==> (t.contains(y) || y
                == b[i as int]) by {
                if t.push(b[i as int]).contains(y) {
                    let k = choose|k: int| 0 <= k < t.len() + 1 && t.push(b[i as int])[k] == y;
                    if k < t.len() {
                        assert(t[k] == y);
                    }
                }
                if t.contains(y) {
                    let k = choose|k: int| 0 <= k < t.len() && t[k] == y;
                    assert(t.push(b[i as int])[k] == y);
                }
                if y == b[i as int] {
                    assert(t.push(b[i as int])[t.len() as int] == y);
                }
            }
            assert forall|y: Seq<char>| views(names@).contains(y) <==> (t.push(b[i as int]).contains(
                y,
            ) && starts_with(y, prefix@)) by {
                assert(t.push(b[i as int]).contains(y) <==> (t.contains(y) || y == b[i as int]));
                assert(old_names.contains(y) <==> (t.contains(y) && starts_with(y, prefix@)));
                if keep {
                    assert(views(names@).contains(y) <==> (old_names.contains(y) || y == b[i as int]));
                } else {
                    assert(views(names@) == old_names);
                }
            }
        }
        i = i + 1;
    }
    assert(b.take(builtin@.len() as int) =~= b);
    assert(ex.take(0) =~= Seq::<Seq<char>>::empty());
    assert forall|y: Seq<char>| views(names@).contains(y) <==> ((b.contains(y) || ex.take(
        0,
    ).contains(y)) && starts_with(y, prefix@)) by {
        assert(!ex.take(0).contains(y));
        assert(views(names@).contains(y) <==> (b.take(builtin@.len() as int).contains(y)
            && starts_with(y, prefix@)));
    }
    let mut j: usize = 0;
    while j < executables.len()
        invariant
            j <= executables@.len(),
            ex == views(executables@),
            strictly_sorted(views(names@)),
            forall|y: Seq<char>|
                #![trigger views(names@).contains(y)]
                #![trigger ex.take(j as int).contains(y)]
                #![trigger b.contains(y)]
                views(names@).contains(y) <==> ((b.contains(y) || ex.take(j as int).contains(y))
                    && starts_with(y, prefix@)),
        decreases executables@.len() - j,
    {
        let ghost t = ex.take(j as int);
        assert(ex.take(j + 1) =~= t.push(ex[j as int]));
        assert(ex[j as int] == executables@[j as int]@);
        let ghost old_names = views(names@);
        assert(forall|y: Seq<char>| old_names.contains(y) <==> ((b.contains(y) || t.contains(y)) && starts_with(y, prefix@)));
        let keep = text_starts_with(executables[j].as_str(), prefix);
        if keep {
            insert_sorted(&mut names, executables[j].clone());
        }
        proof {
            assert forall|y: Seq<char>| t.push(ex[j as int]).contains(y) <==> (t.contains(y) || y
                == ex[j as int]) by {
                if t.push(ex[j as int]).contains(y) {
                    let k = choose|k: int| 0 <= k < t.len() + 1 && t.push(ex[j as int])[k] == y;
                    if k < t.len() {
                        assert(t[k] == y);
                    }
                }
                if t.contains(y) {
                    let k = choose|k: int| 0 <= k < t.len() && t[k] == y;
                    assert(t.push(ex[j as int])[k] == y);
                }
                if y == ex[j as int] {
                    assert(t.push(ex[j as int])[t.len() as int] == y);
                }
            }
            assert forall|y: Seq<char>| views(names@).contains(y) <==> ((b.contains(y) || t.push(
                ex[j as int],
            ).contains(y)) && starts_with(y, prefix@)) by {
                assert(t.push(ex[j as int]).contains(y) <==> (t.contains(y) || y == ex[j as int]));
                assert(old_names.contains(y) <==> ((b.contains(y) || t.contains(y)) && starts_with(
                    y,
                    prefix@,
                )));
                if keep {
                    assert(views(names@).contains(y) <==> (old_names.contains(y) || y == ex[j as int]));
                } else {
                    assert(views(names@) == old_names);
                }
            }
        }
        j = j + 1;
    }
    assert(ex.take(executables@.len() as int) =~= ex);
    names
}

/// The words of `s` between whitespace, as `str::split_whitespace` gives
/// them.
pub open spec fn ws_words(s: Seq<char>) -> Seq<Seq<char>>
    decreases s.len(),
{
    if s.len() == 0 {
        Seq::empty()
    } else {
        let w = ws_words(s.drop_last());
        let c = s.last();
        if is_space(c) {
            w
        } else if s.len() >= 2 && !is_space(s[s.len() - 2]) {
            w.update(w.len() - 1, w.last().push(c))
        } else {
            w.push(seq![c])
        }
    }
}

proof fn lemma_ws_words_open(s: Seq<char>)
    requires
        s.len() > 0,
        !is_space(s.last()),
    ensures
        ws_words(s).len() >= 1,
    decreases s.len(),
{
    if s.len() >= 2 && !is_space(s[s.len() - 2]) {
        lemma_ws_words_open(s.drop_last());
    }
}

/// The words of `s` between whitespace.
pub fn whitespace_words(s: &str) -> (r: Vec<String>)
    ensures
        views(r@) == ws_words(s@),
{
    let cs = chars_of(s);
    let n = cs.len();
    let mut words: Vec<String> = Vec::new();
    let mut in_word = false;
    let mut start: usize = 0;
    let mut i: usize = 0;
    assert(s@.take(0) =~= Seq::<char>::empty());
    while i < n
        invariant
            cs@ == s@,
            n == s@.len(),
            start <= i <= n,
            in_word ==> start < i && !is_space(s@[i - 1]),
            !in_word ==> (i == 0 || is_space(s@[i - 1])),
            in_word ==> ws_words(s@.take(i as int)) == views(words@).push(s@.subrange(start as int, i as int)),
            !in_word ==> ws_words(s@.take(i as int)) == views(words@),
        decreases n - i,
    {
        let c = cs[i];
        let ghost t1 = s@.take(i + 1);
        assert(t1.drop_last() =~= s@.take(i as int));
        assert(t1.last() == c);
        if char_is_space(c) {
            if in_word {
                let w = owned_substring(s, start, i);
                words.push(w);
                in_word = false;
            }
        } else {
            if in_word {
                assert(t1[i - 1] == s@[i - 1]);
                assert(s@.subrange(start as int, i + 1) =~= s@.subrange(start as int, i as int).push(c));
                assert(views(words@).push(s@.subrange(start as int, i as int)).update(
                    views(words@).len() as int,
                    s@.subrange(start as int, i as int).push(c),
                ) =~= views(words@).push(s@.subrange(start as int, i + 1)));
            } else {
                start = i;
                in_word = true;
                if i >= 1 {
                    assert(t1[i - 1] == s@[i - 1]);
                }
                assert(s@.subrange(start as int, i + 1) =~= seq![c]);
            }
        }
        i = i + 1;
    }
    assert(s@.take(n as int) =~= s@);
    if in_word {
        let w = owned_substring(s, start, n);
        words.push(w);
    }
    words
}

/// The Git subcommands that completion offers.
pub open spec fn git_subcommands() -> Seq<Seq<char>> {
    seq![
        "add"@, "bisect"@, "branch"@, "checkout"@, "cherry-pick"@, "clone"@, "commit"@,
        "diff"@, "fetch"@, "grep"@, "init"@, "log"@, "merge"@, "mv"@, "pull"@, "push"@,
        "rebase"@, "reflog"@, "remote"@, "reset"@, "restore"@, "revert"@, "rm"@, "show"@,
        "stash"@, "status"@, "switch"@, "tag"@, "worktree"@,
    ]
}

/// The Git subcommands whose argument completes to a branch name.
pub open spec fn is_branch_subcommand(s: Seq<char>) -> bool {
    ||| s == "checkout"@
    ||| s == "switch"@
    ||| s == "merge"@
    ||| s == "rebase"@
    ||| s == "branch"@
    ||| s == "diff"@
    ||| s == "log"@
    ||| s == "cherry-pick"@
    ||| s == "reset"@
}

/// The Git subcommands that start with `word`, in order.
pub open spec fn git_candidates(word: Seq<char>) -> Seq<Seq<char>> {
    git_subcommands().filter(|s: Seq<char>| starts_with(s, word))
}

fn git_subcommand_names() -> (r: Vec<String>)
    ensures
        views(r@) == git_subcommands(),
{
    let r = vec![
        String::from_str("add"), String::from_str("bisect"), String::from_str("branch"),
        String::from_str("checkout"), String::from_str("cherry-pick"), String::from_str("clone"),
        String::from_str("commit"), String::from_str("diff"), String::from_str("fetch"),
        String::from_str("grep"), String::from_str("init"), String::from_str("log"),
        String::from_str("merge"), String::from_str("mv"), String::from_str("pull"),
        String::from_str("push"), String::from_str("rebase"), String::from_str("reflog"),
        String::from_str("remote"), String::from_str("reset"), String::from_str("restore"),
        String::from_str("revert"), String::from_str("rm"), String::from_str("show"),
        String::from_str("stash"), String::from_str("status"), String::from_str("switch"),
        String::from_str("tag"), String::from_str("worktree"),
    ];
    assert(views(r@) =~= git_subcommands());
    r
}

/// The Git subcommands that start with `word`.
pub fn git_subcommands_for(word: &str) -> (r: Vec<String>)
    ensures
        views(r@) == git_candidates(word@),
{
    let all = git_subcommand_names();
    let ghost g = git_subcommands();
    let mut r: Vec<String> = Vec::new();
    let mut i: usize = 0;
    while i < all.len()
        invariant
            i <= all@.len(),
            views(all@) == g,
            views(r@) == g.take(i as int).filter(|s: Seq<char>| starts_with(s, word@)),
        decreases all@.len() - i,
    {
        let ghost before = views(r@);
        assert(g.take(i + 1).drop_last() =~= g.take(i as int));
        assert(g.take(i + 1).last() == all@[i as int]@);
        if text_starts_with(all[i].as_str(), word) {
            r.push(all[i].clone());
            assert(views(r@) =~= before.push(all@[i as int]@));
        }
        proof {
            reveal_with_fuel(Seq::<Seq<char>>::filter, 1);
        }
        i = i + 1;
    }
    assert(g.take(all@.len() as int) =~= g);
    r
}

/// Whether `s` is a Git subcommand whose argument completes to a branch.
pub fn branch_subcommand(s: &str) -> (r: bool)
    ensures
        r == is_branch_subcommand(s@),
{
    text_eq(s, "checkout") || text_eq(s, "switch") || text_eq(s, "merge") || text_eq(s, "rebase")
        || text_eq(s, "branch") || text_eq(s, "diff") || text_eq(s, "log") || text_eq(
        s,
        "cherry-pick",
    ) || text_eq(s, "reset")
}

/// What tab completion offers.
pub enum CompletionPlan {
    /// Command names that start with `prefix`, to replace the text from
    /// byte `start` on.
    Commands { start: usize, prefix: String },
    /// File and directory names, as the file name completer gives them.
    Files,
    /// These names, to replace the text from byte `start` on.
    Candidates { start: usize, names: Vec<String> },
    /// Git branch names that start with `prefix`, to replace the text from
    /// byte `start` on.
    Branches { start: usize, prefix: String },
    /// Nothing.
    Nothing,
}

/// The model of a completion plan (the positions left out).
pub enum CompletionKind {
    Commands(Seq<char>),
    Files,
    Candidates(Seq<Seq<char>>),
    Branches(Seq<char>),
    Nothing,
}

/// What completion offers for the word `word`, after the text `before`:
/// command names for the first word; file names after `cd` or `ls`; after
/// `git`, its subcommands for the first argument, then branch names for the
/// subcommands that take a branch, and file names otherwise; nothing after
/// any other command.
pub open spec fn completion_for(before: Seq<char>, word: Seq<char>) -> CompletionKind {
    let ws = ws_words(before);
    if ws.len() == 0 {
        CompletionKind::Commands(word)
    } else if ws[0] == "cd"@ || ws[0] == "ls"@ {
        CompletionKind::Files
    } else if ws[0] == "git"@ {
        if ws.len() == 1 {
            CompletionKind::Candidates(git_candidates(word))
        } else if is_branch_subcommand(ws[1]) {
            CompletionKind::Branches(word)
        } else {
            CompletionKind::Files
        }
    } else {
        CompletionKind::Nothing
    }
}

/// The model of a completion plan.
pub open spec fn plan_kind(p: CompletionPlan) -> CompletionKind {
    match p {
        CompletionPlan::Commands { prefix, .. } => CompletionKind::Commands(prefix@),
        CompletionPlan::Files => CompletionKind::Files,
        CompletionPlan::Candidates { names, .. } => CompletionKind::Candidates(views(names@)),
        CompletionPlan::Branches { prefix, .. } => CompletionKind::Branches(prefix@),
        CompletionPlan::Nothing => CompletionKind::Nothing,
    }
}

/// The byte where the replaced text starts, for the plans that have one.
pub open spec fn plan_start(p: CompletionPlan) -> Option<usize> {
    match p {
        CompletionPlan::Commands { start, .. } => Some(start),
        CompletionPlan::Candidates { start, .. } => Some(start),
        CompletionPlan::Branches { start, .. } => Some(start),
        _ => None,
    }
}

/// What tab completion offers for `line` with the cursor at byte `pos`:
/// the word that ends at the cursor, and the text before it, decide it, by
/// `completion_for`; what it offers replaces that word.
pub fn plan_completion(line: &str, pos: usize) -> (r: CompletionPlan)
    requires
        at_char_boundary(line@, pos as int),
    ensures
        exists|before: Seq<char>, word: Seq<char>|
            {
                &&& word_split(line@, pos as int, before, word)
                &&& plan_kind(r) == completion_for(before, word)
                &&& plan_start(r) is Some ==> plan_start(r) == Some(
                    encode_utf8(before).len() as usize,
                )
            },
{
    let (start, before, word) = extract_last_word(line, pos);
    let ghost bv = before@;
    let ghost wv = word@;
    let words = whitespace_words(before.as_str());
    let r = if words.len() == 0 {
        CompletionPlan::Commands { start, prefix: word }
    } else if text_eq(words[0].as_str(), "cd") || text_eq(words[0].as_str(), "ls") {
        CompletionPlan::Files
    } else if text_eq(words[0].as_str(), "git") {
        if words.len() == 1 {
            CompletionPlan::Candidates { start, names: git_subcommands_for(word.as_str()) }
        } else if branch_subcommand(words[1].as_str()) {
            CompletionPlan::Branches { start, prefix: word }
        } else {
            CompletionPlan::Files
        }
    } else {
        CompletionPlan::Nothing
    };
    assert(word_split(line@, pos as int, bv, wv));
    assert(plan_kind(r) == completion_for(bv, wv));
    r
}

/// The lines of `s`, as `str::lines` gives them: the pieces between
/// newlines, without an empty last piece (the text after a final newline).
pub open spec fn output_lines(s: Seq<char>) -> Seq<Seq<char>> {
    let g = split_on(s, '\n');
    if g.last().len() == 0 {
        g.drop_last()
    } else {
        g
    }
}

/// The branch names in the output of `git branch` that complete `prefix`:
/// each line, trimmed, that starts with `prefix`, in order.
pub open spec fn branch_names(output: Seq<char>, prefix: Seq<char>) -> Seq<Seq<char>> {
    output_lines(output).map_values(|l: Seq<char>| trim(l)).filter(|b: Seq<char>| starts_with(b, prefix))
}

/// The branch names in the output of `git branch` that complete `prefix`.
pub fn branches_from_output(output: &str, prefix: &str) -> (r: Vec<String>)
    ensures
        views(r@) == branch_names(output@, prefix@),
{
    let pieces = split_chars(output, '\n');
    let ghost g = split_on(output@, '\n');
    proof {
        crate::text::lemma_split_on_len(output@, '\n');
    }
    let mut n = pieces.len();
    if pieces[n - 1].as_str().is_empty() {
        n = n - 1;
    }
    let ghost lines = output_lines(output@);
    assert(lines =~= g.take(n as int));
    let ghost trimmed_lines = lines.map_values(|l: Seq<char>| trim(l));
    let mut r: Vec<String> = Vec::new();
    let mut i: usize = 0;
    while i < n
        invariant
            n <= pieces@.len(),
            views(pieces@) == g,
            lines == g.take(n as int),
            trimmed_lines == lines.map_values(|l: Seq<char>| trim(l)),
            i <= n,
            views(r@) == trimmed_lines.take(i as int).filter(|b: Seq<char>| starts_with(b, prefix@)),
        decreases n - i,
    {
        let ghost before = views(r@);
        let t = trimmed(pieces[i].as_str());
        assert(trimmed_lines.take(i + 1).drop_last() =~= trimmed_lines.take(i as int));
        assert(trimmed_lines.take(i + 1).last() == t@);
        if text_starts_with(t.as_str(), prefix) {
            r.push(t);
            assert(views(r@) =~= before.push(trimmed_lines[i as int]));
        }
        proof {
            reveal_with_fuel(Seq::<Seq<char>>::filter, 1);
        }
        i = i + 1;
    }
    assert(trimmed_lines.take(n as int) =~= trimmed_lines);
    r
}

/// How many characters at the start of `t` belong to its first word (up to
/// the first space or tab).
pub open spec fn first_word_len(t: Seq<char>) -> nat
    decreases t.len(),
{
    if t.len() > 0 && t[0] != ' ' && t[0] != '\t' {
        1 + first_word_len(t.drop_first())
    } else {
        0
    }
}

/// The command word of a line: its first word once leading whitespace is
/// passed over.
pub open spec fn command_word(line: Seq<char>) -> Seq<char> {
    trim_start(line).take(first_word_len(trim_start(line)) as int)
}

/// The line with its command word colored: orange when `known` (a builtin,
/// or a program on `PATH`), red otherwise; a blank line stays as it is.
pub open spec fn highlighted(line: Seq<char>, known: bool) -> Seq<char> {
    let t = trim_start(line);
    let lead = line.take(line.len() - t.len());
    let color = if known {
        "38;5;208"@
    } else {
        "38;5;196"@
    };
    let e = first_word_len(t) as int;
    if t.len() == 0 {
        line
    } else {
        lead + "\x1b["@ + color + "m"@ + t.take(e) + "\x1b[0m"@ + t.skip(e)
    }
}

proof fn lemma_first_word_len(t: Seq<char>, i: int)
    requires
        0 <= i <= t.len(),
        forall|k: int| 0 <= k < i ==> t[k] != ' ' && t[k] != '\t',
        i == t.len() || t[i] == ' ' || t[i] == '\t',
    ensures
        first_word_len(t) == i,
    decreases i,
{
    if i > 0 {
        lemma_first_word_len(t.drop_first(), i - 1);
    }
}

/// The line with its command word colored, where `known` says whether the
/// command is a builtin or a program on `PATH`.
pub fn highlight_with(line: &str, known: bool) -> (r: String)
    ensures
        r@ == highlighted(line@, known),
{
    let cs = chars_of(line);
    let n = cs.len();
    let mut a: usize = 0;
    assert(line@.skip(0) =~= line@);
    while a < n && char_is_space(cs[a])
        invariant
            cs@ == line@,
            n == line@.len(),
            a <= n,
            trim_start(line@.skip(a as int)) == trim_start(line@),
        decreases n - a,
    {
        assert(line@.skip(a as int).drop_first() =~= line@.skip(a + 1));
        a = a + 1;
    }
    let ghost t = line@.skip(a as int);
    assert(trim_start(t) == t);
    if a == n {
        return String::from_str(line);
    }
    let mut e = a;
    while e < n && cs[e] != ' ' && cs[e] != '\t'
        invariant
            cs@ == line@,
            n == line@.len(),
            a <= e <= n,
            forall|k: int| a <= k < e ==> line@[k] != ' ' && line@[k] != '\t',
        decreases n - e,
    {
        e = e + 1;
    }
    proof {
        lemma_first_word_len(t, e - a);
    }
    let mut r = owned_substring(line, 0, a);
    r.append("\x1b[");
    if known {
        r.append("38;5;208");
    } else {
        r.append("38;5;196");
    }
    r.append("m");
    r.append(line.substring_char(a, e));
    r.append("\x1b[0m");
    r.append(line.substring_char(e, n));
    assert(t.take(e - a) =~= line@.subrange(a as int, e as int));
    assert(t.skip(e - a) =~= line@.subrange(e as int, n as int));
    assert(line@.take(line@.len() - t.len()) =~= line@.subrange(0, a as int));
    r
}

/// The command word of `line`.
pub fn command_word_of(line: &str) -> (r: String)
    ensures
        r@ == command_word(line@),
{
    let cs = chars_of(line);
    let n = cs.len();
    let mut a: usize = 0;
    assert(line@.skip(0) =~= line@);
    while a < n && char_is_space(cs[a])
        invariant
            cs@ == line@,
            n == line@.len(),
            a <= n,
            trim_start(line@.skip(a as int)) == trim_start(line@),
        decreases n - a,
    {
        assert(line@.skip(a as int).drop_first() =~= line@.skip(a + 1));
        a = a + 1;
    }
    let ghost t = line@.skip(a as int);
    assert(trim_start(t) == t);
    let mut e = a;
    while e < n && cs[e] != ' ' && cs[e] != '\t'
        invariant
            cs@ == line@,
            n == line@.len(),
            a <= e <= n,
            forall|k: int| a <= k < e ==> line@[k] != ' ' && line@[k] != '\t',
        decreases n - e,
    {
        e = e + 1;
    }
    proof {
        lemma_first_word_len(t, e - a);
    }
    assert(t.take(e - a) =~= line@.subrange(a as int, e as int));
    owned_substring(line, a, e)
}

/// The line with its command word colored: orange for a builtin or a
/// program that `PATH` has, red otherwise.
pub fn highlight(line: &str) -> (r: String)
    ensures
        exists|known: bool|
            (is_builtin_name(command_word(line@)) ==> known) && r@ == highlighted(line@, known),
{
    let word = command_word_of(line);
    let known = is_builtin(word.as_str()) || find_executable(word.as_str()).is_some();
    let r = highlight_with(line, known);
    assert(is_builtin_name(command_word(line@)) ==> known);
    assert(r@ == highlighted(line@, known));
    r
}

/// Appending a word (no whitespace in it) after nothing or after
/// whitespace adds that word to the whitespace-separated words.
proof fn lemma_ws_append_word(s: Seq<char>, t: Seq<char>)
    requires
        s.len() == 0 || is_space(s.last()),
        t.len() > 0,
        forall|i: int| 0 <= i < t.len() ==> !is_space(#[trigger] t[i]),
    ensures
        ws_words(s + t) == ws_words(s).push(t),
    decreases t.len(),
{
    let u = s + t;
    if t.len() == 1 {
        assert(u.drop_last() =~= s);
        assert(u.last() == t[0]);
        assert(seq![t[0]] =~= t);
    } else {
        let t0 = t.drop_last();
        assert forall|i: int| 0 <= i < t0.len() implies !is_space(#[trigger] t0[i]) by {
            assert(t0[i] == t[i]);
        }
        lemma_ws_append_word(s, t0);
        assert(u.drop_last() =~= s + t0);
        assert(u[u.len() - 2] == t[t.len() - 2]);
        let w = ws_words(s + t0);
        assert(w == ws_words(s).push(t0));
        assert(u.last() == t.last());
        assert(t0.push(t.last()) =~= t);
        assert(w.last() == t0);
        assert(w.update(w.len() - 1, t) =~= ws_words(s).push(t));
    }
}

/// A space after some text adds no word.
proof fn lemma_ws_append_space(s: Seq<char>)
    ensures
        ws_words(s + " "@) == ws_words(s),
{
    reveal_strlit(" ");
    assert((s + " "@).drop_last() =~= s);
    assert((s + " "@).last() == ' ');
}

/// Whether `sub` is one of the Git subcommands that take a branch:
/// checkout, switch, merge, rebase, branch, diff, log, cherry-pick, reset.
pub open spec fn takes_branch(sub: Seq<char>) -> bool {
    sub == "checkout"@ || sub == "switch"@ || sub == "merge"@ || sub == "rebase"@ || sub
        == "branch"@ || sub == "diff"@ || sub == "log"@ || sub == "cherry-pick"@ || sub == "reset"@
}

/// After `git` and a subcommand that takes a branch, completion offers the
/// branch names that start with the word being typed.
pub proof fn law_git_branch_completion(sub: Seq<char>, word: Seq<char>)
    requires
        takes_branch(sub),
    ensures
        completion_for("git "@ + sub + " "@, word) == CompletionKind::Branches(word),
{
    reveal_strlit("git ");
    reveal_strlit("git");
    reveal_strlit(" ");
    reveal_strlit("checkout");
    reveal_strlit("switch");
    reveal_strlit("merge");
    reveal_strlit("rebase");
    reveal_strlit("branch");
    reveal_strlit("diff");
    reveal_strlit("log");
    reveal_strlit("cherry-pick");
    reveal_strlit("reset");
    reveal_strlit("cd");
    reveal_strlit("ls");
    let g = "git"@;
    assert(forall|i: int| 0 <= i < sub.len() ==> !is_space(#[trigger] sub[i]));
    assert(forall|i: int| 0 <= i < g.len() ==> !is_space(#[trigger] g[i]));
    lemma_ws_append_word(Seq::empty(), g);
    assert(Seq::<char>::empty() + g =~= g);
    lemma_ws_append_space(g);
    assert(g + " "@ =~= "git "@);
    lemma_ws_append_word("git "@, sub);
    lemma_ws_append_space("git "@ + sub);
    let before = "git "@ + sub + " "@;
    assert(ws_words(before) =~= seq![g, sub]);
    assert(g != "cd"@);
    assert(g != "ls"@);
}

/// The first word of a line completes to command names, and the word
/// after `cd` or `ls` to file names.
pub proof fn law_command_and_file_completion(word: Seq<char>)
    ensures
        completion_for(Seq::empty(), word) == CompletionKind::Commands(word),
        completion_for("cd "@, word) == CompletionKind::Files,
        completion_for("ls "@, word) == CompletionKind::Files,
{
    reveal_strlit("cd ");
    reveal_strlit("ls ");
    reveal_strlit("cd");
    reveal_strlit("ls");
    reveal_strlit(" ");
    let c = "cd"@;
    let l = "ls"@;
    assert(forall|i: int| 0 <= i < c.len() ==> !is_space(#[trigger] c[i]));
    assert(forall|i: int| 0 <= i < l.len() ==> !is_space(#[trigger] l[i]));
    lemma_ws_append_word(Seq::empty(), c);
    lemma_ws_append_word(Seq::empty(), l);
    assert(Seq::<char>::empty() + c =~= c);
    assert(Seq::<char>::empty() + l =~= l);
    lemma_ws_append_space(c);
    lemma_ws_append_space(l);
    assert(c + " "@ =~= "cd "@);
    assert(l + " "@ =~= "ls "@);
    assert(ws_words("cd "@) =~= seq![c]);
    assert(ws_words("ls "@) =~= seq![l]);
}

} // verus!
