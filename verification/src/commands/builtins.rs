//! What the builtin commands `echo`, `history` and `type` print.

use vstd::prelude::*;

use crate::bindings::{ends_with_component, ExecutablePath};
use crate::commands::{find_executable, is_builtin, is_builtin_name};
use crate::text::{
    decimal, decimal_text, join, join_strings, pad_left, parse_unsigned, parse_unsigned_exec,
    push_spaces, spaces, views,
};

verus! {

/// What `echo` prints: its arguments joined by single spaces, and a
/// newline.
pub fn echo_args(args: &Vec<String>) -> (r: String)
    ensures
        r@ == join(views(args@), " "@) + "\n"@,
{
    let mut r = join_strings(args, " ");
    r.append("\n");
    r
}

/// The first history entry that `history` prints, for the arguments `args`
/// and `total` entries: with a first argument that reads as a number `n`
/// smaller than `total`, the last `n` entries; otherwise all of them.
pub open spec fn history_start(args: Seq<Seq<char>>, total: nat) -> nat {
    if args.len() > 0 {
        match parse_unsigned(args[0], usize::MAX as nat) {
            Some(n) => if n < total {
                (total - n) as nat
            } else {
                0
            },
            None => 0,
        }
    } else {
        0
    }
}

/// The line `history` prints for entry `idx` (counted from zero): two
/// spaces, the entry's number (counted from one) right-aligned in four
/// columns, two spaces, the entry, and a newline.
pub open spec fn history_line(idx: nat, entry: Seq<char>) -> Seq<char> {
    "  "@ + pad_left(decimal(idx + 1), 4) + "  "@ + entry + "\n"@
}

/// The lines that `history` prints for the entries from `i` on.
pub open spec fn history_lines_from(history: Seq<Seq<char>>, i: int) -> Seq<char>
    decreases history.len() - i,
{
    if i < 0 || i >= history.len() {
        Seq::empty()
    } else {
        history_line(i as nat, history[i]) + history_lines_from(history, i + 1)
    }
}

/// What `history` prints, for its arguments and the history of the session.
pub open spec fn history_output(args: Seq<Seq<char>>, history: Seq<Seq<char>>) -> Seq<char> {
    history_lines_from(history, history_start(args, history.len()) as int)
}

/// The number `n` right-aligned in four columns.
fn padded_number(n: u64) -> (r: String)
    ensures
        r@ == pad_left(decimal(n as nat), 4),
{
    let digits = decimal_text(n);
    let len = digits.as_str().unicode_len();
    let mut r = String::new();
    if len < 4 {
        push_spaces(&mut r, 4 - len);
    }
    r.append(digits.as_str());
    r
}

/// What `history` prints: the entries of `history`, numbered from one;
/// only the last `n` when the first argument reads as a number `n`
/// smaller than the number of entries.
pub fn history_text(args: &Vec<String>, history: &Vec<String>) -> (r: String)
    ensures
        r@ == history_output(views(args@), views(history@)),
{
    let total = history.len();
    let count = if args.len() > 0 {
        parse_unsigned_exec(args[0].as_str(), usize::MAX as u64)
    } else {
        None
    };
    let start: usize = match count {
        Some(n) => if n < total as u64 {
            total - n as usize
        } else {
            0
        },
        None => 0,
    };
    let ghost h = views(history@);
    assert(start == history_start(views(args@), h.len()));
    let mut out = String::new();
    let mut i = start;
    while i < total
        invariant
            total == history@.len(),
            h == views(history@),
            start <= i <= total,
            out@ + history_lines_from(h, i as int) == history_lines_from(h, start as int),
        decreases total - i,
    {
        let ghost before = out@;
        out.append("  ");
        let num = padded_number((i + 1) as u64);
        out.append(num.as_str());
        out.append("  ");
        out.append(history[i].as_str());
        out.append("\n");
        assert(out@ =~= before + history_line(i as nat, h[i as int]));
        assert(history_lines_from(h, i as int) == history_line(i as nat, h[i as int])
            + history_lines_from(h, i + 1));
        i = i + 1;
    }
    out
}

/// The line `type` prints for `name`, where `found` is how `PATH` showed
/// the program found for it (`None`: nothing found).
pub open spec fn type_line(name: Seq<char>, found: Option<Seq<char>>) -> Seq<char> {
    if is_builtin_name(name) {
        name + " is a shell builtin"@
    } else {
        match found {
            Some(shown) => name + " is "@ + shown,
            None => name + ": not found"@,
        }
    }
}

/// How a `PATH` search result shows the program it found.
pub open spec fn shown_path(found: Option<ExecutablePath>) -> Option<Seq<char>> {
    match found {
        Some(e) => Some(e.shown@),
        None => None,
    }
}

/// The line `type` prints for `name`, where `found` is what a search of
/// `PATH` for it gave.
pub fn type_line_for(name: &str, found: Option<ExecutablePath>) -> (r: String)
    ensures
        r@ == type_line(name@, shown_path(found)),
{
    let mut r = String::from_str(name);
    if is_builtin(name) {
        r.append(" is a shell builtin");
    } else {
        match found {
            Some(e) => {
                r.append(" is ");
                r.append(e.shown.as_str());
            },
            None => {
                r.append(": not found");
            },
        }
    }
    r
}

/// Whether `shown` can be how `type` shows the program that a search of
/// `PATH` for `name` found: a path that names `name` inside a directory, or,
/// for a path that is not valid UTF-8, a text that holds a U+FFFD.
pub open spec fn shown_for(name: Seq<char>, shown: Seq<char>) -> bool {
    ends_with_component(shown, name) || shown.contains('\u{FFFD}')
}

/// Whether `text` is what `type` can print for `names`: one line per name,
/// joined by newlines; a builtin is said to be one; any other name is shown
/// with the program that a search of `PATH` for it found, or as not found
/// (always so for the empty name).
pub open spec fn types_fit(names: Seq<Seq<char>>, text: Seq<char>) -> bool {
    exists|found: Seq<Option<Seq<char>>>|
        {
            &&& found.len() == names.len()
            &&& forall|i: int|
                0 <= i < names.len() && (#[trigger] names[i]).len() == 0 ==> found[i] is None
            &&& forall|i: int|
                0 <= i < names.len() && #[trigger] found[i] is Some ==> shown_for(
                    names[i],
                    found[i]->0,
                )
            &&& text == join(
                Seq::new(names.len(), |i: int| type_line(names[i], found[i])),
                "\n"@,
            )
        }
}

/// What `type` prints for `args` (without the final newline): for each
/// name, whether it is a builtin, or where `PATH` finds it.
pub fn resolve_types(args: &Vec<String>) -> (r: String)
    ensures
        types_fit(views(args@), r@),
{
    let ghost names = views(args@);
    let mut lines: Vec<String> = Vec::new();
    let ghost mut found: Seq<Option<Seq<char>>> = Seq::empty();
    let mut i: usize = 0;
    while i < args.len()
        invariant
            i <= args@.len(),
            names == views(args@),
            found.len() == i,
            lines@.len() == i,
            forall|k: int| 0 <= k < i && (#[trigger] names[k]).len() == 0 ==> found[k] is None,
            forall|k: int|
                0 <= k < i && #[trigger] found[k] is Some ==> shown_for(names[k], found[k]->0),
            forall|k: int|
                0 <= k < i ==> (#[trigger] lines@[k])@ == type_line(names[k], found[k]),
        decreases args@.len() - i,
    {
        let name = args[i].as_str();
        let f = if is_builtin(name) {
            None
        } else {
            find_executable(name)
        };
        proof {
            found = found.push(shown_path(f));
        }
        let line = type_line_for(name, f);
        lines.push(line);
        i = i + 1;
    }
    let r = join_strings(&lines, "\n");
    proof {
        assert(views(lines@) =~= Seq::new(names.len(), |i: int| type_line(names[i], found[i])));
    }
    r
}

} // verus!
