//! The `ls` builtin: its options, which entries it lists and in what
//! order, and how it lays them out.

use vstd::prelude::*;

use crate::bindings::{lowercase, to_lowercase};
use crate::paths::{file_name, file_name_of};
use crate::sorting::{stable_order, stable_sort_indices};
use crate::text::{chars_of, text_eq, views};

verus! {

/// The options of `ls`: whether hidden entries are shown (`-a`), whether
/// each entry gets a line of its own (`-l`), and the paths to list.
pub struct LsOptions {
    pub show_all: bool,
    pub long_format: bool,
    pub paths: Vec<String>,
}

/// Whether `arg` is a group of short options: it starts with `-`, but not
/// with `--`.
pub open spec fn is_option_arg(arg: Seq<char>) -> bool {
    arg.len() > 0 && arg[0] == '-' && !(arg.len() > 1 && arg[1] == '-')
}

/// Whether some group of short options among `args` holds the letter `c`.
pub open spec fn has_option(args: Seq<Seq<char>>, c: char) -> bool {
    exists|i: int| 0 <= i < args.len() && is_option_arg(#[trigger] args[i]) && args[i].drop_first().contains(c)
}

/// The arguments that are not option groups, in order.
pub open spec fn path_args(args: Seq<Seq<char>>) -> Seq<Seq<char>>
    decreases args.len(),
{
    if args.len() == 0 {
        Seq::empty()
    } else if is_option_arg(args.last()) {
        path_args(args.drop_last())
    } else {
        path_args(args.drop_last()).push(args.last())
    }
}

/// The paths `ls` lists: those among its arguments, or `.` when there are
/// none.
pub open spec fn ls_paths(args: Seq<Seq<char>>) -> Seq<Seq<char>> {
    if path_args(args).len() == 0 {
        seq!["."@]
    } else {
        path_args(args)
    }
}

proof fn lemma_contains_push(s: Seq<char>, c: char, x: char)
    ensures
        s.push(c).contains(x) <==> (s.contains(x) || c == x),
{
    if s.contains(x) {
        let k = choose|k: int| 0 <= k < s.len() && s[k] == x;
        assert(s.push(c)[k] == x);
    }
    if c == x {
        assert(s.push(c)[s.len() as int] == x);
    }
    if s.push(c).contains(x) {
        let k = choose|k: int| 0 <= k < s.push(c).len() && s.push(c)[k] == x;
        if k < s.len() {
            assert(s[k] == x);
        }
    }
}

fn option_letters(arg: &str) -> (r: (bool, bool))
    requires
        arg@.len() > 0,
    ensures
        r.0 == arg@.drop_first().contains('a'),
        r.1 == arg@.drop_first().contains('l'),
{
    let n = arg.unicode_len();
    let mut all = false;
    let mut long = false;
    let mut i: usize = 1;
    while i < n
        invariant
            n == arg@.len(),
            1 <= i <= n,
            all == arg@.subrange(1, i as int).contains('a'),
            long == arg@.subrange(1, i as int).contains('l'),
        decreases n - i,
    {
        let c = arg.get_char(i);
        let ghost before = arg@.subrange(1, i as int);
        assert(arg@.subrange(1, i + 1) =~= before.push(c));
        proof {
            lemma_contains_push(before, c, 'a');
            lemma_contains_push(before, c, 'l');
        }
        if c == 'a' {
            all = true;
        }
        if c == 'l' {
            long = true;
        }
        i = i + 1;
    }
    assert(arg@.subrange(1, n as int) =~= arg@.drop_first());
    (all, long)
}

/// Read the arguments of `ls`.
pub fn parse_ls_args(args: &Vec<String>) -> (r: LsOptions)
    ensures
        r.show_all == has_option(views(args@), 'a'),
        r.long_format == has_option(views(args@), 'l'),
        views(r.paths@) == ls_paths(views(args@)),
{
    let ghost a = views(args@);
    let mut show_all = false;
    let mut long_format = false;
    let mut paths: Vec<String> = Vec::new();
    let mut i: usize = 0;
    while i < args.len()
        invariant
            i <= args@.len(),
            a == views(args@),
            show_all == has_option(a.take(i as int), 'a'),
            long_format == has_option(a.take(i as int), 'l'),
            views(paths@) == path_args(a.take(i as int)),
        decreases args@.len() - i,
    {
        let arg = args[i].as_str();
        let ghost t = a.take(i as int);
        let ghost t1 = a.take(i + 1);
        assert(t1.drop_last() =~= t);
        assert(t1.last() == arg@);
        let n = arg.unicode_len();
        let is_opt = n > 0 && arg.get_char(0) == '-' && !(n > 1 && arg.get_char(1) == '-');
        if is_opt {
            let (a_flag, l_flag) = option_letters(arg);
            proof {
                if a_flag {
                    assert(t1[i as int] == arg@);
                }
                if l_flag {
                    assert(t1[i as int] == arg@);
                }
                if show_all {
                    let k = choose|k: int| 0 <= k < t.len() && is_option_arg(t[k]) && t[k].drop_first().contains('a');
                    assert(t1[k] == t[k]);
                }
                if long_format {
                    let k = choose|k: int| 0 <= k < t.len() && is_option_arg(t[k]) && t[k].drop_first().contains('l');
                    assert(t1[k] == t[k]);
                }
                if has_option(t1, 'a') {
                    let k = choose|k: int| 0 <= k < t1.len() && is_option_arg(t1[k]) && t1[k].drop_first().contains('a');
                    if k < i {
                        assert(t[k] == t1[k]);
                    }
                }
                if has_option(t1, 'l') {
                    let k = choose|k: int| 0 <= k < t1.len() && is_option_arg(t1[k]) && t1[k].drop_first().contains('l');
                    if k < i {
                        assert(t[k] == t1[k]);
                    }
                }
            }
            show_all = show_all || a_flag;
            long_format = long_format || l_flag;
        } else {
            paths.push(args[i].clone());
            proof {
                if show_all {
                    let k = choose|k: int| 0 <= k < t.len() && is_option_arg(t[k]) && t[k].drop_first().contains('a');
                    assert(t1[k] == t[k]);
                }
                if long_format {
                    let k = choose|k: int| 0 <= k < t.len() && is_option_arg(t[k]) && t[k].drop_first().contains('l');
                    assert(t1[k] == t[k]);
                }
                if has_option(t1, 'a') {
                    let k = choose|k: int| 0 <= k < t1.len() && is_option_arg(t1[k]) && t1[k].drop_first().contains('a');
                    assert(k < i);
                    assert(t[k] == t1[k]);
                }
                if has_option(t1, 'l') {
                    let k = choose|k: int| 0 <= k < t1.len() && is_option_arg(t1[k]) && t1[k].drop_first().contains('l');
                    assert(k < i);
                    assert(t[k] == t1[k]);
                }
                assert(views(paths@) =~= path_args(t).push(arg@));
            }
        }
        i = i + 1;
    }
    assert(a.take(args@.len() as int) =~= a);
    if paths.len() == 0 {
        paths.push(String::from_str("."));
        assert(views(paths@) =~= seq!["."@]);
    }
    LsOptions { show_all, long_format, paths }
}

/// An entry shown with a `/` after it when it is a directory.
pub open spec fn display_of(name: Seq<char>, is_dir: bool) -> Seq<char> {
    if is_dir {
        name + "/"@
    } else {
        name
    }
}

/// The text `ls` shows for an entry: a `/` after a directory's name.
pub fn display_name(name: &str, is_dir: bool) -> (r: String)
    ensures
        r@ == display_of(name@, is_dir),
{
    let mut r = String::from_str(name);
    if is_dir {
        r.append("/");
    }
    r
}

/// A hidden entry's name starts with `.`.
pub open spec fn is_hidden(name: Seq<char>) -> bool {
    name.len() > 0 && name[0] == '.'
}

/// The terminal color for directories.
pub open spec fn dir_color() -> Seq<char> {
    "\x1b[38;5;208m"@
}

/// The terminal color for hidden entries.
pub open spec fn hidden_color() -> Seq<char> {
    "\x1b[38;5;245m"@
}

/// The code that ends a terminal color.
pub open spec fn color_reset() -> Seq<char> {
    "\x1b[0m"@
}

/// How `ls` colors what it shows for an entry: grey for hidden entries
/// (directories too), orange for other directories, no color otherwise.
pub open spec fn colored(display: Seq<char>, is_dir: bool, hidden: bool) -> Seq<char> {
    if hidden {
        hidden_color() + display + color_reset()
    } else if is_dir {
        dir_color() + display + color_reset()
    } else {
        display
    }
}

/// Color what `ls` shows for an entry.
pub fn colorize_ls_entry(display: &str, is_dir: bool, hidden: bool) -> (r: String)
    ensures
        r@ == colored(display@, is_dir, hidden),
{
    if hidden {
        let mut r = String::from_str("\x1b[38;5;245m");
        r.append(display);
        r.append("\x1b[0m");
        r
    } else if is_dir {
        let mut r = String::from_str("\x1b[38;5;208m");
        r.append(display);
        r.append("\x1b[0m");
        r
    } else {
        String::from_str(display)
    }
}

/// Whether `name` is hidden.
pub fn name_is_hidden(name: &str) -> (r: bool)
    ensures
        r == is_hidden(name@),
{
    name.unicode_len() > 0 && name.get_char(0) == '.'
}

/// How `ls` shows an entry, colored.
pub open spec fn entry_text(e: (Seq<char>, bool)) -> Seq<char> {
    colored(display_of(e.0, e.1), e.1, is_hidden(e.0))
}

/// How `ls` shows an entry, colored.
pub fn entry_colored(name: &str, is_dir: bool) -> (r: String)
    ensures
        r@ == entry_text((name@, is_dir)),
{
    let d = display_name(name, is_dir);
    colorize_ls_entry(d.as_str(), is_dir, name_is_hidden(name))
}

/// The models of entries: name and whether it is a directory.
pub open spec fn entry_views(v: Seq<(String, bool)>) -> Seq<(Seq<char>, bool)> {
    v.map_values(|e: (String, bool)| (e.0@, e.1))
}

/// The entries `ls` lists for a directory that holds `dir_entries` (in
/// the order they were read): with `-a`, `.` and `..` first and every
/// entry; without, only the entries that are not hidden.
pub open spec fn listed(dir_entries: Seq<(Seq<char>, bool)>, show_all: bool) -> Seq<(Seq<char>, bool)> {
    if show_all {
        seq![("."@, true), (".."@, true)] + dir_entries
    } else {
        dir_entries.filter(|e: (Seq<char>, bool)| !is_hidden(e.0))
    }
}

/// The key `ls` sorts entries by: the name in lower case.
pub open spec fn sort_keys(es: Seq<(Seq<char>, bool)>) -> Seq<Seq<char>> {
    es.map_values(|e: (Seq<char>, bool)| lowercase(e.0))
}

/// Whether `out` is `es` sorted by lower-case name, entries with the same
/// lower-case name keeping their order.
pub open spec fn sorted_listing(es: Seq<(Seq<char>, bool)>, out: Seq<(Seq<char>, bool)>) -> bool {
    exists|perm: Seq<int>|
        {
            &&& stable_order(sort_keys(es), perm)
            &&& out.len() == perm.len()
            &&& forall|k: int| 0 <= k < out.len() ==> #[trigger] out[k] == es[perm[k]]
        }
}

/// The entries `ls` shows for a directory that holds `dir_entries`, in the
/// order it shows them.
pub fn listing_entries(dir_entries: &Vec<(String, bool)>, show_all: bool) -> (r: Vec<(String, bool)>)
    ensures
        sorted_listing(listed(entry_views(dir_entries@), show_all), entry_views(r@)),
{
    let ghost dv = entry_views(dir_entries@);
    let mut es: Vec<(String, bool)> = Vec::new();
    if show_all {
        es.push((String::from_str("."), true));
        es.push((String::from_str(".."), true));
    }
    let ghost start = entry_views(es@);
    let mut i: usize = 0;
    while i < dir_entries.len()
        invariant
            i <= dir_entries@.len(),
            dv == entry_views(dir_entries@),
            show_all ==> entry_views(es@) == seq![("."@, true), (".."@, true)] + dv.take(i as int),
            !show_all ==> entry_views(es@) == dv.take(i as int).filter(
                |e: (Seq<char>, bool)| !is_hidden(e.0),
            ),
        decreases dir_entries@.len() - i,
    {
        let name = dir_entries[i].0.as_str();
        let is_dir = dir_entries[i].1;
        let ghost before = entry_views(es@);
        assert(dv.take(i + 1).drop_last() =~= dv.take(i as int));
        assert(dv.take(i + 1).last() == (name@, is_dir));
        if show_all || !name_is_hidden(name) {
            es.push((dir_entries[i].0.clone(), is_dir));
            assert(entry_views(es@) =~= before.push((name@, is_dir)));
        }
        proof {
            reveal_with_fuel(Seq::<(Seq<char>, bool)>::filter, 1);
            if show_all {
                assert(entry_views(es@) =~= seq![("."@, true), (".."@, true)] + dv.take(i + 1));
            }
        }
        i = i + 1;
    }
    assert(dv.take(dir_entries@.len() as int) =~= dv);
    let ghost l = entry_views(es@);
    let mut keys: Vec<Vec<char>> = Vec::new();
    let mut k: usize = 0;
    while k < es.len()
        invariant
            k <= es@.len(),
            l == entry_views(es@),
            keys@.len() == k,
            forall|j: int| 0 <= j < k ==> (#[trigger] keys@[j])@ == sort_keys(l)[j],
        decreases es@.len() - k,
    {
        let low = to_lowercase(es[k].0.as_str());
        keys.push(chars_of(low.as_str()));
        k = k + 1;
    }
    assert(keys.deep_view() =~= sort_keys(l)) by {
        assert forall|j: int| 0 <= j < keys@.len() implies keys.deep_view()[j] == sort_keys(l)[j] by {
            assert(keys@[j].deep_view() =~= keys@[j]@);
        }
    }
    let order = stable_sort_indices(&keys);
    let ghost perm = order@.map_values(|i: usize| i as int);
    let mut out: Vec<(String, bool)> = Vec::new();
    let mut m: usize = 0;
    while m < order.len()
        invariant
            m <= order@.len(),
            l == entry_views(es@),
            perm == order@.map_values(|i: usize| i as int),
            stable_order(sort_keys(l), perm),
            out@.len() == m,
            forall|j: int| 0 <= j < m ==> #[trigger] entry_views(out@)[j] == l[perm[j]],
        decreases order@.len() - m,
    {
        let p = order[m];
        assert(perm[m as int] == p);
        assert(0 <= p < es@.len());
        let ghost prev = entry_views(out@);
        out.push((es[p].0.clone(), es[p].1));
        assert(entry_views(out@) =~= prev.push(l[perm[m as int]]));
        m = m + 1;
    }
    assert(sorted_listing(l, entry_views(out@)));
    out
}

/// What `ls -l` prints for `entries`: one colored entry per line.
pub open spec fn long_output(entries: Seq<(Seq<char>, bool)>) -> Seq<char>
    decreases entries.len(),
{
    if entries.len() == 0 {
        Seq::empty()
    } else {
        long_output(entries.drop_last()) + entry_text(entries.last()) + "\n"@
    }
}

/// What `ls -l` prints for `entries`.
pub fn long_listing(entries: &Vec<(String, bool)>) -> (r: String)
    ensures
        r@ == long_output(entry_views(entries@)),
{
    let ghost es = entry_views(entries@);
    let mut out = String::new();
    let mut i: usize = 0;
    while i < entries.len()
        invariant
            i <= entries@.len(),
            es == entry_views(entries@),
            out@ == long_output(es.take(i as int)),
        decreases entries@.len() - i,
    {
        let line = entry_colored(entries[i].0.as_str(), entries[i].1);
        out.append(line.as_str());
        out.append("\n");
        assert(es.take(i + 1).drop_last() =~= es.take(i as int));
        i = i + 1;
    }
    assert(es.take(entries@.len() as int) =~= es);
    out
}

/// What `ls` prints for a path that does not exist.
pub fn missing_path_message(path: &str) -> (r: String)
    ensures
        r@ == "ls: cannot access '"@ + path@ + "': No such file or directory\n"@,
{
    let mut r = String::from_str("ls: cannot access '");
    r.append(path);
    r.append("': No such file or directory\n");
    r
}

/// What `ls` prints before listing directory `path`, the `index`-th path
/// it lists: when it lists several paths, the path and a colon (after an
/// empty line, for all but the first); nothing when it lists one.
pub fn listing_header(index: usize, path: &str, multiple: bool) -> (r: String)
    ensures
        r@ == if multiple {
            (if index > 0 {
                "\n"@
            } else {
                Seq::empty()
            }) + path@ + ":\n"@
        } else {
            Seq::<char>::empty()
        },
{
    let mut r = String::new();
    if multiple {
        if index > 0 {
            r.append("\n");
        }
        r.append(path);
        r.append(":\n");
    }
    r
}

/// What `ls` prints for a path that is not a directory: its file name
/// (nothing where it has none), and a newline.
pub fn file_line(path: &str) -> (r: String)
    ensures
        r@ == (match file_name(path@) {
            Some(n) => n,
            None => Seq::empty(),
        }) + "\n"@,
{
    let mut r = match file_name_of(path) {
        Some(n) => n,
        None => String::new(),
    };
    r.append("\n");
    r
}

} // verus!
