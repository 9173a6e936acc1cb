//! Laying out `ls` entries in columns that fill top to bottom, then left
//! to right, as wide as the terminal allows.

use vstd::prelude::*;

use vstd::utf8::encode_utf8;

use crate::commands::ls::{display_name, display_of, entry_colored, entry_text, entry_views};
use crate::text::{push_spaces, spaces};

verus! {

/// The gap between two columns.
pub open spec fn col_gap() -> nat {
    14
}

/// How many bytes `s` takes in UTF-8 (the width `ls` measures entries by).
pub open spec fn blen(s: Seq<char>) -> nat {
    encode_utf8(s).len()
}

/// `n / k`, rounded up.
pub open spec fn ceil_div(n: nat, k: nat) -> nat {
    if k == 0 {
        0
    } else {
        n / k + if n % k == 0 {
            0nat
        } else {
            1nat
        }
    }
}

/// The smaller of two integers.
pub open spec fn min_int(a: int, b: int) -> int {
    if a < b {
        a
    } else {
        b
    }
}

/// The largest of `ls[lo..hi]`, or 0 when that range is empty.
pub open spec fn max_in(ls: Seq<nat>, lo: int, hi: int) -> nat
    decreases hi - lo,
{
    if hi <= lo {
        0
    } else {
        let m = max_in(ls, lo, hi - 1);
        if ls[hi - 1] > m {
            ls[hi - 1]
        } else {
            m
        }
    }
}

/// The width of column `c` when the widths `ls` fill `k` columns top to
/// bottom: the widest of its entries (0 for an empty column).
pub open spec fn col_width(ls: Seq<nat>, k: nat, c: int) -> nat {
    let n = ls.len() as int;
    let r = ceil_div(ls.len(), k) as int;
    max_in(ls, min_int(c * r, n), min_int((c + 1) * r, n))
}

/// The widths of the first `c` of `k` columns, added up.
pub open spec fn widths_sum(ls: Seq<nat>, k: nat, c: int) -> nat
    decreases c,
{
    if c <= 0 {
        0
    } else {
        widths_sum(ls, k, c - 1) + col_width(ls, k, c - 1)
    }
}

/// The width of a layout in `k` columns: the columns, and a gap between
/// each two.
pub open spec fn grid_width(ls: Seq<nat>, k: nat) -> nat {
    widths_sum(ls, k, k as int) + col_gap() * ((k - 1) as nat)
}

/// Trying `k`, `k + 1`, ... columns in turn while the layout fits in `tw`:
/// the last number of columns that fitted (`best` when `k` does not fit).
pub open spec fn best_from(ls: Seq<nat>, tw: nat, k: nat, best: nat) -> nat
    decreases ls.len() + 1 - k,
{
    if k < 1 || k > ls.len() {
        best
    } else if grid_width(ls, k) <= tw {
        best_from(ls, tw, k + 1, k)
    } else {
        best
    }
}

/// The number of columns: the most columns such that the layout in it, and
/// in every smaller number of columns, fits in `tw`; 1 when even one column
/// does not fit.
pub open spec fn best_cols(ls: Seq<nat>, tw: nat) -> nat {
    best_from(ls, tw, 1, 1)
}

/// The text for row `row`, column `col` of the layout: the entry, and the
/// padding to the next column when the row has an entry there.
pub open spec fn cell(texts: Seq<Seq<char>>, ls: Seq<nat>, k: nat, rows: nat, row: int, col: int) -> Seq<char> {
    let idx = col * rows + row;
    let next = (col + 1) * rows + row;
    texts[idx] + if col + 1 < k && next < ls.len() {
        spaces((col_width(ls, k, col) + col_gap() - ls[idx]) as nat)
    } else {
        Seq::empty()
    }
}

/// Row `row` of the layout, from column `col` on.
pub open spec fn row_from(texts: Seq<Seq<char>>, ls: Seq<nat>, k: nat, rows: nat, row: int, col: int) -> Seq<char>
    decreases k - col,
{
    if col < 0 || col >= k || col * rows + row >= ls.len() {
        Seq::empty()
    } else {
        cell(texts, ls, k, rows, row, col) + row_from(texts, ls, k, rows, row, col + 1)
    }
}

/// The rows of the layout from `row` on, each ended by a newline.
pub open spec fn rows_from(texts: Seq<Seq<char>>, ls: Seq<nat>, k: nat, rows: nat, row: int) -> Seq<char>
    decreases rows - row,
{
    if row < 0 || row >= rows {
        Seq::empty()
    } else {
        row_from(texts, ls, k, rows, row, 0) + "\n"@ + rows_from(texts, ls, k, rows, row + 1)
    }
}

/// The widths `ls` measures entries by.
pub open spec fn entry_widths(entries: Seq<(Seq<char>, bool)>) -> Seq<nat> {
    entries.map_values(|e: (Seq<char>, bool)| blen(display_of(e.0, e.1)))
}

/// Whether every entry's width fits in a `usize`, as the width of text held
/// in memory does.
pub open spec fn widths_fit(es: Seq<(Seq<char>, bool)>) -> bool {
    forall|i: int| 0 <= i < es.len() ==> #[trigger] entry_widths(es)[i] <= usize::MAX
}

/// What `ls` prints for `entries` in columns, for a terminal `tw` wide:
/// nothing for no entries; otherwise `best_cols` columns, filled top to
/// bottom and then left to right, each entry padded to its column's width
/// plus the gap when another entry follows it on its row.
pub open spec fn columns_output(entries: Seq<(Seq<char>, bool)>, tw: nat) -> Seq<char> {
    if entries.len() == 0 {
        Seq::empty()
    } else {
        let texts = entries.map_values(|e: (Seq<char>, bool)| entry_text(e));
        let ls = entry_widths(entries);
        let k = best_cols(ls, tw);
        rows_from(texts, ls, k, ceil_div(ls.len(), k), 0)
    }
}

proof fn lemma_max_in(ls: Seq<nat>, lo: int, hi: int, i: int)
    requires
        lo <= i < hi <= ls.len(),
        0 <= lo,
    ensures
        ls[i] <= max_in(ls, lo, hi),
    decreases hi - lo,
{
    if i < hi - 1 {
        lemma_max_in(ls, lo, hi - 1, i);
    }
}

proof fn lemma_widths_sum_mono(ls: Seq<nat>, k: nat, a: int, b: int)
    requires
        0 <= a <= b,
    ensures
        widths_sum(ls, k, a) <= widths_sum(ls, k, b),
    decreases b - a,
{
    if a < b {
        lemma_widths_sum_mono(ls, k, a, b - 1);
    }
}

proof fn lemma_width_in_sum(ls: Seq<nat>, k: nat, c: int)
    requires
        0 <= c < k,
    ensures
        col_width(ls, k, c) <= widths_sum(ls, k, k as int),
{
    lemma_widths_sum_mono(ls, k, c + 1, k as int);
}

proof fn lemma_best_from_range(ls: Seq<nat>, tw: nat, k: nat, best: nat)
    requires
        1 <= best <= ls.len(),
        k >= 1,
        best == 1 || grid_width(ls, best) <= tw,
    ensures
        1 <= best_from(ls, tw, k, best) <= ls.len(),
        best_from(ls, tw, k, best) == 1 || grid_width(ls, best_from(ls, tw, k, best)) <= tw,
    decreases ls.len() + 1 - k,
{
    if k <= ls.len() && grid_width(ls, k) <= tw {
        lemma_best_from_range(ls, tw, k + 1, k);
    }
}

proof fn lemma_ceil_div(n: nat, k: nat)
    requires
        k >= 1,
        n >= 1,
    ensures
        1 <= ceil_div(n, k) <= n,
        ceil_div(n, k) * k >= n,
{
    assert(n / k * k + n % k == n) by (nonlinear_arith)
        requires
            k >= 1,
    ;
    assert(n / k <= n) by (nonlinear_arith)
        requires
            k >= 1,
    ;
    if n % k != 0 {
        assert(n / k < n) by (nonlinear_arith)
            requires
                k >= 1,
                n % k != 0,
                n / k * k + n % k == n,
        ;
        assert((n / k + 1) * k == n / k * k + k) by (nonlinear_arith);
        assert(n % k < k) by (nonlinear_arith)
            requires
                k >= 1,
        ;
    } else {
        assert(n / k >= 1) by (nonlinear_arith)
            requires
                k >= 1,
                n >= 1,
                n % k == 0,
                n / k * k + n % k == n,
        ;
    }
}

/// The widths of the `k` columns of the layout of `lens`.
fn column_widths(lens: &Vec<usize>, k: usize) -> (r: Vec<usize>)
    requires
        k >= 1,
        lens@.len() >= 1,
    ensures
        r@.len() == k,
        forall|c: int|
            0 <= c < k ==> #[trigger] r@[c] as nat == col_width(
                lens@.map_values(|x: usize| x as nat),
                k as nat,
                c,
            ),
{
    let ghost ls = lens@.map_values(|x: usize| x as nat);
    let n = lens.len();
    proof {
        lemma_ceil_div(n as nat, k as nat);
    }
    let rows = n / k + if n % k == 0 {
        0
    } else {
        1
    };
    assert(rows == ceil_div(n as nat, k as nat));
    let mut widths: Vec<usize> = Vec::new();
    let mut lo: usize = 0;
    let mut c: usize = 0;
    while c < k
        invariant
            ls == lens@.map_values(|x: usize| x as nat),
            n == lens@.len(),
            n == ls.len(),
            rows == ceil_div(ls.len(), k as nat),
            rows >= 1,
            c <= k,
            lo == min_int(c * rows, n as int),
            widths@.len() == c,
            forall|j: int| 0 <= j < c ==> #[trigger] widths@[j] as nat == col_width(ls, k as nat, j),
        decreases k - c,
    {
        let hi = if n - lo > rows {
            lo + rows
        } else {
            n
        };
        assert(hi == min_int((c + 1) * rows, n as int)) by {
            assert((c + 1) * rows == c * rows + rows) by (nonlinear_arith);
        }
        let mut w: usize = 0;
        let mut i = lo;
        while i < hi
            invariant
                ls == lens@.map_values(|x: usize| x as nat),
                lo <= i <= hi <= n,
                n == lens@.len(),
                w as nat == max_in(ls, lo as int, i as int),
            decreases hi - i,
        {
            if lens[i] > w {
                w = lens[i];
            }
            i = i + 1;
        }
        widths.push(w);
        proof {
            assert((c + 1) * rows == c * rows + rows) by (nonlinear_arith);
        }
        lo = hi;
        c = c + 1;
    }
    widths
}

/// Whether the layout in `k` columns, whose widths are `widths`, fits in
/// `tw`.
fn fits(widths: &Vec<usize>, k: usize, tw: usize, ghost_ls: Ghost<Seq<nat>>) -> (r: bool)
    requires
        k >= 1,
        widths@.len() == k,
        forall|c: int| 0 <= c < k ==> #[trigger] widths@[c] as nat == col_width(ghost_ls@, k as nat, c),
    ensures
        r == (grid_width(ghost_ls@, k as nat) <= tw),
{
    let ghost ls = ghost_ls@;
    if k - 1 > tw / 14 {
        assert(14 * (k - 1) > tw) by (nonlinear_arith)
            requires
                k - 1 > tw / 14,
        ;
        assert(grid_width(ls, k as nat) >= 14 * (k - 1));
        return false;
    }
    assert(14 * (k - 1) <= tw) by (nonlinear_arith)
        requires
            k - 1 <= tw / 14,
    ;
    let mut acc: usize = 14 * (k - 1);
    let mut c: usize = 0;
    while c < k
        invariant
            ls == ghost_ls@,
            widths@.len() == k,
            forall|c: int| 0 <= c < k ==> #[trigger] widths@[c] as nat == col_width(ls, k as nat, c),
            c <= k,
            acc as nat == widths_sum(ls, k as nat, c as int) + 14 * ((k - 1) as nat),
            acc <= tw,
        decreases k - c,
    {
        assert(widths_sum(ls, k as nat, c + 1) == widths_sum(ls, k as nat, c as int) + col_width(
            ls,
            k as nat,
            c as int,
        ));
        if widths[c] > tw - acc {
            proof {
                lemma_widths_sum_mono(ls, k as nat, c + 1, k as int);
                assert(grid_width(ls, k as nat) == widths_sum(ls, k as nat, k as int) + 14 * ((k
                    - 1) as nat));
                assert(widths_sum(ls, k as nat, c + 1) + 14 * ((k - 1) as nat) > tw);
            }
            return false;
        }
        acc = acc + widths[c];
        c = c + 1;
    }
    true
}

/// What `ls` prints for `entries` in columns, for a terminal `term_width`
/// wide.
pub fn print_columns(entries: &Vec<(String, bool)>, term_width: usize) -> (r: String)
    requires
        widths_fit(entry_views(entries@)),
    ensures
        r@ == columns_output(entry_views(entries@), term_width as nat),
{
    let ghost es = entry_views(entries@);
    let n = entries.len();
    if n == 0 {
        return String::new();
    }
    let mut texts: Vec<String> = Vec::new();
    let mut lens: Vec<usize> = Vec::new();
    let mut i: usize = 0;
    while i < n
        invariant
            n == entries@.len(),
            es == entry_views(entries@),
            widths_fit(es),
            i <= n,
            texts@.len() == i,
            lens@.len() == i,
            forall|j: int| 0 <= j < i ==> (#[trigger] texts@[j])@ == entry_text(es[j]),
            forall|j: int| 0 <= j < i ==> #[trigger] lens@[j] as nat == blen(display_of(es[j].0, es[j].1)),
        decreases n - i,
    {
        let name = entries[i].0.as_str();
        let is_dir = entries[i].1;
        let d = display_name(name, is_dir);
        let dl = d.as_str().len();
        assert(entry_widths(es)[i as int] == blen(display_of(es[i as int].0, es[i as int].1)));
        assert(dl == blen(display_of(es[i as int].0, es[i as int].1)));
        let ghost prev_lens = lens@;
        let ghost prev_texts = texts@;
        lens.push(dl);
        texts.push(entry_colored(name, is_dir));
        assert(forall|j: int| 0 <= j < i ==> lens@[j] == prev_lens[j]);
        assert(forall|j: int| 0 <= j < i ==> texts@[j] == prev_texts[j]);
        i = i + 1;
    }
    let ghost ls = lens@.map_values(|x: usize| x as nat);
    let ghost tx = texts@.map_values(|t: String| t@);
    assert(ls =~= entry_widths(es));
    assert(tx =~= es.map_values(|e: (Seq<char>, bool)| entry_text(e)));
    let mut best: usize = 1;
    let mut best_widths: Vec<usize> = vec![0];
    let mut ncols: usize = 1;
    while ncols <= n
        invariant
            n == lens@.len(),
            n >= 1,
            ls == lens@.map_values(|x: usize| x as nat),
            1 <= ncols <= n + 1,
            1 <= best <= n,
            best_from(ls, term_width as nat, ncols as nat, best as nat) == best_cols(ls, term_width as nat),
            best >= 2 ==> grid_width(ls, best as nat) <= term_width,
            best >= 2 ==> best_widths@.len() == best,
            best >= 2 ==> forall|c: int| 0 <= c < best ==> #[trigger] best_widths@[c] as nat == col_width(ls, best as nat, c),
        ensures
            1 <= best <= n,
            best as nat == best_cols(ls, term_width as nat),
            best >= 2 ==> grid_width(ls, best as nat) <= term_width,
            best >= 2 ==> best_widths@.len() == best,
            best >= 2 ==> forall|c: int| 0 <= c < best ==> #[trigger] best_widths@[c] as nat == col_width(ls, best as nat, c),
        decreases n + 1 - ncols,
    {
        let widths = column_widths(&lens, ncols);
        if fits(&widths, ncols, term_width, Ghost(ls)) {
            best = ncols;
            best_widths = widths;
            ncols = ncols + 1;
        } else {
            break;
        }
    }
    proof {
        lemma_ceil_div(n as nat, best as nat);
    }
    let rows = n / best + if n % best == 0 {
        0
    } else {
        1
    };
    assert(rows == ceil_div(ls.len(), best as nat));
    let mut out = String::new();
    let mut row: usize = 0;
    while row < rows
        invariant
            n == lens@.len(),
            n == texts@.len(),
            ls == lens@.map_values(|x: usize| x as nat),
            tx == texts@.map_values(|t: String| t@),
            1 <= best <= n,
            rows == ceil_div(n as nat, best as nat),
            rows * best >= n,
            rows >= 1,
            row <= rows,
            best >= 2 ==> grid_width(ls, best as nat) <= term_width,
            best >= 2 ==> best_widths@.len() == best,
            best >= 2 ==> forall|c: int| 0 <= c < best ==> #[trigger] best_widths@[c] as nat == col_width(ls, best as nat, c),
            out@ + rows_from(tx, ls, best as nat, rows as nat, row as int) == rows_from(tx, ls, best as nat, rows as nat, 0),
        decreases rows - row,
    {
        let mut line = String::new();
        let mut col: usize = 0;
        let mut idx: usize = row;
        while col < best && idx < n
            invariant
                n == lens@.len(),
                n == texts@.len(),
                ls == lens@.map_values(|x: usize| x as nat),
                tx == texts@.map_values(|t: String| t@),
                1 <= best <= n,
                rows == ceil_div(n as nat, best as nat),
                rows * best >= n,
                rows >= 1,
                row < rows,
                col <= best,
                idx == min_int(col * rows + row, n as int),
                best >= 2 ==> grid_width(ls, best as nat) <= term_width,
                best >= 2 ==> best_widths@.len() == best,
                best >= 2 ==> forall|c: int| 0 <= c < best ==> #[trigger] best_widths@[c] as nat == col_width(ls, best as nat, c),
                line@ + row_from(tx, ls, best as nat, rows as nat, row as int, col as int) == row_from(tx, ls, best as nat, rows as nat, row as int, 0),
            decreases best - col,
        {
            let ghost before = line@;
            line.append(texts[idx].as_str());
            let next_in_range = n - idx > rows;
            proof {
                assert((col + 1) * rows == col * rows + rows) by (nonlinear_arith);
            }
            if col + 1 < best && next_in_range {
                proof {
                    let r = rows as int;
                    assert(col * r <= idx < (col + 1) * r);
                    lemma_max_in(ls, min_int(col * r, n as int), min_int((col + 1) * r, n as int), idx as int);
                    lemma_width_in_sum(ls, best as nat, col as int);
                }
                let pad = best_widths[col] - lens[idx] + 14;
                push_spaces(&mut line, pad);
            }
            assert(line@ =~= before + cell(tx, ls, best as nat, rows as nat, row as int, col as int));
            col = col + 1;
            idx = if next_in_range {
                idx + rows
            } else {
                n
            };
        }
        out.append(line.as_str());
        out.append("\n");
        row = row + 1;
    }
    proof {
        assert(rows_from(tx, ls, best as nat, rows as nat, rows as int) == Seq::<char>::empty());
    }
    out
}

/// Some entry of a non-empty range is as wide as the widest of it.
proof fn lemma_max_attained(ls: Seq<nat>, lo: int, hi: int) -> (j: int)
    requires
        0 <= lo < hi <= ls.len(),
    ensures
        lo <= j < hi,
        ls[j] == max_in(ls, lo, hi),
    decreases hi - lo,
{
    if hi - 1 == lo {
        assert(max_in(ls, lo, lo) == 0);
        hi - 1
    } else {
        let j = lemma_max_attained(ls, lo, hi - 1);
        if ls[hi - 1] > max_in(ls, lo, hi - 1) {
            hi - 1
        } else {
            j
        }
    }
}

/// The width `ls` measures an entry by: the bytes of its name, and of the
/// `/` after a directory's name.
pub open spec fn shown_width(e: (Seq<char>, bool)) -> nat {
    blen(display_of(e.0, e.1))
}

/// Columns line up: in the layout of `entries`, an entry that another
/// entry follows on its row is written, then padded with spaces so that
/// its width and its padding come to the width of the widest entry of its
/// column plus a gap of 14. The padding depends on the column alone, so
/// every column starts at the same offset on every row.
pub proof fn law_columns_aligned(entries: Seq<(Seq<char>, bool)>, tw: nat, row: int, col: int)
    requires
        entries.len() > 0,
        0 <= row < ceil_div(entries.len(), best_cols(entry_widths(entries), tw)),
        0 <= col,
        col + 1 < best_cols(entry_widths(entries), tw),
        (col + 1) * ceil_div(entries.len(), best_cols(entry_widths(entries), tw)) + row
            < entries.len(),
    ensures
        ({
            let n = entries.len() as int;
            let ls = entry_widths(entries);
            let k = best_cols(ls, tw);
            let rows = ceil_div(entries.len(), k);
            let texts = entries.map_values(|e: (Seq<char>, bool)| entry_text(e));
            let i = col * rows + row;
            exists|pad: nat|
                {
                    &&& row_from(texts, ls, k, rows, row, col) == entry_text(entries[i]) + spaces(
                        pad,
                    ) + row_from(texts, ls, k, rows, row, col + 1)
                    &&& forall|j: int|
                        col * rows <= j < (col + 1) * rows && j < n ==> shown_width(
                            #[trigger] entries[j],
                        ) + 14 <= shown_width(entries[i]) + pad
                    &&& exists|j: int|
                        col * rows <= j < (col + 1) * rows && j < n && shown_width(
                            #[trigger] entries[j],
                        ) + 14 == shown_width(entries[i]) + pad
                }
        }),
{
    let n = entries.len() as int;
    let ls = entry_widths(entries);
    let k = best_cols(ls, tw);
    let rows = ceil_div(entries.len(), k);
    let texts = entries.map_values(|e: (Seq<char>, bool)| entry_text(e));
    let i = col * rows + row;
    lemma_best_from_range(ls, tw, 1, 1);
    lemma_ceil_div(entries.len(), k);
    assert((col + 1) * rows == col * rows + rows) by (nonlinear_arith);
    assert(col * rows >= 0) by (nonlinear_arith)
        requires
            col >= 0,
            rows >= 0,
    ;
    let lo = col * rows;
    let hi = min_int((col + 1) * rows, n);
    assert(min_int(col * rows, n) == lo);
    assert(col_width(ls, k, col) == max_in(ls, lo, hi));
    lemma_max_in(ls, lo, hi, i);
    let pad = (col_width(ls, k, col) + col_gap() - ls[i]) as nat;
    assert(texts[i] == entry_text(entries[i]));
    assert(row_from(texts, ls, k, rows, row, col) == cell(texts, ls, k, rows, row, col) + row_from(
        texts,
        ls,
        k,
        rows,
        row,
        col + 1,
    ));
    assert forall|j: int| col * rows <= j < (col + 1) * rows && j < n implies shown_width(
        #[trigger] entries[j],
    ) + 14 <= shown_width(entries[i]) + pad by {
        lemma_max_in(ls, lo, hi, j);
        assert(ls[j] == shown_width(entries[j]));
    }
    let m = lemma_max_attained(ls, lo, hi);
    assert(ls[m] == shown_width(entries[m]));
    assert(ls[i] == shown_width(entries[i]));
    assert(shown_width(entries[m]) + 14 == shown_width(entries[i]) + pad);
}

} // verus!
