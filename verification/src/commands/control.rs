//! Splitting a command line at `;`, `&&` and `||`, outside of quotes.

use vstd::prelude::*;

use crate::commands::RunResult;
use crate::text::{chars_of, owned_substring, trim, trimmed, trimmed_bounds, views};

verus! {

/// The operator that joins two parts of a command line.
#[derive(Debug, Clone, Copy, PartialEq, Eq, Structural)]
pub enum ControlOp {
    /// `&&`: run the next part only when the previous status is zero.
    AndAnd,
    /// `||`: run the next part only when the previous status is not zero.
    OrOr,
}

/// Which quotes are open before position `i` of `s`: `(double, single)`.
/// A `"` toggles the double-quote state unless a single quote is open, and a
/// `'` toggles the single-quote state unless a double quote is open.
pub open spec fn quote_state(s: Seq<char>, i: int) -> (bool, bool)
    decreases i,
{
    if i <= 0 {
        (false, false)
    } else {
        let (d, q) = quote_state(s, i - 1);
        let c = s[i - 1];
        if c == '"' && !q {
            (!d, q)
        } else if c == '\'' && !d {
            (d, !q)
        } else {
            (d, q)
        }
    }
}

/// Whether position `i` of `s` stands outside of any quotes.
pub open spec fn unquoted(s: Seq<char>, i: int) -> bool {
    quote_state(s, i) == (false, false)
}

/// The positions, from `i` on, of the `;` that stand outside of quotes.
pub open spec fn semicolon_cuts_from(s: Seq<char>, i: int) -> Seq<int>
    decreases s.len() - i,
{
    if i < 0 || i >= s.len() {
        Seq::empty()
    } else if s[i] == ';' && unquoted(s, i) {
        seq![i] + semicolon_cuts_from(s, i + 1)
    } else {
        semicolon_cuts_from(s, i + 1)
    }
}

/// The positions of the `;` of `s` that stand outside of quotes.
pub open spec fn semicolon_cuts(s: Seq<char>) -> Seq<int> {
    semicolon_cuts_from(s, 0)
}

/// The `&&` and `||` operators of `s` that stand outside of quotes, from
/// position `i` on, read from left to right: each with its position.
pub open spec fn and_or_cuts_from(s: Seq<char>, i: int) -> Seq<(int, ControlOp)>
    decreases s.len() - i,
{
    if i < 0 || i + 1 >= s.len() {
        Seq::empty()
    } else if s[i] == '&' && s[i + 1] == '&' && unquoted(s, i) {
        seq![(i, ControlOp::AndAnd)] + and_or_cuts_from(s, i + 2)
    } else if s[i] == '|' && s[i + 1] == '|' && unquoted(s, i) {
        seq![(i, ControlOp::OrOr)] + and_or_cuts_from(s, i + 2)
    } else {
        and_or_cuts_from(s, i + 1)
    }
}

/// The `&&` and `||` operators of `s` that stand outside of quotes.
pub open spec fn and_or_cuts(s: Seq<char>) -> Seq<(int, ControlOp)> {
    and_or_cuts_from(s, 0)
}

/// Where piece `k` starts when `s` is cut at `cuts`, each cut `width` long.
pub open spec fn piece_start(cuts: Seq<int>, width: int, k: int) -> int {
    if k == 0 {
        0
    } else {
        cuts[k - 1] + width
    }
}

/// Where piece `k` ends when `s` is cut at `cuts`.
pub open spec fn piece_end(s: Seq<char>, cuts: Seq<int>, k: int) -> int {
    if k < cuts.len() {
        cuts[k]
    } else {
        s.len() as int
    }
}

/// The trimmed pieces of `s` between the cuts, which are `width` long: one
/// more piece than there are cuts.
pub open spec fn pieces(s: Seq<char>, cuts: Seq<int>, width: int) -> Seq<Seq<char>> {
    Seq::new(
        (cuts.len() + 1) as nat,
        |k: int| trim(s.subrange(piece_start(cuts, width, k), piece_end(s, cuts, k))),
    )
}

/// The trimmed segments of `s` between the `;` that stand outside of quotes.
pub open spec fn semicolon_segments(s: Seq<char>) -> Seq<Seq<char>> {
    pieces(s, semicolon_cuts(s), 1)
}

/// The trimmed parts of `s` between the `&&` and `||` that stand outside of
/// quotes.
pub open spec fn and_or_parts(s: Seq<char>) -> Seq<Seq<char>> {
    pieces(s, and_or_cuts(s).map_values(|p: (int, ControlOp)| p.0), 2)
}

/// The operators between the parts of `and_or_parts(s)`, in order.
pub open spec fn and_or_ops(s: Seq<char>) -> Seq<ControlOp> {
    and_or_cuts(s).map_values(|p: (int, ControlOp)| p.1)
}

/// Every cut position lies in `lo..hi`, increasing, at least `width` apart.
pub open spec fn cuts_ordered(cuts: Seq<int>, width: int, lo: int, hi: int) -> bool {
    &&& forall|k: int| 0 <= k < cuts.len() ==> lo <= #[trigger] cuts[k] && cuts[k] + width <= hi
    &&& forall|k: int| 0 < k < cuts.len() ==> cuts[k - 1] + width <= #[trigger] cuts[k]
}

proof fn lemma_semicolon_cuts_ordered(s: Seq<char>, i: int)
    requires
        0 <= i <= s.len(),
    ensures
        cuts_ordered(semicolon_cuts_from(s, i), 1, i, s.len() as int),
    decreases s.len() - i,
{
    if i < s.len() {
        lemma_semicolon_cuts_ordered(s, i + 1);
    }
}

proof fn lemma_and_or_cuts_ordered(s: Seq<char>, i: int)
    requires
        0 <= i <= s.len(),
    ensures
        cuts_ordered(
            and_or_cuts_from(s, i).map_values(|p: (int, ControlOp)| p.0),
            2,
            i,
            s.len() as int,
        ),
    decreases s.len() - i,
{
    let cs = and_or_cuts_from(s, i).map_values(|p: (int, ControlOp)| p.0);
    if i + 1 < s.len() {
        if (s[i] == '&' && s[i + 1] == '&' && unquoted(s, i)) || (s[i] == '|' && s[i + 1] == '|'
            && unquoted(s, i)) {
            lemma_and_or_cuts_ordered(s, i + 2);
            let rest = and_or_cuts_from(s, i + 2).map_values(|p: (int, ControlOp)| p.0);
            assert(cs =~= seq![i] + rest);
        } else {
            lemma_and_or_cuts_ordered(s, i + 1);
            assert(cs =~= and_or_cuts_from(s, i + 1).map_values(|p: (int, ControlOp)| p.0));
        }
    }
}

proof fn lemma_semicolon_cuts_exact(s: Seq<char>, j: int, i: int)
    requires
        0 <= j <= s.len(),
    ensures
        semicolon_cuts_from(s, j).contains(i) <==> (j <= i < s.len() && s[i] == ';' && unquoted(
            s,
            i,
        )),
    decreases s.len() - j,
{
    if j < s.len() {
        lemma_semicolon_cuts_exact(s, j + 1, i);
        let rest = semicolon_cuts_from(s, j + 1);
        if s[j] == ';' && unquoted(s, j) {
            assert(semicolon_cuts_from(s, j) == seq![j] + rest);
            if rest.contains(i) {
                let k = choose|k: int| 0 <= k < rest.len() && rest[k] == i;
                assert((seq![j] + rest)[k + 1] == i);
            }
            if (seq![j] + rest).contains(i) && i != j {
                let k = choose|k: int| 0 <= k < (seq![j] + rest).len() && (seq![j] + rest)[k] == i;
                assert(rest[k - 1] == i);
            }
            assert((seq![j] + rest)[0] == j);
        }
    }
}

/// A line is cut at exactly the `;` that stand outside of quotes: a `;`
/// inside quotes never splits a line.
pub proof fn law_semicolon_cuts_exactly_unquoted(s: Seq<char>, i: int)
    ensures
        semicolon_cuts(s).contains(i) <==> (0 <= i < s.len() && s[i] == ';' && unquoted(s, i)),
{
    lemma_semicolon_cuts_exact(s, 0, i);
}

proof fn lemma_and_or_cuts_sound(s: Seq<char>, j: int, k: int)
    requires
        0 <= j <= s.len(),
        0 <= k < and_or_cuts_from(s, j).len(),
    ensures
        ({
            let (p, op) = and_or_cuts_from(s, j)[k];
            &&& j <= p && p + 1 < s.len()
            &&& unquoted(s, p)
            &&& op == ControlOp::AndAnd ==> s[p] == '&' && s[p + 1] == '&'
            &&& op == ControlOp::OrOr ==> s[p] == '|' && s[p + 1] == '|'
        }),
    decreases s.len() - j,
{
    if j + 1 < s.len() {
        if (s[j] == '&' && s[j + 1] == '&' && unquoted(s, j)) || (s[j] == '|' && s[j + 1] == '|'
            && unquoted(s, j)) {
            if k > 0 {
                lemma_and_or_cuts_sound(s, j + 2, k - 1);
            }
        } else {
            lemma_and_or_cuts_sound(s, j + 1, k);
        }
    }
}

/// Every `&&` or `||` that splits a line stands outside of quotes, and is
/// written as two `&` or two `|` at its position.
pub proof fn law_and_or_cuts_unquoted(s: Seq<char>, k: int)
    requires
        0 <= k < and_or_cuts(s).len(),
    ensures
        ({
            let (p, op) = and_or_cuts(s)[k];
            &&& 0 <= p && p + 1 < s.len()
            &&& unquoted(s, p)
            &&& op == ControlOp::AndAnd ==> s[p] == '&' && s[p + 1] == '&'
            &&& op == ControlOp::OrOr ==> s[p] == '|' && s[p + 1] == '|'
        }),
{
    lemma_and_or_cuts_sound(s, 0, k);
}

/// The trimmed text of `s[lo..hi]` (in characters), where `cs` holds the
/// characters of `s`.
fn trimmed_piece(s: &str, cs: &Vec<char>, lo: usize, hi: usize) -> (r: String)
    requires
        cs@ == s@,
        lo <= hi <= s@.len(),
    ensures
        r@ == trim(s@.subrange(lo as int, hi as int)),
{
    let (a, b) = trimmed_bounds(cs, lo, hi);
    owned_substring(s, a, b)
}

/// Split a line at the `;` that stand outside of quotes; each segment is
/// trimmed.
pub fn split_by_semicolon(s: &str) -> (r: Vec<String>)
    ensures
        views(r@) == semicolon_segments(s@),
{
    let cs = chars_of(s);
    let n = cs.len();
    let ghost sv = s@;
    let ghost all = semicolon_cuts(sv);
    let mut result: Vec<String> = Vec::new();
    let ghost mut found: Seq<int> = Seq::empty();
    let mut start: usize = 0;
    let mut in_double = false;
    let mut in_single = false;
    let mut i: usize = 0;
    proof {
        lemma_semicolon_cuts_ordered(sv, 0);
    }
    while i < n
        invariant
            cs@ == sv,
            sv == s@,
            n == sv.len(),
            i <= n,
            all == semicolon_cuts(sv),
            (in_double, in_single) == quote_state(sv, i as int),
            found + semicolon_cuts_from(sv, i as int) == all,
            cuts_ordered(all, 1, 0, n as int),
            found.len() <= all.len(),
            start == piece_start(all, 1, found.len() as int),
            start <= i,
            result@.len() == found.len(),
            forall|k: int|
                0 <= k < found.len() ==> (#[trigger] result@[k])@ == trim(
                    sv.subrange(piece_start(all, 1, k), all[k]),
                ),
        decreases n - i,
    {
        let c = cs[i];
        let ghost rest = semicolon_cuts_from(sv, i + 1);
        if c == '"' && !in_single {
            in_double = !in_double;
            assert(semicolon_cuts_from(sv, i as int) == rest);
        } else if c == '\'' && !in_double {
            in_single = !in_single;
            assert(semicolon_cuts_from(sv, i as int) == rest);
        } else if c == ';' && !in_double && !in_single {
            proof {
                assert(semicolon_cuts_from(sv, i as int) == seq![i as int] + rest);
                assert(found + (seq![i as int] + rest) =~= found.push(i as int) + rest);
                assert(all[found.len() as int] == i);
            }
            let piece = trimmed_piece(s, &cs, start, i);
            result.push(piece);
            proof {
                found = found.push(i as int);
            }
            start = i + 1;
        } else {
            assert(semicolon_cuts_from(sv, i as int) == rest);
        }
        i = i + 1;
    }
    proof {
        assert(semicolon_cuts_from(sv, i as int) =~= Seq::<int>::empty());
        assert(found =~= all);
    }
    let piece = trimmed_piece(s, &cs, start, n);
    result.push(piece);
    proof {
        assert(views(result@) =~= semicolon_segments(sv));
    }
    result
}

/// Split a line at the `&&` and `||` that stand outside of quotes: the
/// trimmed parts, and the operators between them. A single `|` (a
/// pipeline) does not split.
pub fn split_by_and_or(s: &str) -> (r: (Vec<String>, Vec<ControlOp>))
    ensures
        views(r.0@) == and_or_parts(s@),
        r.1@ == and_or_ops(s@),
{
    let cs = chars_of(s);
    let n = cs.len();
    let ghost sv = s@;
    let ghost all = and_or_cuts(sv);
    let ghost all_pos = all.map_values(|p: (int, ControlOp)| p.0);
    let mut segments: Vec<String> = Vec::new();
    let mut ops: Vec<ControlOp> = Vec::new();
    let ghost mut found: Seq<(int, ControlOp)> = Seq::empty();
    let mut start: usize = 0;
    let mut in_double = false;
    let mut in_single = false;
    let mut i: usize = 0;
    proof {
        lemma_and_or_cuts_ordered(sv, 0);
    }
    while i < n
        invariant
            cs@ == sv,
            sv == s@,
            n == sv.len(),
            i <= n,
            all == and_or_cuts(sv),
            all_pos == all.map_values(|p: (int, ControlOp)| p.0),
            (in_double, in_single) == quote_state(sv, i as int),
            found + and_or_cuts_from(sv, i as int) == all,
            cuts_ordered(all_pos, 2, 0, n as int),
            found.len() <= all.len(),
            ops@.len() == found.len(),
            forall|k: int| 0 <= k < found.len() ==> #[trigger] ops@[k] == all[k].1,
            start == piece_start(all_pos, 2, found.len() as int),
            start <= i,
            segments@.len() == found.len(),
            forall|k: int|
                0 <= k < found.len() ==> (#[trigger] segments@[k])@ == trim(
                    sv.subrange(piece_start(all_pos, 2, k), all_pos[k]),
                ),
        decreases n - i,
    {
        let c = cs[i];
        let ghost rest1 = and_or_cuts_from(sv, i + 1);
        let ghost rest2 = and_or_cuts_from(sv, i + 2);
        if c == '"' && !in_single {
            in_double = !in_double;
            assert(and_or_cuts_from(sv, i as int) == rest1);
            i = i + 1;
        } else if c == '\'' && !in_double {
            in_single = !in_single;
            assert(and_or_cuts_from(sv, i as int) == rest1);
            i = i + 1;
        } else if (c == '&' || c == '|') && !in_double && !in_single && i + 1 < n && cs[i + 1]
            == c {
            let op = if c == '&' {
                ControlOp::AndAnd
            } else {
                ControlOp::OrOr
            };
            proof {
                assert(and_or_cuts_from(sv, i as int) == seq![(i as int, op)] + rest2);
                assert(found + (seq![(i as int, op)] + rest2) =~= found.push((i as int, op))
                    + rest2);
                assert(all[found.len() as int] == (i as int, op));
                assert(all_pos[found.len() as int] == i);
            }
            let piece = trimmed_piece(s, &cs, start, i);
            segments.push(piece);
            ops.push(op);
            proof {
                found = found.push((i as int, op));
                assert(quote_state(sv, i + 1) == quote_state(sv, i as int));
                assert(quote_state(sv, i + 2) == quote_state(sv, i + 1));
            }
            start = i + 2;
            i = i + 2;
        } else {
            assert(and_or_cuts_from(sv, i as int) == rest1);
            i = i + 1;
        }
    }
    proof {
        assert(and_or_cuts_from(sv, i as int) =~= Seq::<(int, ControlOp)>::empty());
        assert(found =~= all);
    }
    let piece = trimmed_piece(s, &cs, start, n);
    segments.push(piece);
    proof {
        assert(views(segments@) =~= and_or_parts(sv));
        assert(ops@ =~= and_or_ops(sv));
    }
    (segments, ops)
}

/// How a command line is run: its `;` segments (of the trimmed line), each
/// split into its `&&` / `||` parts and the operators between them.
pub open spec fn line_plan(raw: Seq<char>) -> Seq<(Seq<Seq<char>>, Seq<ControlOp>)> {
    semicolon_segments(trim(raw)).map_values(
        |seg: Seq<char>| (and_or_parts(seg), and_or_ops(seg)),
    )
}

/// Every segment of a plan has one part more than it has operators.
pub open spec fn plan_wf(segs: Seq<(Seq<Seq<char>>, Seq<ControlOp>)>) -> bool {
    forall|k: int| 0 <= k < segs.len() ==> (#[trigger] segs[k]).0.len() == segs[k].1.len() + 1
}

/// The position `(segment, part)` of the next part of a plan to run, looking
/// from part `idx` of segment `seg` on, when the last status was `last`:
/// empty parts are passed over; the first part of a segment always runs; a
/// part after `&&` runs only when the last status is zero, and is passed
/// over (keeping the status) otherwise; a part after `||` runs only when
/// the last status is not zero, and otherwise the rest of its segment is
/// passed over. `None`: no part is left to run.
pub open spec fn next_from(
    segs: Seq<(Seq<Seq<char>>, Seq<ControlOp>)>,
    seg: int,
    idx: int,
    last: u8,
) -> Option<(int, int)>
    decreases segs.len() - seg, segs[seg].0.len() - idx,
{
    if seg < 0 || seg >= segs.len() || idx < 0 {
        None
    } else if idx >= segs[seg].0.len() {
        next_from(segs, seg + 1, 0, last)
    } else if segs[seg].0[idx].len() == 0 {
        next_from(segs, seg, idx + 1, last)
    } else if idx == 0 {
        Some((seg, idx))
    } else if segs[seg].1[idx - 1] == ControlOp::AndAnd {
        if last == 0 {
            Some((seg, idx))
        } else {
            next_from(segs, seg, idx + 1, last)
        }
    } else {
        if last != 0 {
            Some((seg, idx))
        } else {
            next_from(segs, seg + 1, 0, last)
        }
    }
}

/// `&&` after success: when a part ends with status zero, the non-empty
/// part that follows it with `&&` runs next.
pub proof fn law_and_and_runs_after_success(
    segs: Seq<(Seq<Seq<char>>, Seq<ControlOp>)>,
    s: int,
    i: int,
)
    requires
        plan_wf(segs),
        0 <= s < segs.len(),
        0 <= i,
        i + 1 < segs[s].0.len(),
        segs[s].1[i] == ControlOp::AndAnd,
        segs[s].0[i + 1].len() > 0,
    ensures
        next_from(segs, s, i + 1, 0) == Some((s, i + 1)),
{
}

/// `&&` after failure: when a part ends with a non-zero status, the part
/// that follows it with `&&` is passed over, and the failing status stays
/// the last status for what comes after.
pub proof fn law_and_and_skips_after_failure(
    segs: Seq<(Seq<Seq<char>>, Seq<ControlOp>)>,
    s: int,
    i: int,
    last: u8,
)
    requires
        plan_wf(segs),
        0 <= s < segs.len(),
        0 <= i,
        i + 1 < segs[s].0.len(),
        segs[s].1[i] == ControlOp::AndAnd,
        last != 0,
    ensures
        next_from(segs, s, i + 1, last) == next_from(segs, s, i + 2, last),
{
}

/// `||` after failure: when a part ends with a non-zero status, the
/// non-empty part that follows it with `||` runs next.
pub proof fn law_or_or_runs_after_failure(
    segs: Seq<(Seq<Seq<char>>, Seq<ControlOp>)>,
    s: int,
    i: int,
    last: u8,
)
    requires
        plan_wf(segs),
        0 <= s < segs.len(),
        0 <= i,
        i + 1 < segs[s].0.len(),
        segs[s].1[i] == ControlOp::OrOr,
        segs[s].0[i + 1].len() > 0,
        last != 0,
    ensures
        next_from(segs, s, i + 1, last) == Some((s, i + 1)),
{
}

/// `||` after success: when a part ends with status zero, the non-empty
/// part that follows it with `||`, and the rest of its segment, are passed
/// over; running goes on with the next segment.
pub proof fn law_or_or_skips_after_success(
    segs: Seq<(Seq<Seq<char>>, Seq<ControlOp>)>,
    s: int,
    i: int,
)
    requires
        plan_wf(segs),
        0 <= s < segs.len(),
        0 <= i,
        i + 1 < segs[s].0.len(),
        segs[s].1[i] == ControlOp::OrOr,
        segs[s].0[i + 1].len() > 0,
    ensures
        next_from(segs, s, i + 1, 0) == next_from(segs, s + 1, 0, 0),
{
}

/// `;` always runs the next segment: once a segment is done, the first part
/// of the next segment runs, whatever the last status was.
pub proof fn law_semicolon_runs_next_segment(
    segs: Seq<(Seq<Seq<char>>, Seq<ControlOp>)>,
    s: int,
    last: u8,
)
    requires
        plan_wf(segs),
        0 <= s,
        s + 1 < segs.len(),
        segs[s + 1].0[0].len() > 0,
    ensures
        next_from(segs, s, segs[s].0.len() as int, last) == Some((s + 1, 0int)),
{
    assert(segs[s + 1].0.len() == segs[s + 1].1.len() + 1);
    assert(next_from(segs, s + 1, 0, last) == Some((s + 1, 0int)));
}

/// The model of a `LineRun`: the plan of the line, the position of the next
/// part to consider, the status of the last part run, and the exit code
/// that the last part asked for, if any.
pub struct LineRunView {
    pub segments: Seq<(Seq<Seq<char>>, Seq<ControlOp>)>,
    pub seg: int,
    pub idx: int,
    pub last_status: u8,
    pub exit: Option<u8>,
}

/// What to do next for a command line: run a part, or stop with a result.
#[derive(Debug, PartialEq, Clone)]
pub enum LineAction {
    Run(String),
    Done(RunResult),
}

/// The progress of running one command line: which parts have run, and
/// the status of the last one. The line's parts run in order; the caller
/// runs each part that `next_action` hands out and reports its outcome
/// with `record`.
pub struct LineRun {
    segments: Vec<(Vec<String>, Vec<ControlOp>)>,
    seg: usize,
    idx: usize,
    last_status: u8,
    exit: Option<u8>,
}

/// The models of the segments of a line.
pub open spec fn segment_views(v: Seq<(Vec<String>, Vec<ControlOp>)>) -> Seq<
    (Seq<Seq<char>>, Seq<ControlOp>),
> {
    v.map_values(|p: (Vec<String>, Vec<ControlOp>)| (views(p.0@), p.1@))
}

impl View for LineRun {
    type V = LineRunView;

    closed spec fn view(&self) -> LineRunView {
        LineRunView {
            segments: segment_views(self.segments@),
            seg: self.seg as int,
            idx: self.idx as int,
            last_status: self.last_status,
            exit: self.exit,
        }
    }
}

impl LineRun {
    #[verifier::type_invariant]
    closed spec fn inv(self) -> bool {
        &&& plan_wf(segment_views(self.segments@))
        &&& self.seg <= self.segments@.len()
        &&& self.seg < self.segments@.len() ==> self.idx <= self.segments@[self.seg as int].0@.len()
    }

    /// The well-formedness of a line's progress, as callers see it.
    pub open spec fn well_formed(v: LineRunView) -> bool {
        &&& plan_wf(v.segments)
        &&& 0 <= v.seg <= v.segments.len()
        &&& 0 <= v.idx
        &&& v.seg < v.segments.len() ==> v.idx <= v.segments[v.seg].0.len()
    }

    /// Start running the command line `raw`: nothing has run yet, and the
    /// last status is zero.
    pub fn new(raw: &str) -> (r: Self)
        ensures
            r@.segments == line_plan(raw@),
            r@.seg == 0,
            r@.idx == 0,
            r@.last_status == 0,
            r@.exit is None,
            Self::well_formed(r@),
    {
        let line = trimmed(raw);
        let pieces = split_by_semicolon(line.as_str());
        let mut segments: Vec<(Vec<String>, Vec<ControlOp>)> = Vec::new();
        let mut k: usize = 0;
        let ghost plan = line_plan(raw@);
        while k < pieces.len()
            invariant
                k <= pieces@.len(),
                views(pieces@) == semicolon_segments(line@),
                line@ == trim(raw@),
                plan == line_plan(raw@),
                segments@.len() == k,
                forall|j: int|
                    0 <= j < k ==> (views((#[trigger] segments@[j]).0@), segments@[j].1@)
                        == plan[j],
            decreases pieces@.len() - k,
        {
            let (parts, ops) = split_by_and_or(pieces[k].as_str());
            proof {
                assert(views(pieces@)[k as int] == pieces@[k as int]@);
            }
            segments.push((parts, ops));
            k = k + 1;
        }
        proof {
            assert(segment_views(segments@) =~= plan);
            assert forall|j: int| 0 <= j < plan.len() implies (#[trigger] plan[j]).0.len()
                == plan[j].1.len() + 1 by {
                let seg = semicolon_segments(line@)[j];
                assert(plan[j] == (and_or_parts(seg), and_or_ops(seg)));
            }
        }
        LineRun { segments, seg: 0, idx: 0, last_status: 0, exit: None }
    }

    /// Hand out the next part of the line to run, or stop: with the exit
    /// code that a part asked for, or, once no part is left, with
    /// `RunResult::Continue`. The part handed out is the one that
    /// `next_from` names.
    pub fn next_action(&mut self) -> (r: LineAction)
        ensures
            Self::well_formed(final(self)@),
            final(self)@.segments == old(self)@.segments,
            final(self)@.last_status == old(self)@.last_status,
            final(self)@.exit == old(self)@.exit,
            old(self)@.exit matches Some(c) ==> r == LineAction::Done(RunResult::Exit(c)),
            old(self)@.exit is None ==> match next_from(
                old(self)@.segments,
                old(self)@.seg,
                old(self)@.idx,
                old(self)@.last_status,
            ) {
                Some((s, i)) => {
                    &&& r matches LineAction::Run(p) && p@ == old(self)@.segments[s].0[i]
                    &&& final(self)@.seg == s
                    &&& final(self)@.idx == i + 1
                },
                None => r == LineAction::Done(RunResult::Continue),
            },
    {
        proof {
            use_type_invariant(&*self);
        }
        if let Some(c) = self.exit {
            return LineAction::Done(RunResult::Exit(c));
        }
        let ghost segs = self@.segments;
        let ghost target = next_from(segs, self.seg as int, self.idx as int, self.last_status);
        let n = self.segments.len();
        let mut seg = self.seg;
        let mut idx = self.idx;
        let last = self.last_status;
        while seg < n
            invariant
                *self == *old(self),
                self.inv(),
                self.exit is None,
                n == self.segments@.len(),
                segs == segment_views(self.segments@),
                plan_wf(segs),
                seg <= n,
                seg < n ==> idx <= self.segments@[seg as int].0@.len(),
                last == self.last_status,
                next_from(segs, seg as int, idx as int, last) == target,
                target == next_from(
                    old(self)@.segments,
                    old(self)@.seg,
                    old(self)@.idx,
                    old(self)@.last_status,
                ),
            decreases n - seg, (if seg < n {
                self.segments@[seg as int].0@.len() - idx
            } else {
                0
            }),
        {
            assert(segs[seg as int].0.len() == self.segments@[seg as int].0@.len());
            assert(segs[seg as int].1 == self.segments@[seg as int].1@);
            let parts = &self.segments[seg].0;
            if idx >= parts.len() {
                seg = seg + 1;
                idx = 0;
                continue;
            }
            assert(segs[seg as int].0[idx as int] == parts@[idx as int]@);
            if parts[idx].as_str().is_empty() {
                idx = idx + 1;
                continue;
            }
            let run = if idx == 0 {
                true
            } else {
                match self.segments[seg].1[idx - 1] {
                    ControlOp::AndAnd => last == 0,
                    ControlOp::OrOr => last != 0,
                }
            };
            if run {
                let part = parts[idx].clone();
                assert(segs[seg as int].0[idx as int].len() > 0);
                assert(next_from(segs, seg as int, idx as int, last) == Some(
                    (seg as int, idx as int),
                ));
                self.idx = 0;
                self.seg = seg;
                self.idx = idx + 1;
                return LineAction::Run(part);
            }
            if self.segments[seg].1[idx - 1] == ControlOp::AndAnd {
                idx = idx + 1;
            } else {
                seg = seg + 1;
                idx = 0;
            }
        }
        self.seg = n;
        self.idx = 0;
        LineAction::Done(RunResult::Continue)
    }

    /// Record the outcome of the part last handed out: its status becomes
    /// the last status, and an exit it asked for stops the line.
    pub fn record(&mut self, result: RunResult, status: u8)
        ensures
            Self::well_formed(final(self)@),
            final(self)@.segments == old(self)@.segments,
            final(self)@.seg == old(self)@.seg,
            final(self)@.idx == old(self)@.idx,
            final(self)@.last_status == status,
            final(self)@.exit == (match result {
                RunResult::Exit(c) => Some(c),
                RunResult::Continue => old(self)@.exit,
            }),
    {
        proof {
            use_type_invariant(&*self);
        }
        self.last_status = status;
        if let RunResult::Exit(c) = result {
            self.exit = Some(c);
        }
    }
}

} // verus!
