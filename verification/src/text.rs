//! Character-level helpers on strings: whitespace trimming, equality and
//! conversion between strings and character vectors.

use vstd::prelude::*;

use crate::bindings::push_char;

verus! {

/// The Unicode `White_Space` characters, the set that `char::is_whitespace`
/// (and therefore `str::trim`) recognises.
pub open spec fn is_space(c: char) -> bool {
    ||| ('\u{9}' <= c && c <= '\u{d}')
    ||| c == ' '
    ||| c == '\u{85}'
    ||| c == '\u{a0}'
    ||| c == '\u{1680}'
    ||| ('\u{2000}' <= c && c <= '\u{200a}')
    ||| c == '\u{2028}'
    ||| c == '\u{2029}'
    ||| c == '\u{202f}'
    ||| c == '\u{205f}'
    ||| c == '\u{3000}'
}

/// `s` without its leading whitespace.
pub open spec fn trim_start(s: Seq<char>) -> Seq<char>
    decreases s.len(),
{
    if s.len() > 0 && is_space(s[0]) {
        trim_start(s.drop_first())
    } else {
        s
    }
}

/// `s` without its trailing whitespace.
pub open spec fn trim_end(s: Seq<char>) -> Seq<char>
    decreases s.len(),
{
    if s.len() > 0 && is_space(s.last()) {
        trim_end(s.drop_last())
    } else {
        s
    }
}

/// `s` without leading and trailing whitespace, as `str::trim` gives it.
pub open spec fn trim(s: Seq<char>) -> Seq<char> {
    trim_end(trim_start(s))
}

/// Whether `c` is a whitespace character.
pub fn char_is_space(c: char) -> (r: bool)
    ensures
        r == is_space(c),
{
    ('\u{9}' <= c && c <= '\u{d}') || c == ' ' || c == '\u{85}' || c == '\u{a0}' || c
        == '\u{1680}' || ('\u{2000}' <= c && c <= '\u{200a}') || c == '\u{2028}' || c
        == '\u{2029}' || c == '\u{202f}' || c == '\u{205f}' || c == '\u{3000}'
}

/// The characters of `s`, in order.
pub fn chars_of(s: &str) -> (v: Vec<char>)
    ensures
        v@ == s@,
{
    let n = s.unicode_len();
    let mut v: Vec<char> = Vec::new();
    let mut i: usize = 0;
    while i < n
        invariant
            n == s@.len(),
            i <= n,
            v@ == s@.take(i as int),
        decreases n - i,
    {
        let c = s.get_char(i);
        v.push(c);
        i = i + 1;
        assert(v@ =~= s@.take(i as int));
    }
    assert(v@ =~= s@);
    v
}

/// The bounds `(a, b)` inside `lo..hi` of the trimmed part of `cs[lo..hi]`.
pub fn trimmed_bounds(cs: &Vec<char>, lo: usize, hi: usize) -> (r: (usize, usize))
    requires
        lo <= hi <= cs@.len(),
    ensures
        lo <= r.0 <= r.1 <= hi,
        cs@.subrange(r.0 as int, r.1 as int) == trim(cs@.subrange(lo as int, hi as int)),
{
    let mut a = lo;
    while a < hi && char_is_space(cs[a])
        invariant
            lo <= a <= hi <= cs@.len(),
            trim_start(cs@.subrange(a as int, hi as int)) == trim_start(
                cs@.subrange(lo as int, hi as int),
            ),
        decreases hi - a,
    {
        assert(cs@.subrange(a as int, hi as int).drop_first() =~= cs@.subrange(
            a + 1,
            hi as int,
        ));
        a = a + 1;
    }
    assert(trim_start(cs@.subrange(a as int, hi as int)) == cs@.subrange(a as int, hi as int));
    let mut b = hi;
    while b > a && char_is_space(cs[b - 1])
        invariant
            lo <= a <= b <= hi <= cs@.len(),
            trim_end(cs@.subrange(a as int, b as int)) == trim(cs@.subrange(lo as int, hi as int)),
        decreases b - a,
    {
        assert(cs@.subrange(a as int, b as int).drop_last() =~= cs@.subrange(
            a as int,
            b - 1,
        ));
        b = b - 1;
    }
    (a, b)
}

/// A new string holding `s[from..to]`, counted in characters.
pub fn owned_substring(s: &str, from: usize, to: usize) -> (r: String)
    requires
        from <= to <= s@.len(),
    ensures
        r@ == s@.subrange(from as int, to as int),
{
    String::from_str(s.substring_char(from, to))
}

/// `s` without its leading and trailing whitespace, as a new string.
pub fn trimmed(s: &str) -> (r: String)
    ensures
        r@ == trim(s@),
{
    let cs = chars_of(s);
    let (a, b) = trimmed_bounds(&cs, 0, cs.len());
    assert(s@.subrange(0, s@.len() as int) =~= s@);
    owned_substring(s, a, b)
}

/// Whether `a` and `b` hold the same characters.
pub fn text_eq(a: &str, b: &str) -> (r: bool)
    ensures
        r == (a@ == b@),
{
    let n = a.unicode_len();
    let m = b.unicode_len();
    if n != m {
        return false;
    }
    let mut i: usize = 0;
    while i < n
        invariant
            n == a@.len(),
            n == b@.len(),
            i <= n,
            forall|k: int| 0 <= k < i ==> a@[k] == b@[k],
        decreases n - i,
    {
        if a.get_char(i) != b.get_char(i) {
            return false;
        }
        i = i + 1;
    }
    assert(a@ =~= b@);
    true
}

/// Whether `s` holds the character `c`.
pub fn contains_char(s: &str, c: char) -> (r: bool)
    ensures
        r == s@.contains(c),
{
    let n = s.unicode_len();
    let mut i: usize = 0;
    while i < n
        invariant
            n == s@.len(),
            i <= n,
            forall|k: int| 0 <= k < i ==> s@[k] != c,
        decreases n - i,
    {
        if s.get_char(i) == c {
            assert(s@[i as int] == c);
            return true;
        }
        i = i + 1;
    }
    false
}

/// The character views of a sequence of strings.
pub open spec fn views(v: Seq<String>) -> Seq<Seq<char>> {
    v.map_values(|x: String| x@)
}

/// The character view of an optional string.
pub open spec fn opt_view(o: Option<String>) -> Option<Seq<char>> {
    match o {
        Some(s) => Some(s@),
        None => None,
    }
}

/// Whether `c` is an ASCII decimal digit.
pub open spec fn is_digit(c: char) -> bool {
    '0' <= c && c <= '9'
}

/// The value of the ASCII digit `c`.
pub open spec fn digit_value(c: char) -> nat {
    ((c as u32) - ('0' as u32)) as nat
}

/// The value of a string of decimal digits, most significant first.
pub open spec fn decimal_value(ds: Seq<char>) -> nat
    decreases ds.len(),
{
    if ds.len() == 0 {
        0
    } else {
        decimal_value(ds.drop_last()) * 10 + digit_value(ds.last())
    }
}

/// The digits of an unsigned number as `str::parse` reads them: an optional
/// leading `+` is dropped.
pub open spec fn unsigned_digits(s: Seq<char>) -> Seq<char> {
    if s.len() > 0 && s[0] == '+' {
        s.drop_first()
    } else {
        s
    }
}

/// What `str::parse` gives for an unsigned integer type whose largest value
/// is `max`: an optional `+`, then one or more decimal digits whose value is
/// at most `max`; anything else is an error.
pub open spec fn parse_unsigned(s: Seq<char>, max: nat) -> Option<nat> {
    let ds = unsigned_digits(s);
    if ds.len() > 0 && (forall|i: int| 0 <= i < ds.len() ==> is_digit(#[trigger] ds[i]))
        && decimal_value(ds) <= max {
        Some(decimal_value(ds))
    } else {
        None
    }
}

proof fn lemma_decimal_prefix(ds: Seq<char>, j: int)
    requires
        0 <= j <= ds.len(),
        forall|i: int| 0 <= i < ds.len() ==> is_digit(#[trigger] ds[i]),
    ensures
        decimal_value(ds.take(j)) <= decimal_value(ds),
    decreases ds.len() - j,
{
    if j < ds.len() {
        lemma_decimal_prefix(ds, j + 1);
        assert(ds.take(j + 1).drop_last() =~= ds.take(j));
    } else {
        assert(ds.take(j) =~= ds);
    }
}

/// Parse an unsigned decimal number no larger than `max`, as `str::parse`
/// does for an unsigned integer type whose largest value is `max`.
pub fn parse_unsigned_exec(s: &str, max: u64) -> (r: Option<u64>)
    ensures
        match parse_unsigned(s@, max as nat) {
            Some(v) => r == Some(v as u64),
            None => r is None,
        },
{
    let n = s.unicode_len();
    let mut i: usize = 0;
    if n > 0 && s.get_char(0) == '+' {
        i = 1;
    }
    let ghost ds = unsigned_digits(s@);
    if i == n {
        return None;
    }
    let start = i;
    assert(ds =~= s@.subrange(start as int, n as int));
    let mut acc: u64 = 0;
    while i < n
        invariant
            n == s@.len(),
            start <= i <= n,
            start < n,
            ds == s@.subrange(start as int, n as int),
            ds == unsigned_digits(s@),
            acc <= max,
            acc == decimal_value(ds.take(i - start)),
            forall|k: int| 0 <= k < i - start ==> is_digit(#[trigger] ds[k]),
        decreases n - i,
    {
        let c = s.get_char(i);
        if !('0' <= c && c <= '9') {
            assert(!is_digit(ds[i - start]));
            return None;
        }
        let d = (c as u32 - '0' as u32) as u64;
        assert(ds.take(i - start + 1).drop_last() =~= ds.take(i - start));
        assert(ds.take(i - start + 1).last() == c);
        if d > max || acc > (max - d) / 10 {
            proof {
                let j = i - start + 1;
                assert(decimal_value(ds.take(j)) == acc * 10 + d);
                if d <= max {
                    assert(acc * 10 + d > max) by (nonlinear_arith)
                        requires
                            acc > (max - d) / 10,
                            d <= max,
                    ;
                }
                if forall|k: int| 0 <= k < ds.len() ==> is_digit(#[trigger] ds[k]) {
                    lemma_decimal_prefix(ds, j as int);
                }
            }
            return None;
        }
        acc = acc * 10 + d;
        i = i + 1;
    }
    assert(ds.take(n - start) =~= ds);
    Some(acc)
}

/// `parts` joined with `sep` between each two of them.
pub open spec fn join(parts: Seq<Seq<char>>, sep: Seq<char>) -> Seq<char>
    decreases parts.len(),
{
    if parts.len() == 0 {
        Seq::empty()
    } else if parts.len() == 1 {
        parts[0]
    } else {
        join(parts.drop_last(), sep) + sep + parts.last()
    }
}

/// The strings `parts` joined with `sep` between each two of them.
pub fn join_strings(parts: &Vec<String>, sep: &str) -> (r: String)
    ensures
        r@ == join(views(parts@), sep@),
{
    let mut r = String::new();
    let mut i: usize = 0;
    while i < parts.len()
        invariant
            i <= parts@.len(),
            r@ == join(views(parts@).take(i as int), sep@),
        decreases parts@.len() - i,
    {
        let ghost before = views(parts@).take(i as int);
        if i > 0 {
            r.append(sep);
        }
        r.append(parts[i].as_str());
        assert(views(parts@).take(i + 1).drop_last() =~= before);
        if i == 0 {
            assert(r@ =~= join(views(parts@).take(1), sep@));
        }
        i = i + 1;
    }
    assert(views(parts@).take(parts@.len() as int) =~= views(parts@));
    r
}

/// The digit character for `d` (at most 9).
pub open spec fn digit_char(d: nat) -> char {
    (48 + d) as char
}

/// The decimal digits of `n`, most significant first, with no leading
/// zero (and the single digit `0` for zero).
pub open spec fn decimal(n: nat) -> Seq<char>
    decreases n,
{
    if n < 10 {
        seq![digit_char(n)]
    } else {
        decimal(n / 10).push(digit_char(n % 10))
    }
}

/// The decimal digits of `n`.
pub fn decimal_text(n: u64) -> (r: String)
    ensures
        r@ == decimal(n as nat),
    decreases n,
{
    let mut r = if n < 10 {
        String::new()
    } else {
        decimal_text(n / 10)
    };
    let d = (n % 10) as u8;
    let c = (48u8 + d) as char;
    push_char(&mut r, c);
    r
}

/// `n` spaces.
pub open spec fn spaces(n: nat) -> Seq<char> {
    Seq::new(n, |i: int| ' ')
}

/// `s` with spaces in front, to make it at least `width` characters long.
pub open spec fn pad_left(s: Seq<char>, width: nat) -> Seq<char> {
    if s.len() < width {
        spaces((width - s.len()) as nat) + s
    } else {
        s
    }
}

/// Append `n` spaces to `s`.
pub fn push_spaces(s: &mut String, n: usize)
    ensures
        final(s)@ == old(s)@ + spaces(n as nat),
{
    let mut i: usize = 0;
    while i < n
        invariant
            i <= n,
            s@ == old(s)@ + spaces(i as nat),
        decreases n - i,
    {
        s.append(" ");
        proof {
            reveal_strlit(" ");
        }
        i = i + 1;
        assert(s@ =~= old(s)@ + spaces(i as nat));
    }
}

/// The pieces of `s` between the characters `sep`, from left to right; a
/// piece may be empty.
pub open spec fn split_on(s: Seq<char>, sep: char) -> Seq<Seq<char>>
    decreases s.len(),
{
    if s.len() == 0 {
        seq![Seq::empty()]
    } else {
        let g = split_on(s.drop_last(), sep);
        if s.last() == sep {
            g.push(Seq::empty())
        } else {
            g.update(g.len() - 1, g.last().push(s.last()))
        }
    }
}

/// There is always at least one piece.
pub proof fn lemma_split_on_len(s: Seq<char>, sep: char)
    ensures
        split_on(s, sep).len() >= 1,
    decreases s.len(),
{
    if s.len() > 0 {
        lemma_split_on_len(s.drop_last(), sep);
    }
}

/// The pieces of `s` between the characters `sep`.
pub fn split_chars(s: &str, sep: char) -> (r: Vec<String>)
    ensures
        views(r@) == split_on(s@, sep),
{
    let cs = chars_of(s);
    let n = cs.len();
    let mut pieces: Vec<String> = Vec::new();
    let mut start: usize = 0;
    let mut i: usize = 0;
    assert(s@.take(0) =~= Seq::<char>::empty());
    while i < n
        invariant
            cs@ == s@,
            n == s@.len(),
            start <= i <= n,
            split_on(s@.take(i as int), sep).len() == pieces@.len() + 1,
            split_on(s@.take(i as int), sep).last() == s@.subrange(start as int, i as int),
            forall|k: int|
                0 <= k < pieces@.len() ==> (#[trigger] pieces@[k])@ == split_on(
                    s@.take(i as int),
                    sep,
                )[k],
        decreases n - i,
    {
        let ghost g = split_on(s@.take(i as int), sep);
        assert(s@.take(i + 1).drop_last() =~= s@.take(i as int));
        assert(s@.take(i + 1).last() == cs@[i as int]);
        if cs[i] == sep {
            let piece = owned_substring(s, start, i);
            pieces.push(piece);
            start = i + 1;
            assert(split_on(s@.take(i + 1), sep) == g.push(Seq::empty()));
            assert(s@.subrange(start as int, i + 1) =~= Seq::<char>::empty());
        } else {
            assert(split_on(s@.take(i + 1), sep) == g.update(g.len() - 1, g.last().push(cs@[i as int])));
            assert(s@.subrange(start as int, i + 1) =~= s@.subrange(start as int, i as int).push(cs@[i as int]));
        }
        i = i + 1;
    }
    assert(s@.take(n as int) =~= s@);
    let piece = owned_substring(s, start, n);
    pieces.push(piece);
    assert(views(pieces@) =~= split_on(s@, sep));
    pieces
}

/// Whether `s` starts with `prefix`.
pub open spec fn starts_with(s: Seq<char>, prefix: Seq<char>) -> bool {
    prefix.len() <= s.len() && s.take(prefix.len() as int) == prefix
}

/// Whether `s` starts with `prefix`.
pub fn text_starts_with(s: &str, prefix: &str) -> (r: bool)
    ensures
        r == starts_with(s@, prefix@),
{
    let n = s.unicode_len();
    let m = prefix.unicode_len();
    if m > n {
        return false;
    }
    let mut i: usize = 0;
    while i < m
        invariant
            n == s@.len(),
            m == prefix@.len(),
            m <= n,
            i <= m,
            forall|k: int| 0 <= k < i ==> s@[k] == prefix@[k],
        decreases m - i,
    {
        if s.get_char(i) != prefix.get_char(i) {
            assert(s@.take(m as int)[i as int] != prefix@[i as int]);
            return false;
        }
        i = i + 1;
    }
    assert(s@.take(m as int) =~= prefix@);
    true
}

} // verus!
