//! Lexicographic order on character sequences, and sorting by it.

use vstd::prelude::*;

verus! {

/// Whether `a` comes strictly before `b` in lexicographic order by
/// character (the order in which `String`s compare: their UTF-8 bytes
/// order code points the same way).
pub open spec fn lex_lt(a: Seq<char>, b: Seq<char>) -> bool
    decreases a.len(),
{
    if a.len() == 0 {
        b.len() > 0
    } else if b.len() == 0 {
        false
    } else if a[0] != b[0] {
        a[0] < b[0]
    } else {
        lex_lt(a.drop_first(), b.drop_first())
    }
}

/// `lex_lt` is irreflexive.
pub proof fn lemma_lex_irreflexive(a: Seq<char>)
    ensures
        !lex_lt(a, a),
    decreases a.len(),
{
    if a.len() > 0 {
        lemma_lex_irreflexive(a.drop_first());
    }
}

/// `lex_lt` is transitive.
pub proof fn lemma_lex_transitive(a: Seq<char>, b: Seq<char>, c: Seq<char>)
    requires
        lex_lt(a, b),
        lex_lt(b, c),
    ensures
        lex_lt(a, c),
    decreases a.len(),
{
    if a.len() > 0 && b.len() > 0 && c.len() > 0 && a[0] == b[0] && b[0] == c[0] {
        lemma_lex_transitive(a.drop_first(), b.drop_first(), c.drop_first());
    }
}

/// Any two sequences are equal, or one comes before the other.
pub proof fn lemma_lex_total(a: Seq<char>, b: Seq<char>)
    ensures
        a == b || lex_lt(a, b) || lex_lt(b, a),
    decreases a.len(),
{
    if a.len() > 0 && b.len() > 0 && a[0] == b[0] {
        lemma_lex_total(a.drop_first(), b.drop_first());
        if a.drop_first() == b.drop_first() {
            assert(a =~= seq![a[0]] + a.drop_first());
            assert(b =~= seq![b[0]] + b.drop_first());
        }
    } else if a.len() == 0 && b.len() == 0 {
        assert(a =~= b);
    }
}

/// Whether `a` comes strictly before `b`.
pub fn chars_lt(a: &Vec<char>, b: &Vec<char>) -> (r: bool)
    ensures
        r == lex_lt(a@, b@),
{
    let mut i: usize = 0;
    assert(a@.skip(0) =~= a@);
    assert(b@.skip(0) =~= b@);
    while i < a.len() && i < b.len() && a[i] == b[i]
        invariant
            i <= a@.len(),
            i <= b@.len(),
            lex_lt(a@.skip(i as int), b@.skip(i as int)) == lex_lt(a@, b@),
        decreases a@.len() - i,
    {
        assert(a@.skip(i as int).drop_first() =~= a@.skip(i + 1));
        assert(b@.skip(i as int).drop_first() =~= b@.skip(i + 1));
        i = i + 1;
    }
    if i == a.len() {
        i < b.len()
    } else if i == b.len() {
        false
    } else {
        a[i] < b[i]
    }
}

/// Whether element `i` (with key `keys[i]`) comes strictly before element
/// `j` when sorting by key, and by position among equal keys.
pub open spec fn key_pos_lt(keys: Seq<Seq<char>>, i: int, j: int) -> bool {
    lex_lt(keys[i], keys[j]) || (keys[i] == keys[j] && i < j)
}

/// Whether `perm` lists the positions of `keys` in stable sorted order: it
/// has one entry per key, each a valid position, and keys (then positions
/// among equal keys) strictly increase along it. Exactly one sequence
/// satisfies this.
pub open spec fn stable_order(keys: Seq<Seq<char>>, perm: Seq<int>) -> bool {
    &&& perm.len() == keys.len()
    &&& forall|k: int| 0 <= k < perm.len() ==> 0 <= #[trigger] perm[k] < keys.len()
    &&& forall|k: int, l: int|
        0 <= k < l < perm.len() ==> key_pos_lt(keys, #[trigger] perm[k], #[trigger] perm[l])
}

/// The positions of `keys` in stable sorted order: by key, and by position
/// among equal keys.
pub fn stable_sort_indices(keys: &Vec<Vec<char>>) -> (r: Vec<usize>)
    ensures
        stable_order(keys.deep_view(), r@.map_values(|i: usize| i as int)),
{
    let ghost ks = keys.deep_view();
    let n = keys.len();
    let mut sorted: Vec<usize> = Vec::new();
    let mut j: usize = 0;
    assert forall|i: int| 0 <= i < n implies #[trigger] ks[i] == keys@[i]@ by {
        assert(keys@[i].deep_view() =~= keys@[i]@);
    }
    while j < n
        invariant
            n == keys@.len(),
            ks == keys.deep_view(),
            ks.len() == n,
            forall|i: int| 0 <= i < n ==> #[trigger] ks[i] == keys@[i]@,
            j <= n,
            sorted@.len() == j,
            forall|k: int| 0 <= k < sorted@.len() ==> #[trigger] sorted@[k] < j,
            forall|k: int, l: int|
                0 <= k < l < sorted@.len() ==> key_pos_lt(
                    ks,
                    #[trigger] sorted@[k] as int,
                    #[trigger] sorted@[l] as int,
                ),
        decreases n - j,
    {
        assert(ks[j as int] == keys@[j as int]@);
        let mut p: usize = 0;
        while p < sorted.len() && !chars_lt(&keys[j], &keys[sorted[p]])
            invariant
                n == keys@.len(),
                ks == keys.deep_view(),
                forall|i: int| 0 <= i < n ==> #[trigger] ks[i] == keys@[i]@,
                j < n,
                p <= sorted@.len(),
                forall|k: int| 0 <= k < sorted@.len() ==> #[trigger] sorted@[k] < j,
                forall|k: int| 0 <= k < p ==> !lex_lt(ks[j as int], ks[#[trigger] sorted@[k] as int]),
            decreases sorted@.len() - p,
        {
            assert(ks[sorted@[p as int] as int] == keys@[sorted@[p as int] as int]@);
            p = p + 1;
        }
        if p < sorted.len() {
            assert(ks[sorted@[p as int] as int] == keys@[sorted@[p as int] as int]@);
        }
        let ghost before = sorted@;
        proof {
            assert forall|k: int| p <= k < before.len() implies lex_lt(
                ks[j as int],
                ks[#[trigger] before[k] as int],
            ) by {
                if k > p {
                    assert(key_pos_lt(ks, before[p as int] as int, before[k] as int));
                    if lex_lt(ks[before[p as int] as int], ks[before[k] as int]) {
                        lemma_lex_transitive(
                            ks[j as int],
                            ks[before[p as int] as int],
                            ks[before[k] as int],
                        );
                    }
                }
            }
            assert forall|k: int| 0 <= k < p implies key_pos_lt(
                ks,
                #[trigger] before[k] as int,
                j as int,
            ) by {
                lemma_lex_total(ks[before[k] as int], ks[j as int]);
            }
        }
        sorted.insert(p, j);
        proof {
            assert forall|k: int, l: int|
                0 <= k < l < sorted@.len() implies key_pos_lt(
                ks,
                #[trigger] sorted@[k] as int,
                #[trigger] sorted@[l] as int,
            ) by {
                if l < p {
                    assert(sorted@[k] == before[k] && sorted@[l] == before[l]);
                } else if l == p {
                    assert(sorted@[k] == before[k]);
                } else if k < p {
                    assert(sorted@[k] == before[k] && sorted@[l] == before[l - 1]);
                } else if k == p {
                    assert(sorted@[l] == before[l - 1]);
                } else {
                    assert(sorted@[k] == before[k - 1] && sorted@[l] == before[l - 1]);
                }
            }
        }
        j = j + 1;
    }
    sorted
}

} // verus!
