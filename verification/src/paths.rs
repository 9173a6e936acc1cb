//! The file name of a path, as `Path::file_name` gives it on Unix.

use vstd::prelude::*;

use crate::text::{chars_of, owned_substring};

verus! {

/// The text after the last `/` of `p` (all of `p` when it has none).
pub open spec fn last_piece(p: Seq<char>) -> Seq<char>
    decreases p.len(),
{
    if p.len() == 0 || p.last() == '/' {
        Seq::empty()
    } else {
        last_piece(p.drop_last()).push(p.last())
    }
}

/// The text before the last `/` of `p` (nothing when it has none).
pub open spec fn before_last_piece(p: Seq<char>) -> Seq<char>
    decreases p.len(),
{
    if p.len() == 0 {
        Seq::empty()
    } else if p.last() == '/' {
        p.drop_last()
    } else {
        before_last_piece(p.drop_last())
    }
}

/// What comes before the last piece is shorter than the path.
pub proof fn lemma_before_last_piece_shorter(p: Seq<char>)
    requires
        p.len() > 0,
    ensures
        before_last_piece(p).len() < p.len(),
    decreases p.len(),
{
    if p.last() != '/' {
        if p.drop_last().len() > 0 {
            lemma_before_last_piece_shorter(p.drop_last());
        } else {
            assert(before_last_piece(p.drop_last()) == Seq::<char>::empty());
        }
    }
}

/// The file name of a path: its last piece between slashes, passing over
/// empty pieces and `.`; none when that piece is `..` or there is none.
pub open spec fn file_name(p: Seq<char>) -> Option<Seq<char>>
    decreases p.len(),
{
    if p.len() == 0 {
        None
    } else {
        let piece = last_piece(p);
        if piece.len() == 0 || piece == "."@ {
            proof {
                lemma_before_last_piece_shorter(p);
            }
            file_name(before_last_piece(p))
        } else if piece == ".."@ {
            None
        } else {
            Some(piece)
        }
    }
}

proof fn lemma_last_piece(p: Seq<char>, s: int, end: int)
    requires
        0 <= s <= end <= p.len(),
        forall|k: int| s <= k < end ==> p[k] != '/',
        s == 0 || p[s - 1] == '/',
    ensures
        last_piece(p.take(end)) == p.subrange(s, end),
        before_last_piece(p.take(end)) == if s == 0 {
            Seq::<char>::empty()
        } else {
            p.take(s - 1)
        },
    decreases end - s,
{
    if s < end {
        lemma_last_piece(p, s, end - 1);
        assert(p.take(end).drop_last() =~= p.take(end - 1));
        assert(p.subrange(s, end) =~= p.subrange(s, end - 1).push(p[end - 1]));
    } else {
        assert(p.subrange(s, end) =~= Seq::<char>::empty());
        if s > 0 {
            assert(p.take(end).drop_last() =~= p.take(s - 1));
        } else {
            assert(p.take(end) =~= Seq::<char>::empty());
        }
    }
}

/// The file name of the path `p`.
pub fn file_name_of(p: &str) -> (r: Option<String>)
    ensures
        match file_name(p@) {
            Some(n) => r matches Some(s) && s@ == n,
            None => r is None,
        },
{
    let cs = chars_of(p);
    let mut end = cs.len();
    assert(p@.take(end as int) =~= p@);
    while end > 0
        invariant
            cs@ == p@,
            end <= p@.len(),
            file_name(p@.take(end as int)) == file_name(p@),
        decreases end,
    {
        let mut s = end;
        while s > 0 && cs[s - 1] != '/'
            invariant
                cs@ == p@,
                s <= end <= p@.len(),
                forall|k: int| s <= k < end ==> p@[k] != '/',
            decreases s,
        {
            s = s - 1;
        }
        proof {
            lemma_last_piece(p@, s as int, end as int);
            assert(p@.take(end as int).len() > 0);
        }
        let ghost piece = p@.subrange(s as int, end as int);
        let is_dot = end - s == 1 && cs[s] == '.';
        let is_dotdot = end - s == 2 && cs[s] == '.' && cs[s + 1] == '.';
        proof {
            reveal_strlit(".");
            reveal_strlit("..");
            if is_dot {
                assert(piece =~= "."@);
            }
            if is_dotdot {
                assert(piece =~= ".."@);
            }
            if !is_dot && piece.len() == 1 {
                assert(piece[0] != '.');
                assert(piece != "."@);
            }
            if !is_dotdot && piece.len() == 2 {
                assert(piece[0] != '.' || piece[1] != '.');
                assert(piece != ".."@);
            }
        }
        if end == s || is_dot {
            if s == 0 {
                assert(file_name(Seq::<char>::empty()) is None);
                return None;
            }
            end = s - 1;
        } else if is_dotdot {
            return None;
        } else {
            return Some(owned_substring(p, s, end));
        }
    }
    None
}

} // verus!
