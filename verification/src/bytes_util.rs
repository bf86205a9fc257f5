//! Byte-sequence search primitives used by the multipart decoder.

use vstd::prelude::*;

verus! {

/// True when pattern `p` occurs in `s` at position `i`.
pub open spec fn match_at(s: Seq<u8>, p: Seq<u8>, i: int) -> bool {
    0 <= i && i + p.len() <= s.len() && s.subrange(i, i + p.len()) == p
}

/// Position of the first occurrence of `p` in `s` at or after `from`.
pub open spec fn find_from(s: Seq<u8>, p: Seq<u8>, from: int) -> Option<int>
    decreases s.len() + 1 - from,
{
    if from < 0 || from + p.len() > s.len() {
        None
    } else if match_at(s, p, from) {
        Some(from)
    } else {
        find_from(s, p, from + 1)
    }
}

pub proof fn lemma_find_from_props(s: Seq<u8>, p: Seq<u8>, from: int)
    requires
        0 <= from,
    ensures
        match find_from(s, p, from) {
            Some(i) => from <= i && i + p.len() <= s.len() && match_at(s, p, i) && forall|k: int|
                from <= k < i ==> !match_at(s, p, k),
            None => forall|k: int| from <= k ==> !match_at(s, p, k),
        },
    decreases s.len() + 1 - from,
{
    if from + p.len() > s.len() {
        assert forall|k: int| from <= k implies !match_at(s, p, k) by {}
    } else if match_at(s, p, from) {
    } else {
        lemma_find_from_props(s, p, from + 1);
    }
}

pub proof fn lemma_find_from_is(s: Seq<u8>, p: Seq<u8>, from: int, i: int)
    requires
        0 <= from <= i,
        match_at(s, p, i),
        forall|k: int| from <= k < i ==> !match_at(s, p, k),
    ensures
        find_from(s, p, from) == Some(i),
    decreases i - from,
{
    if from < i {
        lemma_find_from_is(s, p, from + 1, i);
    }
}

pub proof fn lemma_find_from_none(s: Seq<u8>, p: Seq<u8>, from: int)
    requires
        0 <= from,
        forall|k: int| from <= k ==> !match_at(s, p, k),
    ensures
        find_from(s, p, from) is None,
    decreases s.len() + 1 - from,
{
    if from + p.len() <= s.len() {
        lemma_find_from_none(s, p, from + 1);
    }
}

pub proof fn lemma_find_from_shift(s: Seq<u8>, p: Seq<u8>, c: int)
    requires
        0 <= c <= s.len(),
    ensures
        find_from(s.skip(c), p, 0) == (match find_from(s, p, c) {
            Some(j) => Some(j - c),
            None => None::<int>,
        }),
{
    assert forall|k: int| 0 <= k implies match_at(s.skip(c), p, k) == match_at(s, p, c + k) by {
        if k + p.len() <= s.len() - c {
            assert(s.skip(c).subrange(k, k + p.len()) =~= s.subrange(c + k, c + k + p.len()));
        }
    }
    lemma_find_from_props(s, p, c);
    match find_from(s, p, c) {
        Some(j) => {
            assert forall|k: int| 0 <= k < j - c implies !match_at(s.skip(c), p, k) by {
                assert(!match_at(s, p, c + k));
            }
            lemma_find_from_is(s.skip(c), p, 0, j - c);
        },
        None => {
            assert forall|k: int| 0 <= k implies !match_at(s.skip(c), p, k) by {
                assert(!match_at(s, p, c + k));
            }
            lemma_find_from_none(s.skip(c), p, 0);
        },
    }
}

/// True when the bytes of `p` stand in `s` at position `i`.
pub fn eq_at(s: &[u8], i: usize, p: &[u8]) -> (r: bool)
    ensures
        r == match_at(s@, p@, i as int),
{
    if i > s.len() || p.len() > s.len() - i {
        return false;
    }
    let slen: usize = s.len();
    let mut j: usize = 0;
    while j < p.len()
        invariant
            0 <= j <= p@.len(),
            i + p@.len() <= s@.len(),
            s@.len() == slen,
            forall|k: int| 0 <= k < j ==> s@[i + k] == p@[k],
        decreases p@.len() - j,
    {
        if s[i + j] != p[j] {
            proof {
                assert(s@.subrange(i as int, i + p@.len())[j as int] == s@[i + j]);
            }
            return false;
        }
        j = j + 1;
    }
    proof {
        assert(s@.subrange(i as int, i + p@.len()) =~= p@);
    }
    true
}

/// First occurrence of `p` in `s` at or after `from`.
pub fn find_sub(s: &[u8], p: &[u8], from: usize) -> (r: Option<usize>)
    ensures
        match r {
            Some(i) => find_from(s@, p@, from as int) == Some(i as int),
            None => find_from(s@, p@, from as int) is None,
        },
{
    if p.len() > s.len() || from > s.len() - p.len() {
        proof {
            lemma_find_from_props(s@, p@, from as int);
            if find_from(s@, p@, from as int) is Some {
                assert(false);
            }
        }
        return None;
    }
    if p.len() == 0 {
        proof {
            assert(s@.subrange(from as int, from as int) =~= p@);
            lemma_find_from_is(s@, p@, from as int, from as int);
        }
        return Some(from);
    }
    let mut i: usize = from;
    while i <= s.len() - p.len()
        invariant
            from <= i,
            1 <= p@.len() <= s@.len(),
            i <= s@.len() - p@.len() + 1,
            forall|k: int| from <= k < i ==> !match_at(s@, p@, k),
        decreases s@.len() - i,
    {
        if eq_at(s, i, p) {
            proof {
                lemma_find_from_is(s@, p@, from as int, i as int);
            }
            return Some(i);
        }
        i = i + 1;
    }
    proof {
        assert forall|k: int| from <= k implies !match_at(s@, p@, k) by {}
        lemma_find_from_none(s@, p@, from as int);
    }
    None
}

/// The bytes of `s` from `a` (inclusive) to `b` (exclusive), as a fresh vector.
pub fn copy_range(s: &[u8], a: usize, b: usize) -> (r: Vec<u8>)
    requires
        a <= b <= s@.len(),
    ensures
        r@ == s@.subrange(a as int, b as int),
{
    let mut r: Vec<u8> = Vec::new();
    let mut i: usize = a;
    while i < b
        invariant
            a <= i <= b <= s@.len(),
            r@ =~= s@.subrange(a as int, i as int),
        decreases b - i,
    {
        r.push(s[i]);
        proof {
            assert(r@ =~= s@.subrange(a as int, i + 1));
        }
        i = i + 1;
    }
    proof {
        assert(r@ =~= s@.subrange(a as int, b as int));
    }
    r
}

} // verus!
