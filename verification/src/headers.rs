//! Per-part header parsing: finding the `Content-Disposition` line of a
//! multipart part and extracting its `name` and `filename` parameters.
//!
//! A header block is a run of lines, each terminated by CRLF.  The first
//! line whose name is `content-disposition` (case-insensitively) decides the
//! part: its value is split on `;`, each piece is trimmed of spaces and
//! tabs, and a piece of the shape `name="..."` or `filename="..."` supplies
//! the corresponding parameter.

use vstd::prelude::*;

use crate::bytes_util::{
    copy_range, eq_at, find_from, find_sub, lemma_find_from_props, lemma_find_from_shift, match_at,
};

verus! {

/// Lower-case an ASCII letter; leave every other byte alone.
pub open spec fn to_lower(b: u8) -> u8 {
    if 65 <= b && b <= 90 {
        (b + 32) as u8
    } else {
        b
    }
}

/// The bytes of `content-disposition:`.
pub open spec fn cd_prefix() -> Seq<u8> {
    seq![
        99u8, 111u8, 110u8, 116u8, 101u8, 110u8, 116u8, 45u8, 100u8, 105u8, 115u8, 112u8, 111u8,
        115u8, 105u8, 116u8, 105u8, 111u8, 110u8, 58u8,
    ]
}

/// True when the line carries a `Content-Disposition` header.
pub open spec fn is_cd_line(line: Seq<u8>) -> bool {
    line.len() >= 20 && line.take(20).map_values(|b: u8| to_lower(b)) == cd_prefix()
}

pub open spec fn is_param_blank(b: u8) -> bool {
    b == 32 || b == 9
}

pub open spec fn ptrim_start(s: Seq<u8>) -> Seq<u8>
    decreases s.len(),
{
    if s.len() > 0 && is_param_blank(s[0]) {
        ptrim_start(s.drop_first())
    } else {
        s
    }
}

pub open spec fn ptrim_end(s: Seq<u8>) -> Seq<u8>
    decreases s.len(),
{
    if s.len() > 0 && is_param_blank(s.last()) {
        ptrim_end(s.drop_last())
    } else {
        s
    }
}

/// A header-value piece after trimming spaces and tabs at both ends.
pub open spec fn trim_sp(s: Seq<u8>) -> Seq<u8> {
    ptrim_end(ptrim_start(s))
}

/// The bytes of `name`.
pub open spec fn name_key() -> Seq<u8> {
    seq![110u8, 97u8, 109u8, 101u8]
}

/// The bytes of `filename`.
pub open spec fn filename_key() -> Seq<u8> {
    seq![102u8, 105u8, 108u8, 101u8, 110u8, 97u8, 109u8, 101u8]
}

/// The quoted value a trimmed piece `key="value"` supplies for `key`.
pub open spec fn seg_param(seg: Seq<u8>, key: Seq<u8>) -> Option<Seq<u8>> {
    let t = trim_sp(seg);
    let k = key + seq![61u8, 34u8];
    if t.len() >= k.len() + 1 && t.take(k.len() as int) == k && t.last() == 34u8 {
        Some(t.subrange(k.len() as int, t.len() - 1))
    } else {
        None
    }
}

/// A header value split on `;`.
pub open spec fn split_semi(v: Seq<u8>) -> Seq<Seq<u8>>
    decreases v.len(),
{
    match find_from(v, seq![59u8], 0) {
        None => seq![v],
        Some(i) => if 0 <= i && i + 1 <= v.len() {
            seq![v.take(i)] + split_semi(v.skip(i + 1))
        } else {
            seq![v]
        },
    }
}

/// The value of the first piece that supplies `key`.
pub open spec fn first_param(segs: Seq<Seq<u8>>, key: Seq<u8>) -> Option<Seq<u8>>
    decreases segs.len(),
{
    if segs.len() == 0 {
        None
    } else {
        match seg_param(segs[0], key) {
            Some(v) => Some(v),
            None => first_param(segs.drop_first(), key),
        }
    }
}

/// The `name` and optional `filename` parameters of a disposition line.
pub open spec fn cd_line_params(line: Seq<u8>) -> Option<(Seq<u8>, Option<Seq<u8>>)> {
    let segs = split_semi(line.skip(20));
    match first_param(segs, name_key()) {
        None => None,
        Some(nm) => Some((nm, first_param(segs, filename_key()))),
    }
}

/// A header block split into lines on CRLF.
pub open spec fn split_lines(h: Seq<u8>) -> Seq<Seq<u8>>
    decreases h.len(),
{
    if h.len() == 0 {
        seq![]
    } else {
        match find_from(h, seq![13u8, 10u8], 0) {
            None => seq![h],
            Some(i) => if 0 <= i && i + 2 <= h.len() {
                seq![h.take(i)] + split_lines(h.skip(i + 2))
            } else {
                seq![h]
            },
        }
    }
}

/// What the first disposition line among the given lines supplies: the
/// part's field name, and its filename where one is declared.
pub open spec fn first_cd_params(lines: Seq<Seq<u8>>) -> Option<(Seq<u8>, Option<Seq<u8>>)>
    decreases lines.len(),
{
    if lines.len() == 0 {
        None
    } else if is_cd_line(lines[0]) {
        cd_line_params(lines[0])
    } else {
        first_cd_params(lines.drop_first())
    }
}

fn lower_byte(b: u8) -> (r: u8)
    ensures
        r == to_lower(b),
{
    if 65 <= b && b <= 90 {
        b + 32
    } else {
        b
    }
}

fn is_pblank(b: u8) -> (r: bool)
    ensures
        r == is_param_blank(b),
{
    b == 32 || b == 9
}

pub(crate) fn crlf_vec() -> (v: Vec<u8>)
    ensures
        v@ == seq![13u8, 10u8],
{
    let mut v: Vec<u8> = Vec::new();
    v.push(13);
    v.push(10);
    proof {
        assert(v@ =~= seq![13u8, 10u8]);
    }
    v
}

fn cd_prefix_vec() -> (v: Vec<u8>)
    ensures
        v@ == cd_prefix(),
{
    let mut v: Vec<u8> = Vec::new();
    v.push(99);
    v.push(111);
    v.push(110);
    v.push(116);
    v.push(101);
    v.push(110);
    v.push(116);
    v.push(45);
    v.push(100);
    v.push(105);
    v.push(115);
    v.push(112);
    v.push(111);
    v.push(115);
    v.push(105);
    v.push(116);
    v.push(105);
    v.push(111);
    v.push(110);
    v.push(58);
    proof {
        assert(v@ =~= cd_prefix());
    }
    v
}

fn name_key_vec() -> (v: Vec<u8>)
    ensures
        v@ == name_key(),
{
    let mut v: Vec<u8> = Vec::new();
    v.push(110);
    v.push(97);
    v.push(109);
    v.push(101);
    proof {
        assert(v@ =~= name_key());
    }
    v
}

fn filename_key_vec() -> (v: Vec<u8>)
    ensures
        v@ == filename_key(),
{
    let mut v: Vec<u8> = Vec::new();
    v.push(102);
    v.push(105);
    v.push(108);
    v.push(101);
    v.push(110);
    v.push(97);
    v.push(109);
    v.push(101);
    proof {
        assert(v@ =~= filename_key());
    }
    v
}

fn is_cd_line_exec(line: &[u8]) -> (r: bool)
    ensures
        r == is_cd_line(line@),
{
    if line.len() < 20 {
        return false;
    }
    let pat = cd_prefix_vec();
    let mut j: usize = 0;
    while j < 20
        invariant
            0 <= j <= 20,
            line@.len() >= 20,
            pat@ == cd_prefix(),
            forall|k: int| 0 <= k < j ==> to_lower(line@[k]) == cd_prefix()[k],
        decreases 20 - j,
    {
        if lower_byte(line[j]) != pat[j] {
            proof {
                let mapped = line@.take(20).map_values(|b: u8| to_lower(b));
                assert(mapped[j as int] == to_lower(line@.take(20)[j as int]));
            }
            return false;
        }
        j = j + 1;
    }
    proof {
        assert(line@.take(20).map_values(|b: u8| to_lower(b)) =~= cd_prefix());
    }
    true
}

proof fn lemma_ptrim_start_at(s: Seq<u8>, lo: int)
    requires
        0 <= lo <= s.len(),
        forall|j: int| 0 <= j < lo ==> is_param_blank(s[j]),
        lo < s.len() ==> !is_param_blank(s[lo]),
    ensures
        ptrim_start(s) == s.skip(lo),
    decreases lo,
{
    if lo == 0 {
        assert(s.skip(0) =~= s);
    } else {
        lemma_ptrim_start_at(s.drop_first(), lo - 1);
        assert(s.drop_first().skip(lo - 1) =~= s.skip(lo));
    }
}

proof fn lemma_ptrim_end_at(s: Seq<u8>, hi: int)
    requires
        0 <= hi <= s.len(),
        forall|j: int| hi <= j < s.len() ==> is_param_blank(s[j]),
        hi > 0 ==> !is_param_blank(s[hi - 1]),
    ensures
        ptrim_end(s) == s.take(hi),
    decreases s.len(),
{
    if hi == s.len() {
        assert(s.take(hi) =~= s);
    } else {
        assert(is_param_blank(s.last()));
        lemma_ptrim_end_at(s.drop_last(), hi);
        assert(s.drop_last().take(hi) =~= s.take(hi));
    }
}

/// Extract `key="value"` from the piece of `s` between `a` and `b`.
fn seg_param_pos(s: &[u8], a: usize, b: usize, key: &[u8]) -> (r: Option<Vec<u8>>)
    requires
        a <= b <= s@.len(),
    ensures
        match r {
            Some(v) => seg_param(s@.subrange(a as int, b as int), key@) == Some(v@),
            None => seg_param(s@.subrange(a as int, b as int), key@) is None,
        },
{
    let ghost seg = s@.subrange(a as int, b as int);
    let slen: usize = s.len();
    let mut lo: usize = a;
    while lo < b && is_pblank(s[lo])
        invariant
            a <= lo <= b <= s@.len(),
            forall|j: int| a <= j < lo ==> is_param_blank(s@[j]),
        decreases b - lo,
    {
        lo = lo + 1;
    }
    let mut hi: usize = b;
    while hi > lo && is_pblank(s[hi - 1])
        invariant
            a <= lo <= hi <= b <= s@.len(),
            forall|j: int| hi <= j < b ==> is_param_blank(s@[j]),
        decreases hi,
    {
        hi = hi - 1;
    }
    proof {
        assert forall|j: int| 0 <= j < lo - a implies is_param_blank(seg[j]) by {
            assert(seg[j] == s@[a + j]);
        }
        if lo - a < seg.len() {
            assert(seg[lo - a] == s@[lo as int]);
        }
        lemma_ptrim_start_at(seg, lo - a);
        let mid = seg.skip(lo - a);
        assert forall|j: int| hi - lo <= j < mid.len() implies is_param_blank(mid[j]) by {
            assert(mid[j] == s@[lo + j]);
        }
        if hi - lo > 0 {
            assert(mid[hi - lo - 1] == s@[hi - 1]);
        }
        lemma_ptrim_end_at(mid, hi - lo);
        assert(mid.take(hi - lo) =~= s@.subrange(lo as int, hi as int));
        assert(trim_sp(seg) == s@.subrange(lo as int, hi as int));
    }
    let ghost t = trim_sp(seg);
    let ghost k = key@ + seq![61u8, 34u8];
    let klen: usize = key.len();
    if hi - lo < klen || (hi - lo) - klen < 3 {
        proof {
            if seg_param(seg, key@) is Some {
                assert(t.len() >= k.len() + 1);
                assert(false);
            }
        }
        return None;
    }
    if !eq_at(s, lo, key) {
        proof {
            if seg_param(seg, key@) is Some {
                assert(t.take(k.len() as int) == k);
                assert forall|ii: int| 0 <= ii < klen implies s@[lo + ii] == key@[ii] by {
                    assert(t.take(k.len() as int)[ii] == t[ii]);
                    assert(t[ii] == s@[lo + ii]);
                    assert(k[ii] == key@[ii]);
                }
                assert(s@.subrange(lo as int, lo + klen) =~= key@);
                assert(match_at(s@, key@, lo as int));
                assert(false);
            }
        }
        return None;
    }
    if s[lo + klen] != 61 {
        proof {
            if seg_param(seg, key@) is Some {
                assert(t.take(k.len() as int)[klen as int] == t[klen as int]);
                assert(t[klen as int] == s@[lo + klen]);
                assert(k[klen as int] == 61u8);
                assert(false);
            }
        }
        return None;
    }
    if s[lo + klen + 1] != 34 {
        proof {
            if seg_param(seg, key@) is Some {
                assert(t.take(k.len() as int)[klen + 1] == t[klen + 1]);
                assert(t[klen + 1] == s@[lo + klen + 1]);
                assert(k[klen + 1] == 34u8);
                assert(false);
            }
        }
        return None;
    }
    if s[hi - 1] != 34 {
        proof {
            if seg_param(seg, key@) is Some {
                assert(t.last() == s@[hi - 1]);
                assert(false);
            }
        }
        return None;
    }
    let v = copy_range(s, lo + klen + 2, hi - 1);
    proof {
        assert(match_at(s@, key@, lo as int));
        assert forall|ii: int| 0 <= ii < klen implies t[ii] == k[ii] by {
            assert(t[ii] == s@[lo + ii]);
            assert(s@.subrange(lo as int, lo + klen)[ii] == s@[lo + ii]);
        }
        assert(t[klen as int] == s@[lo + klen]);
        assert(t[klen + 1] == s@[lo + klen + 1]);
        assert(t.take(k.len() as int) =~= k);
        assert(t.last() == s@[hi - 1]);
        assert(t.subrange(k.len() as int, t.len() - 1) =~= s@.subrange(lo + klen + 2, hi - 1));
    }
    Some(v)
}

/// The first `key="value"` among the `;`-separated pieces of `s` from
/// `start` to its end.
fn find_param(s: &[u8], start: usize, key: &[u8]) -> (r: Option<Vec<u8>>)
    requires
        start <= s@.len(),
    ensures
        match r {
            Some(v) => first_param(split_semi(s@.skip(start as int)), key@) == Some(v@),
            None => first_param(split_semi(s@.skip(start as int)), key@) is None,
        },
    decreases s@.len() - start,
{
    let ghost tail = s@.skip(start as int);
    let slen: usize = s.len();
    let semi = semi_vec();
    match find_sub(s, &semi, start) {
        Some(i) => {
            proof {
                lemma_find_from_shift(s@, semi@, start as int);
                lemma_find_from_props(s@, semi@, start as int);
                assert(find_from(tail, seq![59u8], 0) == Some(i - start));
                assert(tail.take(i - start) =~= s@.subrange(start as int, i as int));
                assert(tail.skip(i - start + 1) =~= s@.skip(i + 1));
                assert(split_semi(tail) == seq![s@.subrange(start as int, i as int)] + split_semi(
                    s@.skip(i + 1),
                ));
            }
            let first = seg_param_pos(s, start, i, key);
            match first {
                Some(v) => {
                    proof {
                        let segs = split_semi(tail);
                        assert(segs[0] == s@.subrange(start as int, i as int));
                        assert(segs.len() > 0);
                        assert(seg_param(segs[0], key@) == Some(v@));
                        assert(first_param(segs, key@) == Some(v@));
                    }
                    Some(v)
                },
                None => {
                    let rest = find_param(s, i + 1, key);
                    proof {
                        let segs = split_semi(tail);
                        assert(segs[0] == s@.subrange(start as int, i as int));
                        assert(seg_param(segs[0], key@) is None);
                        assert(segs.drop_first() =~= split_semi(s@.skip(i + 1)));
                        assert(first_param(segs, key@) == first_param(split_semi(s@.skip(i + 1)), key@));
                    }
                    rest
                },
            }
        },
        None => {
            proof {
                lemma_find_from_shift(s@, semi@, start as int);
                assert(find_from(tail, seq![59u8], 0) is None);
                assert(split_semi(tail) == seq![tail]);
                assert(tail =~= s@.subrange(start as int, s@.len() as int));
            }
            let r = seg_param_pos(s, start, s.len(), key);
            proof {
                let segs = split_semi(tail);
                assert(segs[0] == tail);
                assert(segs.len() == 1);
                assert(segs.drop_first() =~= Seq::<Seq<u8>>::empty());
                assert(first_param(segs.drop_first(), key@) is None);
                assert(first_param(segs, key@) == seg_param(tail, key@));
            }
            r
        },
    }
}

fn semi_vec() -> (v: Vec<u8>)
    ensures
        v@ == seq![59u8],
{
    let mut v: Vec<u8> = Vec::new();
    v.push(59);
    proof {
        assert(v@ =~= seq![59u8]);
    }
    v
}

/// The `name` and optional `filename` of a disposition line, as vectors.
fn cd_line_params_exec(line: &[u8]) -> (r: Option<(Vec<u8>, Option<Vec<u8>>)>)
    requires
        line@.len() >= 20,
    ensures
        match r {
            Some(p) => cd_line_params(line@) == Some(
                (
                    p.0@,
                    match p.1 {
                        Some(f) => Some(f@),
                        None => None::<Seq<u8>>,
                    },
                ),
            ),
            None => cd_line_params(line@) is None,
        },
{
    let nk = name_key_vec();
    match find_param(line, 20, &nk) {
        None => None,
        Some(nm) => {
            let fk = filename_key_vec();
            let fnm = find_param(line, 20, &fk);
            Some((nm, fnm))
        },
    }
}

/// What the header block `h`, from `start` to its end, supplies through its
/// first disposition line.
pub fn find_disposition(h: &[u8], start: usize) -> (r: Option<(Vec<u8>, Option<Vec<u8>>)>)
    requires
        start <= h@.len(),
    ensures
        match r {
            Some(p) => first_cd_params(split_lines(h@.skip(start as int))) == Some(
                (
                    p.0@,
                    match p.1 {
                        Some(f) => Some(f@),
                        None => None::<Seq<u8>>,
                    },
                ),
            ),
            None => first_cd_params(split_lines(h@.skip(start as int))) is None,
        },
    decreases h@.len() - start,
{
    let ghost tail = h@.skip(start as int);
    let hlen: usize = h.len();
    if start == h.len() {
        proof {
            assert(tail =~= Seq::<u8>::empty());
        }
        return None;
    }
    let crlf = crlf_vec();
    match find_sub(h, &crlf, start) {
        Some(i) => {
            proof {
                lemma_find_from_shift(h@, crlf@, start as int);
                lemma_find_from_props(h@, crlf@, start as int);
                assert(find_from(tail, seq![13u8, 10u8], 0) == Some(i - start));
                assert(tail.take(i - start) =~= h@.subrange(start as int, i as int));
                assert(tail.skip(i - start + 2) =~= h@.skip(i + 2));
                assert(split_lines(tail) == seq![h@.subrange(start as int, i as int)]
                    + split_lines(h@.skip(i + 2)));
            }
            let line = copy_range(h, start, i);
            if is_cd_line_exec(&line) {
                let r = cd_line_params_exec(&line);
                proof {
                    let lines = split_lines(tail);
                    assert(lines[0] == line@);
                    assert(lines.len() > 0);
                    assert(is_cd_line(lines[0]));
                    assert(first_cd_params(lines) == cd_line_params(line@));
                }
                r
            } else {
                let r = find_disposition(h, i + 2);
                proof {
                    let lines = split_lines(tail);
                    assert(lines[0] == line@);
                    assert(!is_cd_line(lines[0]));
                    assert(lines.drop_first() =~= split_lines(h@.skip(i + 2)));
                    assert(first_cd_params(lines) == first_cd_params(split_lines(h@.skip(i + 2))));
                }
                r
            }
        },
        None => {
            proof {
                lemma_find_from_shift(h@, crlf@, start as int);
                assert(find_from(tail, seq![13u8, 10u8], 0) is None);
                assert(split_lines(tail) == seq![tail]);
            }
            let line = copy_range(h, start, h.len());
            proof {
                assert(line@ =~= tail);
            }
            if is_cd_line_exec(&line) {
                let r = cd_line_params_exec(&line);
                proof {
                    let lines = split_lines(tail);
                    assert(lines[0] == line@);
                    assert(lines.len() == 1);
                    assert(is_cd_line(lines[0]));
                    assert(first_cd_params(lines) == cd_line_params(line@));
                }
                r
            } else {
                proof {
                    let lines = split_lines(tail);
                    assert(lines[0] == line@);
                    assert(lines.len() == 1);
                    assert(!is_cd_line(lines[0]));
                    assert(lines.drop_first() =~= Seq::<Seq<u8>>::empty());
                    assert(first_cd_params(lines.drop_first()) is None);
                    assert(first_cd_params(lines) is None);
                }
                None
            }
        },
    }
}

} // verus!
