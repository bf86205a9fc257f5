//! Multipart/form-data decoding over a complete in-memory byte buffer.
//!
//! The body must open with `--boundary`.  After each boundary either `--`
//! closes the stream, or CRLF opens a part: its header block runs to the
//! first empty line, its data runs to the next `CRLF--boundary`.  A part
//! whose headers supply no field name is skipped.  Any other shape is a
//! decoding error for the whole body.

use vstd::prelude::*;

use crate::bytes_util::{copy_range, eq_at, find_from, find_sub, lemma_find_from_props};
use crate::headers::{find_disposition, first_cd_params, split_lines};

verus! {

/// A decoded field: its form name, the declared filename where the part
/// carried one, and its raw data bytes.
pub ghost struct SpecField {
    pub name: Seq<u8>,
    pub filename: Option<Seq<u8>>,
    pub data: Seq<u8>,
}

/// A decoded field of a multipart body.
pub struct Field {
    pub name: Vec<u8>,
    pub filename: Option<Vec<u8>>,
    pub data: Vec<u8>,
}

impl View for Field {
    type V = SpecField;

    open spec fn view(&self) -> SpecField {
        SpecField {
            name: self.name@,
            filename: match self.filename {
                Some(f) => Some(f@),
                None => None,
            },
            data: self.data@,
        }
    }
}

/// The whole body failed to decode as multipart/form-data.
#[derive(Clone, Copy, Debug, PartialEq, Eq)]
pub struct DecodeError;

pub open spec fn view_fields(fs: Seq<Field>) -> Seq<SpecField> {
    fs.map_values(|f: Field| f@)
}

/// `--boundary`, the token that opens the body.
pub open spec fn dash_boundary(b: Seq<u8>) -> Seq<u8> {
    seq![45u8, 45u8] + b
}

/// `CRLF--boundary`, the token that closes a part's data.
pub open spec fn delimiter(b: Seq<u8>) -> Seq<u8> {
    seq![13u8, 10u8, 45u8, 45u8] + b
}

/// The field a part contributes: none when its headers name no field.
pub open spec fn part_field(headers: Seq<u8>, data: Seq<u8>) -> Option<SpecField> {
    match first_cd_params(split_lines(headers)) {
        Some(p) => Some(SpecField { name: p.0, filename: p.1, data }),
        None => None,
    }
}

/// The fields of the body from `pos`, where `pos` stands right after an
/// occurrence of `--boundary`.  `None` is a framing error.
pub open spec fn spec_parts(body: Seq<u8>, b: Seq<u8>, pos: int) -> Option<Seq<SpecField>>
    decreases body.len() - pos,
{
    if pos < 0 || pos + 2 > body.len() {
        None
    } else if body.subrange(pos, pos + 2) == seq![45u8, 45u8] {
        Some(seq![])
    } else if body.subrange(pos, pos + 2) == seq![13u8, 10u8] {
        match find_from(body, seq![13u8, 10u8, 13u8, 10u8], pos) {
            None => None,
            Some(h) => if pos <= h && h + 4 <= body.len() {
                let headers = body.subrange(pos + 2, h + 2);
                match find_from(body, delimiter(b), h + 4) {
                    None => None,
                    Some(j) => {
                        let next = j + 4 + b.len();
                        if h + 4 <= j && next <= body.len() {
                            let data = body.subrange(h + 4, j);
                            match spec_parts(body, b, next) {
                                None => None,
                                Some(rest) => match part_field(headers, data) {
                                    Some(f) => Some(seq![f] + rest),
                                    None => Some(rest),
                                },
                            }
                        } else {
                            None
                        }
                    },
                }
            } else {
                None
            },
        }
    } else {
        None
    }
}

/// The fields of a complete multipart body, or `None` when the framing is
/// malformed or truncated.
pub open spec fn spec_decode(body: Seq<u8>, boundary: Seq<u8>) -> Option<Seq<SpecField>> {
    let db = dash_boundary(boundary);
    if db.len() <= body.len() && body.subrange(0, db.len() as int) == db {
        spec_parts(body, boundary, db.len() as int)
    } else {
        None
    }
}

fn dcrlf_vec() -> (v: Vec<u8>)
    ensures
        v@ == seq![13u8, 10u8, 13u8, 10u8],
{
    let mut v: Vec<u8> = Vec::new();
    v.push(13);
    v.push(10);
    v.push(13);
    v.push(10);
    proof {
        assert(v@ =~= seq![13u8, 10u8, 13u8, 10u8]);
    }
    v
}

/// True when the two bytes `a`, `b` stand in `s` at `i`.
fn two_at(s: &[u8], i: usize, a: u8, b: u8) -> (r: bool)
    requires
        i + 2 <= s@.len(),
    ensures
        r == (s@.subrange(i as int, i + 2) == seq![a, b]),
{
    let r = s[i] == a && s[i + 1] == b;
    proof {
        if r {
            assert(s@.subrange(i as int, i + 2) =~= seq![a, b]);
        } else {
            assert(s@.subrange(i as int, i + 2)[0] == s@[i as int]);
            assert(s@.subrange(i as int, i + 2)[1] == s@[i + 1]);
        }
    }
    r
}

fn parse_parts(body: &[u8], delim: &[u8], pos: usize, Ghost(bnd): Ghost<Seq<u8>>) -> (r: Result<
    Vec<Field>,
    DecodeError,
>)
    requires
        pos <= body@.len(),
        delim@ == delimiter(bnd),
    ensures
        match r {
            Ok(fs) => spec_parts(body@, bnd, pos as int) == Some(view_fields(fs@)),
            Err(e) => spec_parts(body@, bnd, pos as int) is None,
        },
    decreases body@.len() - pos,
{
    let blen: usize = body.len();
    if blen < 2 || pos > blen - 2 {
        return Err(DecodeError);
    }
    if two_at(body, pos, 45, 45) {
        proof {
            assert(view_fields(Seq::<Field>::empty()) =~= Seq::<SpecField>::empty());
        }
        return Ok(Vec::new());
    }
    if !two_at(body, pos, 13, 10) {
        return Err(DecodeError);
    }
    let dcrlf = dcrlf_vec();
    let h = match find_sub(body, &dcrlf, pos) {
        None => {
            return Err(DecodeError);
        },
        Some(h) => h,
    };
    proof {
        lemma_find_from_props(body@, dcrlf@, pos as int);
    }
    let headers = copy_range(body, pos + 2, h + 2);
    let j = match find_sub(body, delim, h + 4) {
        None => {
            return Err(DecodeError);
        },
        Some(j) => j,
    };
    proof {
        lemma_find_from_props(body@, delim@, h + 4);
        assert(delim@.len() == 4 + bnd.len());
    }
    let data = copy_range(body, h + 4, j);
    let next = j + delim.len();
    let rest = parse_parts(body, delim, next, Ghost(bnd));
    let mut fs = match rest {
        Ok(fs) => fs,
        Err(e) => {
            return Err(e);
        },
    };
    proof {
        assert(headers@.skip(0) =~= headers@);
    }
    let disp = find_disposition(&headers, 0);
    match disp {
        Some((name, filename)) => {
            let f = Field { name, filename, data };
            let ghost old_fs = fs@;
            fs.insert(0, f);
            proof {
                let sf = part_field(body@.subrange(pos + 2, h + 2), body@.subrange(h + 4, j as int));
                assert(sf == Some(f@));
                assert(view_fields(fs@) =~= seq![f@] + view_fields(old_fs)) by {
                    assert(fs@.len() == old_fs.len() + 1);
                    assert(fs@[0] == f);
                    assert forall|k: int| 0 <= k < old_fs.len() implies fs@[k + 1] == old_fs[k] by {}
                }
            }
            Ok(fs)
        },
        None => {
            proof {
                let sf = part_field(body@.subrange(pos + 2, h + 2), body@.subrange(h + 4, j as int));
                assert(sf is None);
            }
            Ok(fs)
        },
    }
}

/// Decode a complete multipart body against the given boundary token.
///
/// On success the decoded fields stand in arrival order; on failure the
/// body does not frame as multipart with this boundary.
pub fn decode_multipart(body: &[u8], boundary: &[u8]) -> (r: Result<Vec<Field>, DecodeError>)
    ensures
        match r {
            Ok(fs) => spec_decode(body@, boundary@) == Some(view_fields(fs@)),
            Err(e) => spec_decode(body@, boundary@) is None,
        },
{
    let blen: usize = body.len();
    if boundary.len() > blen || blen - boundary.len() < 2 {
        proof {
            assert(dash_boundary(boundary@).len() > body@.len());
        }
        return Err(DecodeError);
    }
    let mut db: Vec<u8> = Vec::new();
    db.push(45);
    db.push(45);
    let mut k: usize = 0;
    while k < boundary.len()
        invariant
            0 <= k <= boundary@.len(),
            db@ =~= seq![45u8, 45u8] + boundary@.take(k as int),
        decreases boundary@.len() - k,
    {
        db.push(boundary[k]);
        proof {
            assert(db@ =~= seq![45u8, 45u8] + boundary@.take(k + 1));
        }
        k = k + 1;
    }
    proof {
        assert(boundary@.take(boundary@.len() as int) =~= boundary@);
        assert(db@ == dash_boundary(boundary@));
    }
    let mut delim: Vec<u8> = Vec::new();
    delim.push(13);
    delim.push(10);
    delim.push(45);
    delim.push(45);
    let mut k2: usize = 0;
    while k2 < boundary.len()
        invariant
            0 <= k2 <= boundary@.len(),
            delim@ =~= seq![13u8, 10u8, 45u8, 45u8] + boundary@.take(k2 as int),
        decreases boundary@.len() - k2,
    {
        delim.push(boundary[k2]);
        proof {
            assert(delim@ =~= seq![13u8, 10u8, 45u8, 45u8] + boundary@.take(k2 + 1));
        }
        k2 = k2 + 1;
    }
    proof {
        assert(boundary@.take(boundary@.len() as int) =~= boundary@);
        assert(delim@ == delimiter(boundary@));
    }
    if !eq_at(body, 0, &db) {
        proof {
            if dash_boundary(boundary@).len() <= body@.len() && body@.subrange(
                0,
                dash_boundary(boundary@).len() as int,
            ) == dash_boundary(boundary@) {
                assert(false);
            }
        }
        return Err(DecodeError);
    }
    parse_parts(body, &delim, db.len(), Ghost(boundary@))
}

} // verus!
