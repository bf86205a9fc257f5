//! Parsing of human-readable size strings such as `"25MB"` into byte counts.
//!
//! A size string is a run of decimal digits followed by a unit, one of
//! `B`, `KB`, `MB`, `GB`, `TB` (case-insensitively, binary multiples),
//! surrounded by optional blanks.  Anything else fails the whole parse.

use vstd::prelude::*;
use vstd::string::StringSliceAdditionalSpecFns;

verus! {

pub open spec fn is_ascii_digit(b: u8) -> bool {
    48 <= b && b <= 57
}

pub open spec fn is_ascii_blank(b: u8) -> bool {
    b == 32 || b == 9 || b == 10 || b == 11 || b == 12 || b == 13
}

/// Upper-case an ASCII letter; leave every other byte alone.
pub open spec fn to_upper(b: u8) -> u8 {
    if 97 <= b && b <= 122 {
        (b - 32) as u8
    } else {
        b
    }
}

pub open spec fn trim_start(s: Seq<u8>) -> Seq<u8>
    decreases s.len(),
{
    if s.len() > 0 && is_ascii_blank(s[0]) {
        trim_start(s.drop_first())
    } else {
        s
    }
}

pub open spec fn trim_end(s: Seq<u8>) -> Seq<u8>
    decreases s.len(),
{
    if s.len() > 0 && is_ascii_blank(s.last()) {
        trim_end(s.drop_last())
    } else {
        s
    }
}

/// The input after trimming blanks at both ends and upper-casing.
pub open spec fn normalized(s: Seq<u8>) -> Seq<u8> {
    trim_end(trim_start(s)).map_values(|b: u8| to_upper(b))
}

/// Length of the maximal run of decimal digits at the front.
pub open spec fn digit_prefix_len(s: Seq<u8>) -> int
    decreases s.len(),
{
    if s.len() > 0 && is_ascii_digit(s[0]) {
        1 + digit_prefix_len(s.drop_first())
    } else {
        0
    }
}

/// The number denoted by a run of decimal digits.
pub open spec fn dec_val(d: Seq<u8>) -> int
    decreases d.len(),
{
    if d.len() == 0 {
        0
    } else {
        dec_val(d.drop_last()) * 10 + (d.last() - 48)
    }
}

/// The byte multiplier of a (normalized) unit string.
pub open spec fn unit_multiplier(u: Seq<u8>) -> Option<u64> {
    if u == seq![66u8] {
        Some(1u64)
    } else if u == seq![75u8, 66u8] {
        Some(1024u64)
    } else if u == seq![77u8, 66u8] {
        Some(1048576u64)
    } else if u == seq![71u8, 66u8] {
        Some(1073741824u64)
    } else if u == seq![84u8, 66u8] {
        Some(1099511627776u64)
    } else {
        None
    }
}

/// What parsing a normalized size string yields: the digit run's value times
/// the unit's multiplier, or nothing when the digit run is empty, the value
/// does not fit, the unit is unknown, or the product does not fit.
pub open spec fn parse_core(u: Seq<u8>) -> Option<u64> {
    let n = digit_prefix_len(u);
    if n == 0 {
        None
    } else if dec_val(u.take(n)) > u64::MAX {
        None
    } else {
        match unit_multiplier(u.skip(n)) {
            None => None,
            Some(m) => if dec_val(u.take(n)) * m > u64::MAX {
                None
            } else {
                Some((dec_val(u.take(n)) * m) as u64)
            },
        }
    }
}

/// What `parse_size` yields on a byte string.
pub open spec fn spec_parse_size(s: Seq<u8>) -> Option<u64> {
    parse_core(normalized(s))
}

fn is_blank(b: u8) -> (r: bool)
    ensures
        r == is_ascii_blank(b),
{
    b == 32 || b == 9 || b == 10 || b == 11 || b == 12 || b == 13
}

fn is_digit(b: u8) -> (r: bool)
    ensures
        r == is_ascii_digit(b),
{
    48 <= b && b <= 57
}

fn upper_byte(b: u8) -> (r: u8)
    ensures
        r == to_upper(b),
{
    if 97 <= b && b <= 122 {
        b - 32
    } else {
        b
    }
}

proof fn lemma_trim_start_at(s: Seq<u8>, lo: int)
    requires
        0 <= lo <= s.len(),
        forall|j: int| 0 <= j < lo ==> is_ascii_blank(s[j]),
        lo < s.len() ==> !is_ascii_blank(s[lo]),
    ensures
        trim_start(s) == s.skip(lo),
    decreases lo,
{
    if lo == 0 {
        assert(s.skip(0) =~= s);
    } else {
        lemma_trim_start_at(s.drop_first(), lo - 1);
        assert(s.drop_first().skip(lo - 1) =~= s.skip(lo));
    }
}

proof fn lemma_trim_end_at(s: Seq<u8>, hi: int)
    requires
        0 <= hi <= s.len(),
        forall|j: int| hi <= j < s.len() ==> is_ascii_blank(s[j]),
        hi > 0 ==> !is_ascii_blank(s[hi - 1]),
    ensures
        trim_end(s) == s.take(hi),
    decreases s.len(),
{
    if hi == s.len() {
        assert(s.take(hi) =~= s);
    } else {
        assert(is_ascii_blank(s.last()));
        lemma_trim_end_at(s.drop_last(), hi);
        assert(s.drop_last().take(hi) =~= s.take(hi));
    }
}

proof fn lemma_digit_prefix_at(u: Seq<u8>, k: int)
    requires
        0 <= k <= u.len(),
        forall|j: int| 0 <= j < k ==> is_ascii_digit(u[j]),
        k < u.len() ==> !is_ascii_digit(u[k]),
    ensures
        digit_prefix_len(u) == k,
    decreases k,
{
    if k > 0 {
        lemma_digit_prefix_at(u.drop_first(), k - 1);
    }
}

proof fn lemma_dec_val_nonneg(d: Seq<u8>)
    requires
        forall|j: int| 0 <= j < d.len() ==> is_ascii_digit(d[j]),
    ensures
        dec_val(d) >= 0,
    decreases d.len(),
{
    if d.len() > 0 {
        lemma_dec_val_nonneg(d.drop_last());
    }
}

proof fn lemma_dec_val_prefix_le(d: Seq<u8>, i: int, j: int)
    requires
        0 <= i <= j <= d.len(),
        forall|k: int| 0 <= k < d.len() ==> is_ascii_digit(d[k]),
    ensures
        dec_val(d.take(i)) <= dec_val(d.take(j)),
    decreases j - i,
{
    if i < j {
        lemma_dec_val_prefix_le(d, i, j - 1);
        assert(d.take(j).drop_last() =~= d.take(j - 1));
        lemma_dec_val_nonneg(d.take(j - 1));
        assert(dec_val(d.take(j)) == dec_val(d.take(j - 1)) * 10 + (d[j - 1] - 48));
    }
}

proof fn lemma_trim_start_no_leading_blank(s: Seq<u8>)
    ensures
        trim_start(s).len() > 0 ==> !is_ascii_blank(trim_start(s)[0]),
    decreases s.len(),
{
    if s.len() > 0 && is_ascii_blank(s[0]) {
        lemma_trim_start_no_leading_blank(s.drop_first());
    }
}

proof fn lemma_trim_end_no_trailing_blank(s: Seq<u8>)
    ensures
        trim_end(s).len() > 0 ==> !is_ascii_blank(trim_end(s).last()),
    decreases s.len(),
{
    if s.len() > 0 && is_ascii_blank(s.last()) {
        lemma_trim_end_no_trailing_blank(s.drop_last());
    }
}

proof fn lemma_trim_end_is_prefix(s: Seq<u8>)
    ensures
        trim_end(s).len() <= s.len(),
        forall|i: int| 0 <= i < trim_end(s).len() ==> trim_end(s)[i] == s[i],
    decreases s.len(),
{
    if s.len() > 0 && is_ascii_blank(s.last()) {
        lemma_trim_end_is_prefix(s.drop_last());
        assert forall|i: int| 0 <= i < trim_end(s).len() implies trim_end(s)[i] == s[i] by {
            assert(trim_end(s)[i] == s.drop_last()[i]);
        }
    }
}

/// Blanks around a size string do not change its parse: the parse of the
/// trimmed string is the parse of the string itself.
pub proof fn lemma_parse_size_trim_invariant(s: Seq<u8>)
    ensures
        spec_parse_size(trim_end(trim_start(s))) == spec_parse_size(s),
{
    let t = trim_end(trim_start(s));
    lemma_trim_start_no_leading_blank(s);
    lemma_trim_end_is_prefix(trim_start(s));
    if t.len() > 0 {
        assert(t[0] == trim_start(s)[0]);
    }
    assert(trim_start(t) == t);
    lemma_trim_end_no_trailing_blank(trim_start(s));
    assert(trim_end(t) == t);
    assert(normalized(t) == normalized(s));
}

proof fn lemma_trim_start_map(s: Seq<u8>, f: spec_fn(u8) -> u8)
    requires
        forall|b: u8| is_ascii_blank(#[trigger] f(b)) == is_ascii_blank(b),
    ensures
        trim_start(s.map_values(f)) == trim_start(s).map_values(f),
    decreases s.len(),
{
    let m = s.map_values(f);
    if s.len() > 0 && is_ascii_blank(s[0]) {
        lemma_trim_start_map(s.drop_first(), f);
        assert(m.drop_first() =~= s.drop_first().map_values(f));
    } else {
    }
}

proof fn lemma_trim_end_map(s: Seq<u8>, f: spec_fn(u8) -> u8)
    requires
        forall|b: u8| is_ascii_blank(#[trigger] f(b)) == is_ascii_blank(b),
    ensures
        trim_end(s.map_values(f)) == trim_end(s).map_values(f),
    decreases s.len(),
{
    let m = s.map_values(f);
    if s.len() > 0 && is_ascii_blank(s.last()) {
        lemma_trim_end_map(s.drop_last(), f);
        assert(m.drop_last() =~= s.drop_last().map_values(f));
    } else {
    }
}

/// Mapping the bytes of a size string through any function that keeps
/// blanks blank and agrees with it after upper-casing does not change the
/// parse; letter case in particular does not.
pub proof fn lemma_parse_size_map_invariant(s: Seq<u8>, f: spec_fn(u8) -> u8)
    requires
        forall|b: u8| is_ascii_blank(#[trigger] f(b)) == is_ascii_blank(b),
        forall|b: u8| to_upper(#[trigger] f(b)) == to_upper(b),
    ensures
        spec_parse_size(s.map_values(f)) == spec_parse_size(s),
{
    lemma_trim_start_map(s, f);
    lemma_trim_end_map(trim_start(s), f);
    let t = trim_end(trim_start(s));
    assert(trim_end(trim_start(s.map_values(f))) == t.map_values(f));
    assert forall|i: int| 0 <= i < t.len() implies to_upper(#[trigger] t.map_values(f)[i])
        == to_upper(t[i]) by {
        assert(t.map_values(f)[i] == f(t[i]));
    }
    assert(t.map_values(f).map_values(|b: u8| to_upper(b)) =~= t.map_values(
        |b: u8| to_upper(b),
    ));
    assert(normalized(s.map_values(f)) == normalized(s));
}

/// Letter case does not change a size string's parse: upper-casing it or
/// lower-casing it byte-wise yields the same result.
pub proof fn lemma_parse_size_case_insensitive(s: Seq<u8>)
    ensures
        spec_parse_size(s.map_values(|b: u8| to_upper(b))) == spec_parse_size(s),
        spec_parse_size(s.map_values(|b: u8| crate::headers::to_lower(b))) == spec_parse_size(s),
{
    lemma_parse_size_map_invariant(s, |b: u8| to_upper(b));
    lemma_parse_size_map_invariant(s, |b: u8| crate::headers::to_lower(b));
}

/// A well-formed size string parses to its digits times its unit: for a
/// non-empty run of decimal digits followed by one of the recognized units
/// (case-insensitively), the parse yields the digit value times the unit's
/// multiplier, whenever that value and product fit a u64.
pub proof fn lemma_parse_size_valid(digits: Seq<u8>, unit: Seq<u8>, m: u64)
    requires
        digits.len() > 0,
        forall|i: int| 0 <= i < digits.len() ==> is_ascii_digit(digits[i]),
        unit_multiplier(unit.map_values(|b: u8| to_upper(b))) == Some(m),
        dec_val(digits) <= u64::MAX,
        dec_val(digits) * m <= u64::MAX,
    ensures
        spec_parse_size(digits + unit) == Some((dec_val(digits) * m) as u64),
{
    let s = digits + unit;
    let up = unit.map_values(|b: u8| to_upper(b));
    lemma_dec_val_nonneg(digits);
    if up == seq![66u8] {
        assert(up[0] == 66u8 && up[up.len() - 1] == 66u8);
    } else if up == seq![75u8, 66u8] {
        assert(up[0] == 75u8 && up[up.len() - 1] == 66u8);
    } else if up == seq![77u8, 66u8] {
        assert(up[0] == 77u8 && up[up.len() - 1] == 66u8);
    } else if up == seq![71u8, 66u8] {
        assert(up[0] == 71u8 && up[up.len() - 1] == 66u8);
    } else if up == seq![84u8, 66u8] {
        assert(up[0] == 84u8 && up[up.len() - 1] == 66u8);
    } else {
        assert(false);
    }
    assert(unit.len() == up.len());
    assert(unit.len() >= 1);
    assert(s[0] == digits[0]);
    assert(!is_ascii_blank(s[0]));
    assert(trim_start(s) == s);
    assert(up[up.len() - 1] == to_upper(unit[unit.len() - 1]));
    assert(unit[unit.len() - 1] == 66u8 || unit[unit.len() - 1] == 98u8);
    assert(s.last() == unit[unit.len() - 1]);
    assert(!is_ascii_blank(s.last()));
    assert(trim_end(s) == s);
    let norm = normalized(s);
    assert(norm == s.map_values(|b: u8| to_upper(b)));
    assert(norm =~= digits + up) by {
        assert forall|i: int| 0 <= i < s.len() implies norm[i] == (digits + up)[i] by {
            assert(norm[i] == to_upper(s[i]));
            if i < digits.len() {
                assert(s[i] == digits[i]);
                assert(to_upper(digits[i]) == digits[i]);
            } else {
                assert(s[i] == unit[i - digits.len()]);
                assert(up[i - digits.len()] == to_upper(unit[i - digits.len()]));
            }
        }
    }
    let n = digits.len() as int;
    assert(up[0] == 66u8 || up[0] == 75u8 || up[0] == 77u8 || up[0] == 71u8 || up[0] == 84u8);
    assert forall|j: int| 0 <= j < n implies is_ascii_digit(norm[j]) by {
        assert(norm[j] == digits[j]);
    }
    assert(norm[n] == up[0]);
    assert(!is_ascii_digit(norm[n]));
    lemma_digit_prefix_at(norm, n);
    assert(norm.take(n) =~= digits);
    assert(norm.skip(n) =~= up);
    assert(parse_core(norm) == Some((dec_val(digits) * m) as u64));
}

/// Parse a size string over its raw bytes.
pub fn parse_size_bytes(s: &[u8]) -> (r: Option<u64>)
    ensures
        r == spec_parse_size(s@),
{
    let len: usize = s.len();
    let mut lo: usize = 0;
    while lo < len && is_blank(s[lo])
        invariant
            0 <= lo <= len,
            len == s@.len(),
            forall|j: int| 0 <= j < lo ==> is_ascii_blank(s@[j]),
        decreases len - lo,
    {
        lo = lo + 1;
    }
    let mut hi: usize = len;
    while hi > lo && is_blank(s[hi - 1])
        invariant
            lo <= hi <= len,
            len == s@.len(),
            forall|j: int| hi <= j < len ==> is_ascii_blank(s@[j]),
        decreases hi,
    {
        hi = hi - 1;
    }
    proof {
        lemma_trim_start_at(s@, lo as int);
        lemma_trim_end_at(s@.skip(lo as int), hi - lo as int);
        assert(s@.skip(lo as int).take(hi - lo as int) =~= s@.subrange(lo as int, hi as int));
    }
    let ghost t = s@.subrange(lo as int, hi as int);
    let ghost norm = t.map_values(|b: u8| to_upper(b));
    proof {
        assert(normalized(s@) == norm);
    }

    let mut de: usize = lo;
    while de < hi && is_digit(s[de])
        invariant
            lo <= de <= hi <= len,
            len == s@.len(),
            forall|j: int| lo <= j < de ==> is_ascii_digit(s@[j]),
        decreases hi - de,
    {
        de = de + 1;
    }
    let ghost n = de - lo as int;
    proof {
        assert forall|j: int| 0 <= j < norm.len() implies norm[j] == to_upper(s@[lo + j]) by {
        }
        assert forall|j: int| 0 <= j < n implies is_ascii_digit(norm[j]) by {
            assert(norm[j] == to_upper(s@[lo + j]));
        }
        if n < norm.len() {
            assert(norm[n] == to_upper(s@[de as int]));
            assert(!is_ascii_digit(norm[n]));
        }
        lemma_digit_prefix_at(norm, n);
    }
    if de == lo {
        return None;
    }

    let mut acc: u64 = 0;
    let mut i: usize = lo;
    while i < de
        invariant
            lo <= i <= de <= hi <= len,
            len == s@.len(),
            n == de - lo,
            0 < n <= norm.len(),
            digit_prefix_len(norm) == n,
            norm == normalized(s@),
            norm.len() == hi - lo,
            forall|j: int| lo <= j < de ==> is_ascii_digit(s@[j]),
            forall|j: int| 0 <= j < norm.len() ==> norm[j] == to_upper(s@[lo + j]),
            acc as int == dec_val(norm.take(i - lo as int)),
        decreases de - i,
    {
        let d: u8 = s[i] - 48;
        proof {
            assert(norm.take(i + 1 - lo as int).drop_last() =~= norm.take(i - lo as int));
            assert(norm[i - lo as int] == to_upper(s@[i as int]));
            assert(to_upper(s@[i as int]) == s@[i as int]);
            assert(dec_val(norm.take(i + 1 - lo as int)) == acc as int * 10 + d);
        }
        let step = match acc.checked_mul(10) {
            Some(a) => a.checked_add(d as u64),
            None => None,
        };
        match step {
            Some(a) => {
                acc = a;
            },
            None => {
                proof {
                    assert(dec_val(norm.take(i + 1 - lo as int)) > u64::MAX);
                    assert forall|k: int| 0 <= k < norm.take(n).len() implies is_ascii_digit(
                        norm.take(n)[k],
                    ) by {
                        assert(norm.take(n)[k] == norm[k]);
                    }
                    lemma_dec_val_prefix_le(norm.take(n), i + 1 - lo as int, n);
                    assert(norm.take(n).take(i + 1 - lo as int) =~= norm.take(i + 1 - lo as int));
                    assert(norm.take(n).take(n) =~= norm.take(n));
                    assert(dec_val(norm.take(n)) > u64::MAX);
                }
                return None;
            },
        }
        i = i + 1;
    }
    proof {
        assert(norm.take(n) =~= norm.take(de - lo as int));
        assert(dec_val(norm.take(n)) == acc as int);
    }

    let ulen: usize = hi - de;
    let ghost unit = norm.skip(n);
    proof {
        assert(unit.len() == ulen as int);
        assert forall|j: int| 0 <= j < unit.len() implies unit[j] == to_upper(s@[de + j]) by {
            assert(unit[j] == norm[n + j]);
        }
    }
    let mult: u64;
    if ulen == 1 && upper_byte(s[de]) == 66 {
        mult = 1;
        proof {
            assert(unit =~= seq![66u8]);
        }
    } else if ulen == 2 && upper_byte(s[de]) == 75 && upper_byte(s[de + 1]) == 66 {
        mult = 1024;
        proof {
            assert(unit =~= seq![75u8, 66u8]);
        }
    } else if ulen == 2 && upper_byte(s[de]) == 77 && upper_byte(s[de + 1]) == 66 {
        mult = 1048576;
        proof {
            assert(unit =~= seq![77u8, 66u8]);
        }
    } else if ulen == 2 && upper_byte(s[de]) == 71 && upper_byte(s[de + 1]) == 66 {
        mult = 1073741824;
        proof {
            assert(unit =~= seq![71u8, 66u8]);
        }
    } else if ulen == 2 && upper_byte(s[de]) == 84 && upper_byte(s[de + 1]) == 66 {
        mult = 1099511627776;
        proof {
            assert(unit =~= seq![84u8, 66u8]);
        }
    } else {
        proof {
            assert(unit != seq![66u8] && unit != seq![75u8, 66u8] && unit != seq![77u8, 66u8]
                && unit != seq![71u8, 66u8] && unit != seq![84u8, 66u8]) by {
                if unit.len() == 1 {
                    assert(unit[0] == to_upper(s@[de as int]));
                } else if unit.len() == 2 {
                    assert(unit[0] == to_upper(s@[de as int]));
                    assert(unit[1] == to_upper(s@[de + 1]));
                }
            }
            assert(unit_multiplier(unit) is None);
        }
        return None;
    }
    proof {
        assert(unit_multiplier(unit) == Some(mult));
    }

    match acc.checked_mul(mult) {
        Some(v) => {
            proof {
                assert(parse_core(norm) == Some(v));
            }
            Some(v)
        },
        None => {
            proof {
                assert(dec_val(norm.take(n)) * mult > u64::MAX);
                assert(parse_core(norm) is None);
            }
            None
        },
    }
}

/// Parse a size string such as `"25MB"`; the contract is stated over the
/// string's UTF-8 bytes.
pub fn parse_size(size_str: &str) -> (r: Option<u64>)
    ensures
        r == spec_parse_size(size_str.spec_bytes()),
{
    parse_size_bytes(size_str.as_bytes())
}

} // verus!
