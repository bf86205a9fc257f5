//! Request orchestration: content-type and boundary checks, decoding,
//! folding, validation, the attachment size check, and composition, each
//! failure mapped to one error of a uniform taxonomy.  Dispatch itself is
//! the caller's step: the pipeline hands back a transport-ready message,
//! and `dispatch_response` turns the dispatch outcome into the uniform
//! result record.

use vstd::prelude::*;

use lettre::Message;

use crate::bytes_util::{copy_range, eq_at, find_from, find_sub, lemma_find_from_props};
use crate::compose::{
    addresses_ok, compose, compose_envelope, compose_parts, mailbox_ok, message_envelope,
    message_parts, opt_ok, AddrField, ComposeError,
};
use crate::mail::{
    effective_limit, fold_fields, is_complete, is_complete_request, limit_of, opt_view, spec_fold,
    text_string, FoldState, init_fold,
};
use crate::multipart::{decode_multipart, spec_decode, view_fields, SpecField};

verus! {

/// The process-wide relay configuration, loaded once by the host and
/// passed into the pipeline by reference.
pub struct SmtpSettings {
    pub username: String,
    pub password: String,
    pub server: String,
    pub max_size_str: Option<String>,
}

/// The uniform result record: the sole externally observable outcome.
pub struct ApiResponse {
    pub ok: bool,
    pub message: String,
}

/// Every way a request can fail before or during dispatch.
#[derive(Clone, Debug)]
pub enum RequestError {
    /// The body was absent or empty.
    EmptyBody,
    /// The content type was not multipart/form-data; it is carried here.
    NotMultipart(String),
    /// The content type named no boundary token.
    MissingBoundary,
    /// The body did not decode as multipart against the boundary.  The
    /// message for this kind is a fixed text: the decoder rejects a body
    /// as a whole and yields no per-position reason.
    Decode,
    /// A required field was missing after folding.
    MissingField,
    /// The attachment was larger than the effective limit carried here.
    AttachmentTooLarge(u64),
    /// An address did not parse, with its header and the parser's reason.
    Address(AddrField, String),
    /// Message assembly failed.
    Assembly(String),
}

/// The bytes of `multipart/form-data`.
pub open spec fn multipart_prefix() -> Seq<u8> {
    seq![
        109u8, 117u8, 108u8, 116u8, 105u8, 112u8, 97u8, 114u8, 116u8, 47u8, 102u8, 111u8, 114u8,
        109u8, 45u8, 100u8, 97u8, 116u8, 97u8,
    ]
}

/// True when the content type opens with `multipart/form-data`.
pub open spec fn is_multipart_ct(ct: Seq<u8>) -> bool {
    ct.len() >= 19 && ct.take(19) == multipart_prefix()
}

/// The bytes of `boundary=`.
pub open spec fn boundary_key() -> Seq<u8> {
    seq![98u8, 111u8, 117u8, 110u8, 100u8, 97u8, 114u8, 121u8, 61u8]
}

pub open spec fn qtrim_start(s: Seq<u8>) -> Seq<u8>
    decreases s.len(),
{
    if s.len() > 0 && s[0] == 34u8 {
        qtrim_start(s.drop_first())
    } else {
        s
    }
}

pub open spec fn qtrim_end(s: Seq<u8>) -> Seq<u8>
    decreases s.len(),
{
    if s.len() > 0 && s.last() == 34u8 {
        qtrim_end(s.drop_last())
    } else {
        s
    }
}

/// A boundary token with its surrounding quote characters stripped.
pub open spec fn strip_quotes(s: Seq<u8>) -> Seq<u8> {
    qtrim_end(qtrim_start(s))
}

/// The boundary token of a content type: what follows the first
/// `boundary=`, quotes stripped; none when `boundary=` does not occur.
pub open spec fn spec_boundary(ct: Seq<u8>) -> Option<Seq<u8>> {
    match find_from(ct, boundary_key(), 0) {
        None => None,
        Some(i) => if 0 <= i && i + 9 <= ct.len() {
            Some(strip_quotes(ct.skip(i + 9)))
        } else {
            None
        },
    }
}

/// The decoded fields of a request, when the content type yields a
/// boundary and the body decodes against it.
pub open spec fn decoded(ct: Seq<u8>, body: Seq<u8>) -> Option<Seq<SpecField>> {
    match spec_boundary(ct) {
        None => None,
        Some(b) => spec_decode(body, b),
    }
}

/// True when the request passes every check before folding.
pub open spec fn good_request(ct: Seq<u8>, body: Seq<u8>) -> bool {
    body.len() > 0 && is_multipart_ct(ct) && decoded(ct, body) is Some
}

/// The folded state of a decodable request.
pub open spec fn fold_st(ct: Seq<u8>, body: Seq<u8>) -> FoldState {
    match decoded(ct, body) {
        Some(fs) => spec_fold(fs),
        None => init_fold(),
    }
}

/// True when the attachment, if any, fits the limit.
pub open spec fn size_ok(st: FoldState, lim: u64) -> bool {
    match st.attachment {
        Some(a) => a.data.len() <= lim,
        None => true,
    }
}

proof fn lemma_qtrim_start_at(s: Seq<u8>, lo: int)
    requires
        0 <= lo <= s.len(),
        forall|j: int| 0 <= j < lo ==> s[j] == 34u8,
        lo < s.len() ==> s[lo] != 34u8,
    ensures
        qtrim_start(s) == s.skip(lo),
    decreases lo,
{
    if lo == 0 {
        assert(s.skip(0) =~= s);
    } else {
        lemma_qtrim_start_at(s.drop_first(), lo - 1);
        assert(s.drop_first().skip(lo - 1) =~= s.skip(lo));
    }
}

proof fn lemma_qtrim_end_at(s: Seq<u8>, hi: int)
    requires
        0 <= hi <= s.len(),
        forall|j: int| hi <= j < s.len() ==> s[j] == 34u8,
        hi > 0 ==> s[hi - 1] != 34u8,
    ensures
        qtrim_end(s) == s.take(hi),
    decreases s.len(),
{
    if hi == s.len() {
        assert(s.take(hi) =~= s);
    } else {
        assert(s.last() == 34u8);
        lemma_qtrim_end_at(s.drop_last(), hi);
        assert(s.drop_last().take(hi) =~= s.take(hi));
    }
}

fn multipart_prefix_vec() -> (v: Vec<u8>)
    ensures
        v@ == multipart_prefix(),
{
    let mut v: Vec<u8> = Vec::new();
    v.push(109);
    v.push(117);
    v.push(108);
    v.push(116);
    v.push(105);
    v.push(112);
    v.push(97);
    v.push(114);
    v.push(116);
    v.push(47);
    v.push(102);
    v.push(111);
    v.push(114);
    v.push(109);
    v.push(45);
    v.push(100);
    v.push(97);
    v.push(116);
    v.push(97);
    proof {
        assert(v@ =~= multipart_prefix());
    }
    v
}

fn boundary_key_vec() -> (v: Vec<u8>)
    ensures
        v@ == boundary_key(),
{
    let mut v: Vec<u8> = Vec::new();
    v.push(98);
    v.push(111);
    v.push(117);
    v.push(110);
    v.push(100);
    v.push(97);
    v.push(114);
    v.push(121);
    v.push(61);
    proof {
        assert(v@ =~= boundary_key());
    }
    v
}

/// True when the content type opens with `multipart/form-data`.
pub fn is_multipart_content_type(ct: &[u8]) -> (r: bool)
    ensures
        r == is_multipart_ct(ct@),
{
    let pat = multipart_prefix_vec();
    let r = eq_at(ct, 0, pat.as_slice());
    proof {
        if r {
            assert(ct@.take(19) =~= ct@.subrange(0, 19));
        }
        if is_multipart_ct(ct@) {
            assert(ct@.take(19) =~= ct@.subrange(0, 19));
        }
    }
    r
}

/// The boundary token of a content type, quotes stripped.
pub fn extract_boundary(ct: &[u8]) -> (r: Option<Vec<u8>>)
    ensures
        match r {
            Some(b) => spec_boundary(ct@) == Some(b@),
            None => spec_boundary(ct@) is None,
        },
{
    let key = boundary_key_vec();
    let i = match find_sub(ct, key.as_slice(), 0) {
        None => {
            return None;
        },
        Some(i) => i,
    };
    proof {
        lemma_find_from_props(ct@, key@, 0);
    }
    let ghost rest = ct@.skip(i + 9);
    let clen: usize = ct.len();
    let mut lo: usize = i + 9;
    while lo < clen && ct[lo] == 34
        invariant
            i + 9 <= lo <= clen,
            clen == ct@.len(),
            forall|j: int| i + 9 <= j < lo ==> ct@[j] == 34u8,
        decreases clen - lo,
    {
        lo = lo + 1;
    }
    let mut hi: usize = clen;
    while hi > lo && ct[hi - 1] == 34
        invariant
            lo <= hi <= clen,
            clen == ct@.len(),
            forall|j: int| hi <= j < clen ==> ct@[j] == 34u8,
        decreases hi,
    {
        hi = hi - 1;
    }
    proof {
        assert forall|j: int| 0 <= j < lo - (i + 9) implies rest[j] == 34u8 by {
            assert(rest[j] == ct@[i + 9 + j]);
        }
        if lo - (i + 9) < rest.len() {
            assert(rest[lo - (i + 9)] == ct@[lo as int]);
        }
        lemma_qtrim_start_at(rest, lo - (i + 9));
        let mid = rest.skip(lo - (i + 9));
        assert forall|j: int| hi - lo <= j < mid.len() implies mid[j] == 34u8 by {
            assert(mid[j] == ct@[lo + j]);
        }
        if hi - lo > 0 {
            assert(mid[hi - lo - 1] == ct@[hi - 1]);
        }
        lemma_qtrim_end_at(mid, hi - lo);
        assert(mid.take(hi - lo) =~= ct@.subrange(lo as int, hi as int));
        assert(strip_quotes(rest) == ct@.subrange(lo as int, hi as int));
    }
    let b = copy_range(ct, lo, hi);
    Some(b)
}

/// Run the whole ingestion pipeline over a request's content type, body
/// and settings, yielding a transport-ready message or the error that
/// stopped it, in checking order: empty body, wrong content type, missing
/// boundary, undecodable body, missing required field, oversized
/// attachment, bad address, assembly failure.
pub fn handle_request(content_type: &[u8], body: &[u8], settings: &SmtpSettings) -> (r: Result<
    Message,
    RequestError,
>)
    ensures
        body@.len() == 0 ==> r matches Err(RequestError::EmptyBody),
        body@.len() > 0 && !is_multipart_ct(content_type@) ==> (r matches Err(
            RequestError::NotMultipart(s),
        ) && s@ == crate::mail::text_of(content_type@)),
        body@.len() > 0 && is_multipart_ct(content_type@) && spec_boundary(content_type@) is None
            ==> r matches Err(RequestError::MissingBoundary),
        body@.len() > 0 && is_multipart_ct(content_type@) && spec_boundary(content_type@) is Some
            && decoded(content_type@, body@) is None ==> r matches Err(RequestError::Decode),
        good_request(content_type@, body@) && !is_complete(fold_st(content_type@, body@).mail)
            ==> r matches Err(RequestError::MissingField),
        good_request(content_type@, body@) && is_complete(fold_st(content_type@, body@).mail)
            && !size_ok(
            fold_st(content_type@, body@),
            limit_of(opt_view(settings.max_size_str)),
        ) ==> (r matches Err(RequestError::AttachmentTooLarge(l)) && l == limit_of(
            opt_view(settings.max_size_str),
        )),
        good_request(content_type@, body@) && is_complete(fold_st(content_type@, body@).mail)
            && size_ok(fold_st(content_type@, body@), limit_of(opt_view(settings.max_size_str)))
            ==> {
            let m = fold_st(content_type@, body@).mail;
            &&& (!mailbox_ok(m.from) ==> r matches Err(
                RequestError::Address(AddrField::From, _),
            ))
            &&& (mailbox_ok(m.from) && !mailbox_ok(m.to) ==> r matches Err(
                RequestError::Address(AddrField::To, _),
            ))
            &&& (mailbox_ok(m.from) && mailbox_ok(m.to) && !opt_ok(m.cc) ==> r matches Err(
                RequestError::Address(AddrField::Cc, _),
            ))
            &&& (mailbox_ok(m.from) && mailbox_ok(m.to) && opt_ok(m.cc) && !opt_ok(m.bcc)
                ==> r matches Err(RequestError::Address(AddrField::Bcc, _)))
            &&& (mailbox_ok(m.from) && mailbox_ok(m.to) && opt_ok(m.cc) && opt_ok(m.bcc)
                && !opt_ok(m.reply_to) ==> r matches Err(
                RequestError::Address(AddrField::ReplyTo, _),
            ))
            &&& (addresses_ok(m) ==> r is Ok)
            &&& (r matches Ok(msg) ==> message_parts(msg) == compose_parts(
                m.message,
                fold_st(content_type@, body@).attachment,
            ))
            &&& (r matches Ok(msg) ==> message_envelope(msg) == compose_envelope(m))
        },
{
    if body.len() == 0 {
        return Err(RequestError::EmptyBody);
    }
    if !is_multipart_content_type(content_type) {
        let shown = text_string(copy_range(content_type, 0, content_type.len()));
        proof {
            assert(content_type@.subrange(0, content_type@.len() as int) =~= content_type@);
        }
        return Err(RequestError::NotMultipart(shown));
    }
    let boundary = match extract_boundary(content_type) {
        None => {
            return Err(RequestError::MissingBoundary);
        },
        Some(b) => b,
    };
    let fields = match decode_multipart(body, boundary.as_slice()) {
        Err(_) => {
            return Err(RequestError::Decode);
        },
        Ok(fs) => fs,
    };
    proof {
        assert(decoded(content_type@, body@) == Some(view_fields(fields@)));
        assert(fold_st(content_type@, body@) == spec_fold(view_fields(fields@)));
    }
    let (mail, attachment) = fold_fields(&fields);
    if !is_complete_request(&mail) {
        return Err(RequestError::MissingField);
    }
    let limit = effective_limit(&settings.max_size_str);
    match &attachment {
        Some(att) => {
            if (att.data.len() as u64) > limit {
                return Err(RequestError::AttachmentTooLarge(limit));
            }
        },
        None => {},
    }
    match compose(&mail, &attachment) {
        Ok(m) => Ok(m),
        Err(ComposeError::Address(f, e)) => Err(RequestError::Address(f, e)),
        Err(ComposeError::Assembly(e)) => Err(RequestError::Assembly(e)),
    }
}

/// Relies on std's string formatting to join two strings.
#[verifier::external_body]
fn concat_strs(a: &str, b: &str) -> (r: String)
    ensures
        r@ == a@ + b@,
{
    format!("{a}{b}")
}

/// The character of a single decimal digit.
pub open spec fn digit_char(d: int) -> char {
    if d == 0 {
        '0'
    } else if d == 1 {
        '1'
    } else if d == 2 {
        '2'
    } else if d == 3 {
        '3'
    } else if d == 4 {
        '4'
    } else if d == 5 {
        '5'
    } else if d == 6 {
        '6'
    } else if d == 7 {
        '7'
    } else if d == 8 {
        '8'
    } else {
        '9'
    }
}

/// The decimal digit characters of a number, most significant first.
pub open spec fn dec_chars(n: int) -> Seq<char>
    decreases n,
{
    if n < 10 {
        seq![digit_char(n)]
    } else {
        dec_chars(n / 10) + seq![digit_char(n % 10)]
    }
}

fn digit_str(d: u64) -> (r: &'static str)
    requires
        d < 10,
    ensures
        r@ == seq![digit_char(d as int)],
{
    if d == 0 {
        proof {
            reveal_strlit("0");
        }
        "0"
    } else if d == 1 {
        proof {
            reveal_strlit("1");
        }
        "1"
    } else if d == 2 {
        proof {
            reveal_strlit("2");
        }
        "2"
    } else if d == 3 {
        proof {
            reveal_strlit("3");
        }
        "3"
    } else if d == 4 {
        proof {
            reveal_strlit("4");
        }
        "4"
    } else if d == 5 {
        proof {
            reveal_strlit("5");
        }
        "5"
    } else if d == 6 {
        proof {
            reveal_strlit("6");
        }
        "6"
    } else if d == 7 {
        proof {
            reveal_strlit("7");
        }
        "7"
    } else if d == 8 {
        proof {
            reveal_strlit("8");
        }
        "8"
    } else {
        proof {
            reveal_strlit("9");
        }
        "9"
    }
}

/// Render a number in decimal.
pub fn decimal_string(n: u64) -> (r: String)
    ensures
        r@ == dec_chars(n as int),
    decreases n,
{
    if n < 10 {
        digit_str(n).to_owned()
    } else {
        let head = decimal_string(n / 10);
        let tail = digit_str(n % 10);
        concat_strs(head.as_str(), tail)
    }
}

/// The message prefix naming the address header that failed.
pub open spec fn address_prefix(f: AddrField) -> Seq<char> {
    match f {
        AddrField::From => "Invalid from address: "@,
        AddrField::To => "Invalid to address: "@,
        AddrField::Cc => "Invalid cc address: "@,
        AddrField::Bcc => "Invalid bcc address: "@,
        AddrField::ReplyTo => "Invalid reply-to address: "@,
    }
}

/// The human-readable message for each error kind.
pub fn error_message(e: &RequestError) -> (r: String)
    ensures
        e matches RequestError::EmptyBody ==> r@ == "Empty body received"@,
        (e matches RequestError::NotMultipart(ct) ==> r@ == "Expected multipart/form-data, got: "@
            + ct@),
        e matches RequestError::MissingBoundary ==> r@ == "Missing boundary in content-type"@,
        e matches RequestError::Decode ==> r@ == "Failed to parse multipart data"@,
        e matches RequestError::MissingField ==> r@ == "Missing required field"@,
        (e matches RequestError::AttachmentTooLarge(l) ==> r@ == "Attachment exceeds "@ + dec_chars(
            *l as int,
        ) + " limit"@),
        (e matches RequestError::Address(f, m) ==> r@ == address_prefix(*f) + m@),
        (e matches RequestError::Assembly(m) ==> r@ == "Failed to build email: "@ + m@),
{
    match e {
        RequestError::EmptyBody => "Empty body received".to_owned(),
        RequestError::NotMultipart(ct) => concat_strs(
            "Expected multipart/form-data, got: ",
            ct.as_str(),
        ),
        RequestError::MissingBoundary => "Missing boundary in content-type".to_owned(),
        RequestError::Decode => "Failed to parse multipart data".to_owned(),
        RequestError::MissingField => "Missing required field".to_owned(),
        RequestError::AttachmentTooLarge(l) => {
            let digits = decimal_string(*l);
            let head = concat_strs("Attachment exceeds ", digits.as_str());
            concat_strs(head.as_str(), " limit")
        },
        RequestError::Address(f, m) => match f {
            AddrField::From => concat_strs("Invalid from address: ", m.as_str()),
            AddrField::To => concat_strs("Invalid to address: ", m.as_str()),
            AddrField::Cc => concat_strs("Invalid cc address: ", m.as_str()),
            AddrField::Bcc => concat_strs("Invalid bcc address: ", m.as_str()),
            AddrField::ReplyTo => concat_strs("Invalid reply-to address: ", m.as_str()),
        },
        RequestError::Assembly(m) => concat_strs("Failed to build email: ", m.as_str()),
    }
}

/// The uniform error record for a failed request.
pub fn error_response(e: &RequestError) -> (r: ApiResponse)
    ensures
        !r.ok,
        e matches RequestError::EmptyBody ==> r.message@ == "Empty body received"@,
        (e matches RequestError::NotMultipart(ct) ==> r.message@
            == "Expected multipart/form-data, got: "@ + ct@),
        e matches RequestError::MissingBoundary ==> r.message@
            == "Missing boundary in content-type"@,
        e matches RequestError::Decode ==> r.message@ == "Failed to parse multipart data"@,
        e matches RequestError::MissingField ==> r.message@ == "Missing required field"@,
        (e matches RequestError::AttachmentTooLarge(l) ==> r.message@ == "Attachment exceeds "@
            + dec_chars(*l as int) + " limit"@),
        (e matches RequestError::Address(f, m) ==> r.message@ == address_prefix(*f) + m@),
        (e matches RequestError::Assembly(m) ==> r.message@ == "Failed to build email: "@ + m@),
{
    let message = error_message(e);
    ApiResponse { ok: false, message }
}

/// The uniform result record for a dispatch outcome: success keeps the
/// fixed success text, failure carries the transport's reason verbatim.
pub fn dispatch_response(outcome: Result<String, String>) -> (r: ApiResponse)
    ensures
        r.ok == (outcome is Ok),
        outcome matches Err(e) ==> r.message@ == e@,
        outcome matches Ok(_) ==> r.message@ == "Email sent successfully"@,
{
    match outcome {
        Ok(_) => ApiResponse { ok: true, message: "Email sent successfully".to_owned() },
        Err(e) => ApiResponse { ok: false, message: e },
    }
}

} // verus!
