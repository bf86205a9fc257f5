//! The mail request model: folding decoded multipart fields into a
//! structured request, the completeness check, and the attachment limit.
//!
//! Folding recognizes the field names `from`, `to`, `subject`, `message`,
//! `cc`, `bcc`, `reply_to` and `attachment`; any other name is ignored.
//! A repeated name overwrites the earlier value.  An `attachment` part
//! counts only when it declares a filename.  Text values are decoded as
//! UTF-8; bytes that are not valid UTF-8 yield the empty string.

use vstd::prelude::*;
use vstd::utf8::{decode_utf8, valid_utf8};

use crate::bytes_util::copy_range;
use crate::multipart::{view_fields, Field, SpecField};
use crate::size::{parse_size, spec_parse_size};

verus! {

/// The attachment size limit when the configuration gives none.
pub const DEFAULT_MAX_ATTACHMENT: u64 = 26214400;

/// The text a byte sequence stands for: its UTF-8 decoding, or the empty
/// string when it is not valid UTF-8.
pub open spec fn text_of(b: Seq<u8>) -> Seq<char> {
    if valid_utf8(b) {
        decode_utf8(b)
    } else {
        Seq::empty()
    }
}

/// A validated mail request under construction.
pub ghost struct SpecMail {
    pub from: Seq<char>,
    pub to: Seq<char>,
    pub cc: Option<Seq<char>>,
    pub bcc: Option<Seq<char>>,
    pub reply_to: Option<Seq<char>>,
    pub sender_name: Option<Seq<char>>,
    pub sender_email: Option<Seq<char>>,
    pub subject: Seq<char>,
    pub message: Seq<char>,
}

pub ghost struct SpecAttachment {
    pub filename: Seq<char>,
    pub data: Seq<u8>,
}

/// The structured mail request built by folding decoded fields.
pub struct MailRequest {
    pub from: String,
    pub to: String,
    pub cc: Option<String>,
    pub bcc: Option<String>,
    pub reply_to: Option<String>,
    pub sender_name: Option<String>,
    pub sender_email: Option<String>,
    pub subject: String,
    pub message: String,
}

/// An attachment captured from a decoded field that declared a filename.
pub struct AttachmentData {
    pub filename: String,
    pub data: Vec<u8>,
}

pub open spec fn opt_view(o: Option<String>) -> Option<Seq<char>> {
    match o {
        Some(s) => Some(s@),
        None => None,
    }
}

impl View for MailRequest {
    type V = SpecMail;

    open spec fn view(&self) -> SpecMail {
        SpecMail {
            from: self.from@,
            to: self.to@,
            cc: opt_view(self.cc),
            bcc: opt_view(self.bcc),
            reply_to: opt_view(self.reply_to),
            sender_name: opt_view(self.sender_name),
            sender_email: opt_view(self.sender_email),
            subject: self.subject@,
            message: self.message@,
        }
    }
}

impl View for AttachmentData {
    type V = SpecAttachment;

    open spec fn view(&self) -> SpecAttachment {
        SpecAttachment { filename: self.filename@, data: self.data@ }
    }
}

/// The folding state: the request so far and the attachment so far.
pub ghost struct FoldState {
    pub mail: SpecMail,
    pub attachment: Option<SpecAttachment>,
}

pub open spec fn empty_mail() -> SpecMail {
    SpecMail {
        from: Seq::empty(),
        to: Seq::empty(),
        cc: None,
        bcc: None,
        reply_to: None,
        sender_name: None,
        sender_email: None,
        subject: Seq::empty(),
        message: Seq::empty(),
    }
}

pub open spec fn init_fold() -> FoldState {
    FoldState { mail: empty_mail(), attachment: None }
}

/// The bytes of `from`.
pub open spec fn name_from() -> Seq<u8> {
    seq![102u8, 114u8, 111u8, 109u8]
}

/// The bytes of `to`.
pub open spec fn name_to() -> Seq<u8> {
    seq![116u8, 111u8]
}

/// The bytes of `subject`.
pub open spec fn name_subject() -> Seq<u8> {
    seq![115u8, 117u8, 98u8, 106u8, 101u8, 99u8, 116u8]
}

/// The bytes of `message`.
pub open spec fn name_message() -> Seq<u8> {
    seq![109u8, 101u8, 115u8, 115u8, 97u8, 103u8, 101u8]
}

/// The bytes of `cc`.
pub open spec fn name_cc() -> Seq<u8> {
    seq![99u8, 99u8]
}

/// The bytes of `bcc`.
pub open spec fn name_bcc() -> Seq<u8> {
    seq![98u8, 99u8, 99u8]
}

/// The bytes of `reply_to`.
pub open spec fn name_reply_to() -> Seq<u8> {
    seq![114u8, 101u8, 112u8, 108u8, 121u8, 95u8, 116u8, 111u8]
}

/// The bytes of `attachment`.
pub open spec fn name_attachment() -> Seq<u8> {
    seq![97u8, 116u8, 116u8, 97u8, 99u8, 104u8, 109u8, 101u8, 110u8, 116u8]
}

/// One folding step: what a single decoded field does to the state.
pub open spec fn apply_field(st: FoldState, f: SpecField) -> FoldState {
    if f.name == name_from() {
        FoldState { mail: SpecMail { from: text_of(f.data), ..st.mail }, ..st }
    } else if f.name == name_to() {
        FoldState { mail: SpecMail { to: text_of(f.data), ..st.mail }, ..st }
    } else if f.name == name_subject() {
        FoldState { mail: SpecMail { subject: text_of(f.data), ..st.mail }, ..st }
    } else if f.name == name_message() {
        FoldState { mail: SpecMail { message: text_of(f.data), ..st.mail }, ..st }
    } else if f.name == name_cc() {
        FoldState { mail: SpecMail { cc: Some(text_of(f.data)), ..st.mail }, ..st }
    } else if f.name == name_bcc() {
        FoldState { mail: SpecMail { bcc: Some(text_of(f.data)), ..st.mail }, ..st }
    } else if f.name == name_reply_to() {
        FoldState { mail: SpecMail { reply_to: Some(text_of(f.data)), ..st.mail }, ..st }
    } else if f.name == name_attachment() {
        match f.filename {
            Some(fi) => FoldState {
                attachment: Some(SpecAttachment { filename: text_of(fi), data: f.data }),
                ..st
            },
            None => st,
        }
    } else {
        st
    }
}

/// The state after folding all fields in arrival order.
pub open spec fn spec_fold(fs: Seq<SpecField>) -> FoldState
    decreases fs.len(),
{
    if fs.len() == 0 {
        init_fold()
    } else {
        apply_field(spec_fold(fs.drop_last()), fs.last())
    }
}

/// A request is complete when the four required fields are non-empty.
pub open spec fn is_complete(m: SpecMail) -> bool {
    m.from.len() > 0 && m.to.len() > 0 && m.subject.len() > 0 && m.message.len() > 0
}

/// The effective attachment limit: the configured size string where it
/// parses, the default otherwise.
pub open spec fn limit_of(ms: Option<Seq<char>>) -> u64 {
    match ms {
        Some(t) => match spec_parse_size(vstd::utf8::encode_utf8(t)) {
            Some(n) => n,
            None => DEFAULT_MAX_ATTACHMENT,
        },
        None => DEFAULT_MAX_ATTACHMENT,
    }
}

/// Relies on String::from_utf8: it succeeds exactly on valid UTF-8 and
/// returns the string those bytes encode.
#[verifier::external_body]
fn utf8_to_string(v: Vec<u8>) -> (r: Option<String>)
    ensures
        r is Some <==> valid_utf8(v@),
        r matches Some(s) ==> s@ == decode_utf8(v@),
{
    match String::from_utf8(v) {
        Ok(s) => Some(s),
        Err(_) => None,
    }
}

/// The text a byte vector stands for, as an owned string.
pub fn text_string(v: Vec<u8>) -> (r: String)
    ensures
        r@ == text_of(v@),
{
    match utf8_to_string(v) {
        Some(s) => s,
        None => String::new(),
    }
}

pub(crate) fn copy_bytes(v: &Vec<u8>) -> (r: Vec<u8>)
    ensures
        r@ == v@,
{
    let r = copy_range(v.as_slice(), 0, v.len());
    proof {
        assert(v@.subrange(0, v@.len() as int) =~= v@);
    }
    r
}

fn bytes_are(v: &Vec<u8>, pat: &[u8]) -> (r: bool)
    ensures
        r == (v@ == pat@),
{
    if v.len() != pat.len() {
        proof {
            if v@ == pat@ {
                assert(false);
            }
        }
        return false;
    }
    let mut i: usize = 0;
    while i < pat.len()
        invariant
            0 <= i <= pat@.len(),
            v@.len() == pat@.len(),
            forall|k: int| 0 <= k < i ==> v@[k] == pat@[k],
        decreases pat@.len() - i,
    {
        if v[i] != pat[i] {
            proof {
                if v@ == pat@ {
                    assert(v@[i as int] == pat@[i as int]);
                }
            }
            return false;
        }
        i = i + 1;
    }
    proof {
        assert(v@ =~= pat@);
    }
    true
}

fn name_from_vec() -> (r: Vec<u8>)
    ensures
        r@ == name_from(),
{
    let mut v: Vec<u8> = Vec::new();
    v.push(102);
    v.push(114);
    v.push(111);
    v.push(109);
    proof {
        assert(v@ =~= name_from());
    }
    v
}

fn name_to_vec() -> (r: Vec<u8>)
    ensures
        r@ == name_to(),
{
    let mut v: Vec<u8> = Vec::new();
    v.push(116);
    v.push(111);
    proof {
        assert(v@ =~= name_to());
    }
    v
}

fn name_subject_vec() -> (r: Vec<u8>)
    ensures
        r@ == name_subject(),
{
    let mut v: Vec<u8> = Vec::new();
    v.push(115);
    v.push(117);
    v.push(98);
    v.push(106);
    v.push(101);
    v.push(99);
    v.push(116);
    proof {
        assert(v@ =~= name_subject());
    }
    v
}

fn name_message_vec() -> (r: Vec<u8>)
    ensures
        r@ == name_message(),
{
    let mut v: Vec<u8> = Vec::new();
    v.push(109);
    v.push(101);
    v.push(115);
    v.push(115);
    v.push(97);
    v.push(103);
    v.push(101);
    proof {
        assert(v@ =~= name_message());
    }
    v
}

fn name_cc_vec() -> (r: Vec<u8>)
    ensures
        r@ == name_cc(),
{
    let mut v: Vec<u8> = Vec::new();
    v.push(99);
    v.push(99);
    proof {
        assert(v@ =~= name_cc());
    }
    v
}

fn name_bcc_vec() -> (r: Vec<u8>)
    ensures
        r@ == name_bcc(),
{
    let mut v: Vec<u8> = Vec::new();
    v.push(98);
    v.push(99);
    v.push(99);
    proof {
        assert(v@ =~= name_bcc());
    }
    v
}

fn name_reply_to_vec() -> (r: Vec<u8>)
    ensures
        r@ == name_reply_to(),
{
    let mut v: Vec<u8> = Vec::new();
    v.push(114);
    v.push(101);
    v.push(112);
    v.push(108);
    v.push(121);
    v.push(95);
    v.push(116);
    v.push(111);
    proof {
        assert(v@ =~= name_reply_to());
    }
    v
}

fn name_attachment_vec() -> (r: Vec<u8>)
    ensures
        r@ == name_attachment(),
{
    let mut v: Vec<u8> = Vec::new();
    v.push(97);
    v.push(116);
    v.push(116);
    v.push(97);
    v.push(99);
    v.push(104);
    v.push(109);
    v.push(101);
    v.push(110);
    v.push(116);
    proof {
        assert(v@ =~= name_attachment());
    }
    v
}

pub open spec fn opt_att_view(o: Option<AttachmentData>) -> Option<SpecAttachment> {
    match o {
        Some(a) => Some(a@),
        None => None,
    }
}

/// Fold decoded fields into a mail request and an optional attachment, in
/// arrival order, the last occurrence of a name winning.
pub fn fold_fields(fields: &Vec<Field>) -> (r: (MailRequest, Option<AttachmentData>))
    ensures
        ({
            let st = spec_fold(view_fields(fields@));
            r.0@ == st.mail && opt_att_view(r.1) == st.attachment
        }),
{
    let k_from = name_from_vec();
    let k_to = name_to_vec();
    let k_subject = name_subject_vec();
    let k_message = name_message_vec();
    let k_cc = name_cc_vec();
    let k_bcc = name_bcc_vec();
    let k_reply_to = name_reply_to_vec();
    let k_attachment = name_attachment_vec();
    let mut mail = MailRequest {
        from: String::new(),
        to: String::new(),
        cc: None,
        bcc: None,
        reply_to: None,
        sender_name: None,
        sender_email: None,
        subject: String::new(),
        message: String::new(),
    };
    let mut attachment: Option<AttachmentData> = None;
    proof {
        assert(view_fields(fields@).take(0) =~= Seq::<SpecField>::empty());
    }
    let mut i: usize = 0;
    while i < fields.len()
        invariant
            0 <= i <= fields@.len(),
            k_from@ == name_from(),
            k_to@ == name_to(),
            k_subject@ == name_subject(),
            k_message@ == name_message(),
            k_cc@ == name_cc(),
            k_bcc@ == name_bcc(),
            k_reply_to@ == name_reply_to(),
            k_attachment@ == name_attachment(),
            ({
                let st = spec_fold(view_fields(fields@).take(i as int));
                mail@ == st.mail && opt_att_view(attachment) == st.attachment
            }),
        decreases fields@.len() - i,
    {
        let f = &fields[i];
        let ghost pre = spec_fold(view_fields(fields@).take(i as int));
        proof {
            let vs = view_fields(fields@);
            assert(vs[i as int] == fields@[i as int]@);
            assert(vs.take(i + 1).drop_last() =~= vs.take(i as int));
            assert(vs.take(i + 1).last() == vs[i as int]);
        }
        if bytes_are(&f.name, k_from.as_slice()) {
            mail.from = text_string(copy_bytes(&f.data));
        } else if bytes_are(&f.name, k_to.as_slice()) {
            mail.to = text_string(copy_bytes(&f.data));
        } else if bytes_are(&f.name, k_subject.as_slice()) {
            mail.subject = text_string(copy_bytes(&f.data));
        } else if bytes_are(&f.name, k_message.as_slice()) {
            mail.message = text_string(copy_bytes(&f.data));
        } else if bytes_are(&f.name, k_cc.as_slice()) {
            mail.cc = Some(text_string(copy_bytes(&f.data)));
        } else if bytes_are(&f.name, k_bcc.as_slice()) {
            mail.bcc = Some(text_string(copy_bytes(&f.data)));
        } else if bytes_are(&f.name, k_reply_to.as_slice()) {
            mail.reply_to = Some(text_string(copy_bytes(&f.data)));
        } else if bytes_are(&f.name, k_attachment.as_slice()) {
            match &f.filename {
                Some(fi) => {
                    let filename = text_string(copy_bytes(fi));
                    let data = copy_bytes(&f.data);
                    attachment = Some(AttachmentData { filename, data });
                },
                None => {},
            }
        }
        proof {
            let vs = view_fields(fields@);
            assert(spec_fold(vs.take(i + 1)) == apply_field(pre, fields@[i as int]@));
            assert(mail@ == spec_fold(vs.take(i + 1)).mail && opt_att_view(attachment)
                == spec_fold(vs.take(i + 1)).attachment);
        }
        i = i + 1;
    }
    proof {
        assert(view_fields(fields@).take(fields@.len() as int) =~= view_fields(fields@));
    }
    (mail, attachment)
}

/// True when the four required fields of the request are all non-empty.
pub fn is_complete_request(m: &MailRequest) -> (r: bool)
    ensures
        r == is_complete(m@),
{
    !m.from.as_str().is_empty() && !m.to.as_str().is_empty() && !m.subject.as_str().is_empty()
        && !m.message.as_str().is_empty()
}

/// The effective attachment limit for a configured size string.
pub fn effective_limit(max_size_str: &Option<String>) -> (r: u64)
    ensures
        r == limit_of(opt_view(*max_size_str)),
{
    match max_size_str {
        Some(s) => match parse_size(s.as_str()) {
            Some(n) => n,
            None => DEFAULT_MAX_ATTACHMENT,
        },
        None => DEFAULT_MAX_ATTACHMENT,
    }
}

/// The last field of a recognized text name decides the request's value:
/// when position `i` holds the last field named `from`, `to`, `subject` or
/// `message`, the folded request carries exactly that field's text.
pub proof fn lemma_last_named_value_wins(fs: Seq<SpecField>, i: int, name: Seq<u8>)
    requires
        name == name_from() || name == name_to() || name == name_subject() || name
            == name_message(),
        0 <= i < fs.len(),
        fs[i].name == name,
        forall|j: int| i < j < fs.len() ==> fs[j].name != name,
    ensures
        required_of(spec_fold(fs).mail, name) == text_of(fs[i].data),
    decreases fs.len(),
{
    if i == fs.len() - 1 {
        assert(fs.last() == fs[i]);
    } else {
        assert(forall|j: int| 0 <= j < fs.drop_last().len() ==> fs.drop_last()[j] == fs[j]);
        lemma_last_named_value_wins(fs.drop_last(), i, name);
        assert(fs.last() == fs[fs.len() - 1]);
        assert(fs.last().name != name);
        assert(spec_fold(fs) == apply_field(spec_fold(fs.drop_last()), fs.last()));
    }
}

/// The last attachment field with a filename decides the attachment: its
/// data is kept byte for byte and its filename is kept as text.
pub proof fn lemma_attachment_captured(fs: Seq<SpecField>, i: int, fi: Seq<u8>)
    requires
        0 <= i < fs.len(),
        fs[i].name == name_attachment(),
        fs[i].filename == Some(fi),
        forall|j: int| i < j < fs.len() ==> fs[j].name != name_attachment(),
    ensures
        spec_fold(fs).attachment == Some(
            SpecAttachment { filename: text_of(fi), data: fs[i].data },
        ),
    decreases fs.len(),
{
    if i == fs.len() - 1 {
        assert(fs.last() == fs[i]);
    } else {
        assert(forall|j: int| 0 <= j < fs.drop_last().len() ==> fs.drop_last()[j] == fs[j]);
        lemma_attachment_captured(fs.drop_last(), i, fi);
        assert(fs.last() == fs[fs.len() - 1]);
        assert(fs.last().name != name_attachment());
        assert(spec_fold(fs) == apply_field(spec_fold(fs.drop_last()), fs.last()));
    }
}

/// The required request field a name stands for.
pub open spec fn required_of(m: SpecMail, name: Seq<u8>) -> Seq<char> {
    if name == name_from() {
        m.from
    } else if name == name_to() {
        m.to
    } else if name == name_subject() {
        m.subject
    } else {
        m.message
    }
}

/// Omitting a required field leaves the folded request incomplete: when no
/// decoded field carries the name `from`, `to`, `subject` or `message`, the
/// folded request fails validation, whatever the other fields hold.
pub proof fn lemma_omitted_required_field(fs: Seq<SpecField>, name: Seq<u8>)
    requires
        name == name_from() || name == name_to() || name == name_subject() || name
            == name_message(),
        forall|i: int| 0 <= i < fs.len() ==> fs[i].name != name,
    ensures
        required_of(spec_fold(fs).mail, name).len() == 0,
        !is_complete(spec_fold(fs).mail),
    decreases fs.len(),
{
    if fs.len() == 0 {
    } else {
        assert(forall|i: int| 0 <= i < fs.drop_last().len() ==> fs.drop_last()[i] == fs[i]);
        lemma_omitted_required_field(fs.drop_last(), name);
        assert(fs.last() == fs[fs.len() - 1]);
        assert(fs.last().name != name);
        assert(spec_fold(fs) == apply_field(spec_fold(fs.drop_last()), fs.last()));
    }
}

} // verus!
