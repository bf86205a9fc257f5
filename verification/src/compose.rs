//! Assembly of a transport-ready MIME message from a validated request.
//!
//! The envelope carries `From`, `To`, `Subject` and, where given, `Cc`,
//! `Bcc` and `Reply-To`, each parsed from its address string.  Without an
//! attachment the body is a single plain-text part; with one, a mixed
//! multipart envelope holds the text part first and then the attachment
//! as a generic octet-stream part.  Message building is done by lettre
//! behind trusted items; the composed message's parts and optional
//! headers are named (`message_parts`, `message_envelope`) so that the
//! contracts pin the body shape, and the first address that fails to
//! parse decides the error.

use vstd::prelude::*;

use lettre::message::header::ContentType;
use lettre::message::{Attachment, Mailbox, MultiPart, SinglePart};
use lettre::Message;

use crate::mail::{opt_att_view, AttachmentData, MailRequest, SpecAttachment, SpecMail};

verus! {

#[verifier::external_type_specification]
#[verifier::external_body]
pub struct ExMailbox(Mailbox);

#[verifier::external_type_specification]
#[verifier::external_body]
pub struct ExMessage(Message);

#[verifier::external_type_specification]
#[verifier::external_body]
pub struct ExContentType(ContentType);

/// Whether lettre's mailbox parser accepts the address string; the outcome
/// depends on the string alone.
pub uninterp spec fn mailbox_ok(s: Seq<char>) -> bool;

/// One part of a composed message's body, as the contracts see it: the
/// plain text, or an attachment with its declared filename and raw bytes.
pub ghost enum PartModel {
    Text { content: Seq<char> },
    Binary { filename: Seq<char>, bytes: Seq<u8> },
}

/// Which optional envelope headers a composed message carries.  `has_cc`
/// and `has_reply_to` say that a `Cc` / `Reply-To` header stands in the
/// message; `has_bcc` says that a blind-carbon-copy mailbox was taken into
/// the transport envelope's recipients (lettre removes the `Bcc` header
/// line itself once the envelope is set).
pub ghost struct EnvelopeModel {
    pub has_cc: bool,
    pub has_bcc: bool,
    pub has_reply_to: bool,
}

/// The parts a composed message's body holds, in order.
pub uninterp spec fn message_parts(m: Message) -> Seq<PartModel>;

/// The optional envelope headers a composed message carries.
pub uninterp spec fn message_envelope(m: Message) -> EnvelopeModel;

/// Which address header failed to parse.
#[derive(Clone, Copy, Debug, PartialEq, Eq, Structural)]
pub enum AddrField {
    From,
    To,
    Cc,
    Bcc,
    ReplyTo,
}

/// Why composition failed: an address that does not parse, with the header
/// it was meant for and the parser's reason, or a failure inside message
/// assembly.
#[derive(Clone, Debug)]
pub enum ComposeError {
    Address(AddrField, String),
    Assembly(String),
}

/// Relies on str::parse::<Mailbox> (lettre's RFC-5322 mailbox parser):
/// whether the parse succeeds is a function of the address string alone.
#[verifier::external_body]
fn parse_mailbox(s: &str) -> (r: Result<Mailbox, String>)
    ensures
        r is Ok <==> mailbox_ok(s@),
{
    s.parse::<Mailbox>().map_err(|e| format!("{e}"))
}

/// Relies on lettre's ContentType::parse, a pure wrapper over the mime
/// grammar; `application/octet-stream` is a well-formed media type, so
/// that input always parses.
#[verifier::external_body]
fn parse_content_type(s: &str) -> (r: Option<ContentType>)
    ensures
        s@ == "application/octet-stream"@ ==> r is Some,
{
    ContentType::parse(s).ok()
}

/// Relies on lettre's message builder: MessageBuilder::{from, to, cc, bcc,
/// reply_to, subject, singlepart, multipart}, SinglePart::builder with the
/// TEXT_PLAIN header and body, Attachment::{new, body}, MultiPart::mixed
/// and singlepart.  With exactly one From and one To mailbox set, build
/// cannot fail: it errors only on a missing or plural From, or an envelope
/// without recipients.  The body is the one plain-text part, followed by
/// exactly one binary part when an attachment is given, in that order; a
/// Cc / Reply-To header stands iff one was given, and a Bcc mailbox goes
/// into the envelope's recipients (its header line is then removed).
#[verifier::external_body]
fn assemble(
    from: Mailbox,
    to: Mailbox,
    cc: Option<Mailbox>,
    bcc: Option<Mailbox>,
    reply_to: Option<Mailbox>,
    subject: &str,
    text: String,
    attachment: Option<(String, Vec<u8>, ContentType)>,
) -> (r: Result<Message, String>)
    ensures
        r is Ok,
        r matches Ok(m) ==> message_parts(m) == (match attachment {
            None => seq![PartModel::Text { content: text@ }],
            Some(att) => seq![
                PartModel::Text { content: text@ },
                PartModel::Binary { filename: att.0@, bytes: att.1@ },
            ],
        }),
        r matches Ok(m) ==> message_envelope(m) == (EnvelopeModel {
            has_cc: cc is Some,
            has_bcc: bcc is Some,
            has_reply_to: reply_to is Some,
        }),
{
    let mut b = Message::builder().from(from).to(to).subject(subject);
    if let Some(m) = cc { b = b.cc(m); }
    if let Some(m) = bcc { b = b.bcc(m); }
    if let Some(m) = reply_to { b = b.reply_to(m); }
    let part = SinglePart::builder().header(ContentType::TEXT_PLAIN).body(text);
    let built = match attachment {
        None => b.singlepart(part),
        Some((f, d, ct)) => b.multipart(
            MultiPart::mixed().singlepart(part).singlepart(Attachment::new(f).body(d, ct)),
        ),
    };
    built.map_err(|e| format!("{e}"))
}

/// Whether an optional address is absent or accepted by the parser.
pub open spec fn opt_ok(o: Option<Seq<char>>) -> bool {
    match o {
        Some(s) => mailbox_ok(s),
        None => true,
    }
}

/// All envelope addresses of the request parse.
pub open spec fn addresses_ok(m: SpecMail) -> bool {
    mailbox_ok(m.from) && mailbox_ok(m.to) && opt_ok(m.cc) && opt_ok(m.bcc) && opt_ok(m.reply_to)
}

/// The parts a composed message is owed: the message text, then the
/// attachment when one is present.
pub open spec fn compose_parts(text: Seq<char>, att: Option<SpecAttachment>) -> Seq<PartModel> {
    match att {
        None => seq![PartModel::Text { content: text }],
        Some(a) => seq![
            PartModel::Text { content: text },
            PartModel::Binary { filename: a.filename, bytes: a.data },
        ],
    }
}

/// The optional headers a composed message is owed: one for each optional
/// address the request carries.
pub open spec fn compose_envelope(m: SpecMail) -> EnvelopeModel {
    EnvelopeModel { has_cc: m.cc is Some, has_bcc: m.bcc is Some, has_reply_to: m.reply_to is Some }
}

/// Compose the transport-ready message.  The first address that fails to
/// parse decides the error, in the order from, to, cc, bcc, reply-to; when
/// every address parses, composition succeeds, the body holds the message
/// text first and then the attachment where one is given, and the optional
/// headers stand exactly for the optional addresses given.
pub fn compose(mail: &MailRequest, attachment: &Option<AttachmentData>) -> (r: Result<
    Message,
    ComposeError,
>)
    ensures
        !mailbox_ok(mail@.from) ==> r matches Err(ComposeError::Address(AddrField::From, _)),
        mailbox_ok(mail@.from) && !mailbox_ok(mail@.to) ==> r matches Err(
            ComposeError::Address(AddrField::To, _),
        ),
        mailbox_ok(mail@.from) && mailbox_ok(mail@.to) && !opt_ok(mail@.cc) ==> r matches Err(
            ComposeError::Address(AddrField::Cc, _),
        ),
        mailbox_ok(mail@.from) && mailbox_ok(mail@.to) && opt_ok(mail@.cc) && !opt_ok(mail@.bcc)
            ==> r matches Err(ComposeError::Address(AddrField::Bcc, _)),
        mailbox_ok(mail@.from) && mailbox_ok(mail@.to) && opt_ok(mail@.cc) && opt_ok(mail@.bcc)
            && !opt_ok(mail@.reply_to) ==> r matches Err(
            ComposeError::Address(AddrField::ReplyTo, _),
        ),
        addresses_ok(mail@) ==> r is Ok,
        r matches Ok(m) ==> message_parts(m) == compose_parts(
            mail@.message,
            opt_att_view(*attachment),
        ),
        r matches Ok(m) ==> message_envelope(m) == compose_envelope(mail@),
{
    let from_mb = match parse_mailbox(mail.from.as_str()) {
        Ok(m) => m,
        Err(e) => {
            return Err(ComposeError::Address(AddrField::From, e));
        },
    };
    let to_mb = match parse_mailbox(mail.to.as_str()) {
        Ok(m) => m,
        Err(e) => {
            return Err(ComposeError::Address(AddrField::To, e));
        },
    };
    let cc_mb = match &mail.cc {
        Some(cc) => match parse_mailbox(cc.as_str()) {
            Ok(m) => Some(m),
            Err(e) => {
                return Err(ComposeError::Address(AddrField::Cc, e));
            },
        },
        None => None,
    };
    let bcc_mb = match &mail.bcc {
        Some(bcc) => match parse_mailbox(bcc.as_str()) {
            Ok(m) => Some(m),
            Err(e) => {
                return Err(ComposeError::Address(AddrField::Bcc, e));
            },
        },
        None => None,
    };
    let reply_to_mb = match &mail.reply_to {
        Some(rt) => match parse_mailbox(rt.as_str()) {
            Ok(m) => Some(m),
            Err(e) => {
                return Err(ComposeError::Address(AddrField::ReplyTo, e));
            },
        },
        None => None,
    };
    let att_arg: Option<(String, Vec<u8>, ContentType)> = match attachment {
        Some(att) => {
            let ct = match parse_content_type("application/octet-stream") {
                Some(c) => c,
                None => {
                    return Err(
                        ComposeError::Assembly("unsupported attachment content type".to_owned()),
                    );
                },
            };
            Some((att.filename.clone(), crate::mail::copy_bytes(&att.data), ct))
        },
        None => None,
    };
    match assemble(
        from_mb,
        to_mb,
        cc_mb,
        bcc_mb,
        reply_to_mb,
        mail.subject.as_str(),
        mail.message.clone(),
        att_arg,
    ) {
        Ok(m) => {
            proof {
                assert(message_parts(m) =~= compose_parts(mail@.message, opt_att_view(*attachment)));
            }
            Ok(m)
        },
        Err(e) => Err(ComposeError::Assembly(e)),
    }
}

} // verus!
