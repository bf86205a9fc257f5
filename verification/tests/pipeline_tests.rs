use mail_relay::mail::{effective_limit, fold_fields, MailRequest, DEFAULT_MAX_ATTACHMENT};
use mail_relay::multipart::decode_multipart;
use mail_relay::compose::{compose, AddrField};
use mail_relay::pipeline::{
    dispatch_response, error_message, extract_boundary, handle_request, ApiResponse, RequestError,
    SmtpSettings,
};

const BOUNDARY: &str = "XbOuNdArYx";

fn text_part(body: &mut Vec<u8>, name: &str, value: &str) {
    body.extend_from_slice(format!("--{BOUNDARY}\r\n").as_bytes());
    body.extend_from_slice(
        format!("Content-Disposition: form-data; name=\"{name}\"\r\n\r\n").as_bytes(),
    );
    body.extend_from_slice(value.as_bytes());
    body.extend_from_slice(b"\r\n");
}

fn file_part(body: &mut Vec<u8>, name: &str, filename: &str, data: &[u8]) {
    body.extend_from_slice(format!("--{BOUNDARY}\r\n").as_bytes());
    body.extend_from_slice(
        format!("Content-Disposition: form-data; name=\"{name}\"; filename=\"{filename}\"\r\n\r\n")
            .as_bytes(),
    );
    body.extend_from_slice(data);
    body.extend_from_slice(b"\r\n");
}

fn close_body(body: &mut Vec<u8>) {
    body.extend_from_slice(format!("--{BOUNDARY}--").as_bytes());
}

fn full_body(fields: &[(&str, &str)]) -> Vec<u8> {
    let mut body = Vec::new();
    for (name, value) in fields {
        text_part(&mut body, name, value);
    }
    close_body(&mut body);
    body
}

fn content_type() -> Vec<u8> {
    format!("multipart/form-data; boundary={BOUNDARY}").into_bytes()
}

fn settings(max_size_str: Option<&str>) -> SmtpSettings {
    SmtpSettings {
        username: String::new(),
        password: String::new(),
        server: String::new(),
        max_size_str: max_size_str.map(|s| s.to_string()),
    }
}

fn required_fields() -> Vec<(&'static str, &'static str)> {
    vec![
        ("from", "alice@example.com"),
        ("to", "bob@example.com"),
        ("subject", "greetings"),
        ("message", "hello"),
    ]
}

#[test]
fn decode_yields_fields_in_order() {
    let body = full_body(&[("from", "a@b.c"), ("to", "c@d.e")]);
    let fields = decode_multipart(&body, BOUNDARY.as_bytes()).unwrap();
    assert_eq!(fields.len(), 2);
    assert_eq!(fields[0].name, b"from".to_vec());
    assert_eq!(fields[0].data, b"a@b.c".to_vec());
    assert!(fields[0].filename.is_none());
    assert_eq!(fields[1].name, b"to".to_vec());
    assert_eq!(fields[1].data, b"c@d.e".to_vec());
}

#[test]
fn decode_attachment_keeps_every_byte() {
    let data: Vec<u8> = (0..=255u8).collect();
    let mut body = Vec::new();
    text_part(&mut body, "from", "a@b.c");
    file_part(&mut body, "attachment", "blob.bin", &data);
    close_body(&mut body);
    let fields = decode_multipart(&body, BOUNDARY.as_bytes()).unwrap();
    assert_eq!(fields.len(), 2);
    assert_eq!(fields[1].name, b"attachment".to_vec());
    assert_eq!(fields[1].filename, Some(b"blob.bin".to_vec()));
    assert_eq!(fields[1].data, data);
}

#[test]
fn decode_skips_nameless_part() {
    let mut body = Vec::new();
    body.extend_from_slice(format!("--{BOUNDARY}\r\n").as_bytes());
    body.extend_from_slice(b"Content-Disposition: form-data\r\n\r\nstray\r\n");
    text_part(&mut body, "to", "c@d.e");
    close_body(&mut body);
    let fields = decode_multipart(&body, BOUNDARY.as_bytes()).unwrap();
    assert_eq!(fields.len(), 1);
    assert_eq!(fields[0].name, b"to".to_vec());
}

#[test]
fn decode_rejects_missing_terminator() {
    let mut body = Vec::new();
    text_part(&mut body, "from", "a@b.c");
    assert!(decode_multipart(&body, BOUNDARY.as_bytes()).is_err());
}

#[test]
fn decode_rejects_wrong_boundary() {
    let body = full_body(&[("from", "a@b.c")]);
    assert!(decode_multipart(&body, b"other").is_err());
}

#[test]
fn fold_last_occurrence_wins() {
    let body = full_body(&[("from", "first@x.y"), ("from", "second@x.y")]);
    let fields = decode_multipart(&body, BOUNDARY.as_bytes()).unwrap();
    let (mail, att) = fold_fields(&fields);
    assert_eq!(mail.from, "second@x.y");
    assert!(att.is_none());
}

#[test]
fn fold_ignores_unknown_names_and_nameless_attachment() {
    let mut body = Vec::new();
    text_part(&mut body, "from", "a@b.c");
    text_part(&mut body, "color", "green");
    text_part(&mut body, "attachment", "not a file");
    close_body(&mut body);
    let fields = decode_multipart(&body, BOUNDARY.as_bytes()).unwrap();
    let (mail, att) = fold_fields(&fields);
    assert_eq!(mail.from, "a@b.c");
    assert!(att.is_none());
    assert!(mail.to.is_empty());
}

#[test]
fn fold_captures_optional_addresses() {
    let body = full_body(&[("cc", "cc@x.y"), ("bcc", "bcc@x.y"), ("reply_to", "rt@x.y")]);
    let fields = decode_multipart(&body, BOUNDARY.as_bytes()).unwrap();
    let (mail, _) = fold_fields(&fields);
    assert_eq!(mail.cc.as_deref(), Some("cc@x.y"));
    assert_eq!(mail.bcc.as_deref(), Some("bcc@x.y"));
    assert_eq!(mail.reply_to.as_deref(), Some("rt@x.y"));
}

#[test]
fn extract_boundary_strips_quotes() {
    let ct = b"multipart/form-data; boundary=\"abc\"";
    assert_eq!(extract_boundary(ct), Some(b"abc".to_vec()));
    let plain = b"multipart/form-data; boundary=abc";
    assert_eq!(extract_boundary(plain), Some(b"abc".to_vec()));
    assert_eq!(extract_boundary(b"multipart/form-data"), None);
}

#[test]
fn effective_limit_defaults() {
    assert_eq!(effective_limit(&None), DEFAULT_MAX_ATTACHMENT);
    assert_eq!(effective_limit(&Some("bogus".to_string())), DEFAULT_MAX_ATTACHMENT);
    assert_eq!(effective_limit(&Some("1KB".to_string())), 1024);
    assert_eq!(DEFAULT_MAX_ATTACHMENT, 25 * 1024 * 1024);
}

#[test]
fn pipeline_accepts_plain_request() {
    let body = full_body(&required_fields());
    let r = handle_request(&content_type(), &body, &settings(None));
    let msg = r.ok().expect("pipeline should accept a complete request");
    let rendered = String::from_utf8_lossy(&msg.formatted()).to_string();
    assert!(rendered.contains("hello"));
    assert!(rendered.contains("text/plain"));
    assert!(!rendered.contains("multipart/mixed"));
}

#[test]
fn pipeline_rejects_json_content_type() {
    let body = full_body(&required_fields());
    let r = handle_request(b"application/json", &body, &settings(None));
    match r {
        Err(RequestError::NotMultipart(ct)) => assert_eq!(ct, "application/json"),
        _ => panic!("expected a content-type rejection"),
    }
}

#[test]
fn pipeline_rejects_empty_body() {
    let r = handle_request(&content_type(), b"", &settings(None));
    assert!(matches!(r, Err(RequestError::EmptyBody)));
}

#[test]
fn pipeline_rejects_missing_boundary() {
    let body = full_body(&required_fields());
    let r = handle_request(b"multipart/form-data", &body, &settings(None));
    assert!(matches!(r, Err(RequestError::MissingBoundary)));
}

#[test]
fn pipeline_rejects_undecodable_body() {
    let r = handle_request(&content_type(), b"not multipart at all", &settings(None));
    assert!(matches!(r, Err(RequestError::Decode)));
}

#[test]
fn pipeline_rejects_each_missing_required_field() {
    let all = required_fields();
    for omit in 0..all.len() {
        let kept: Vec<(&str, &str)> =
            all.iter().enumerate().filter(|(i, _)| *i != omit).map(|(_, f)| *f).collect();
        let body = full_body(&kept);
        let r = handle_request(&content_type(), &body, &settings(None));
        assert!(matches!(r, Err(RequestError::MissingField)));
    }
}

#[test]
fn pipeline_rejects_oversized_attachment() {
    let mut body = Vec::new();
    for (name, value) in required_fields() {
        text_part(&mut body, name, value);
    }
    file_part(&mut body, "attachment", "blob.bin", b"12345");
    close_body(&mut body);
    let r = handle_request(&content_type(), &body, &settings(Some("4B")));
    match r {
        Err(RequestError::AttachmentTooLarge(limit)) => assert_eq!(limit, 4),
        _ => panic!("expected the attachment size rejection"),
    }
    let ok = handle_request(&content_type(), &body, &settings(Some("5B")));
    assert!(ok.is_ok());
}

#[test]
fn pipeline_rejects_bad_from_address() {
    let mut fields = required_fields();
    fields[0] = ("from", "not-an-email");
    let body = full_body(&fields);
    let r = handle_request(&content_type(), &body, &settings(None));
    assert!(matches!(r, Err(RequestError::Address(AddrField::From, _))));
}

#[test]
fn pipeline_rejects_bad_cc_address() {
    let mut fields = required_fields();
    fields.push(("cc", "broken"));
    let body = full_body(&fields);
    let r = handle_request(&content_type(), &body, &settings(None));
    assert!(matches!(r, Err(RequestError::Address(AddrField::Cc, _))));
}

fn plain_request(message: &str) -> MailRequest {
    MailRequest {
        from: "alice@example.com".to_string(),
        to: "bob@example.com".to_string(),
        cc: None,
        bcc: None,
        reply_to: None,
        sender_name: None,
        sender_email: None,
        subject: "greetings".to_string(),
        message: message.to_string(),
    }
}

#[test]
fn compose_round_trip_single_text_part() {
    let msg = compose(&plain_request("hello"), &None).ok().expect("compose should succeed");
    let rendered = String::from_utf8_lossy(&msg.formatted()).to_string();
    let text_parts = rendered.matches("Content-Type: text/plain").count();
    assert_eq!(text_parts, 1);
    assert!(rendered.contains("hello"));
    assert!(!rendered.contains("multipart/mixed"));
}

#[test]
fn compose_attachment_order_text_first() {
    let att = mail_relay::mail::AttachmentData {
        filename: "blob.bin".to_string(),
        data: vec![1, 2, 3],
    };
    let msg = compose(&plain_request("hello"), &Some(att)).ok().expect("compose should succeed");
    let rendered = String::from_utf8_lossy(&msg.formatted()).to_string();
    assert!(rendered.contains("multipart/mixed"));
    let text_at = rendered.find("Content-Type: text/plain").expect("text part present");
    let att_at = rendered.find("Content-Type: application/octet-stream").expect("attachment present");
    assert!(text_at < att_at);
    assert!(rendered.contains("blob.bin"));
}

#[test]
fn compose_optional_headers_follow_fields() {
    let mut req = plain_request("hello");
    req.cc = Some("cc@example.com".to_string());
    req.reply_to = Some("rt@example.com".to_string());
    let msg = compose(&req, &None).ok().expect("compose should succeed");
    let rendered = String::from_utf8_lossy(&msg.formatted()).to_string();
    assert!(rendered.contains("Cc: cc@example.com"));
    assert!(rendered.contains("Reply-To: rt@example.com"));
    let plain = compose(&plain_request("hello"), &None).ok().expect("compose should succeed");
    let plain_rendered = String::from_utf8_lossy(&plain.formatted()).to_string();
    assert!(!plain_rendered.contains("Cc:"));
    assert!(!plain_rendered.contains("Reply-To:"));
}

#[test]
fn compose_bcc_feeds_envelope_not_headers() {
    let mut req = plain_request("hello");
    req.bcc = Some("bcc@example.com".to_string());
    let msg = compose(&req, &None).ok().expect("compose should succeed");
    let rendered = String::from_utf8_lossy(&msg.formatted()).to_string();
    assert!(!rendered.contains("Bcc:"));
    assert_eq!(msg.envelope().to().len(), 2);
}

#[test]
fn decimal_rendering_exact() {
    assert_eq!(mail_relay::pipeline::decimal_string(0), "0");
    assert_eq!(mail_relay::pipeline::decimal_string(7), "7");
    assert_eq!(mail_relay::pipeline::decimal_string(26214400), "26214400");
    assert_eq!(
        error_message(&RequestError::AttachmentTooLarge(26214400)),
        "Attachment exceeds 26214400 limit"
    );
}

#[test]
fn dispatch_response_shapes() {
    let ok: ApiResponse = dispatch_response(Ok("250 OK".to_string()));
    assert!(ok.ok);
    assert_eq!(ok.message, "Email sent successfully");
    let err = dispatch_response(Err("connection refused".to_string()));
    assert!(!err.ok);
    assert_eq!(err.message, "connection refused");
}

#[test]
fn error_messages_name_their_cause() {
    assert_eq!(error_message(&RequestError::MissingField), "Missing required field");
    assert_eq!(
        error_message(&RequestError::NotMultipart("text/html".to_string())),
        "Expected multipart/form-data, got: text/html"
    );
    assert_eq!(
        error_message(&RequestError::Address(AddrField::From, "bad".to_string())),
        "Invalid from address: bad"
    );
    assert_eq!(error_message(&RequestError::AttachmentTooLarge(4)), "Attachment exceeds 4 limit");
}
