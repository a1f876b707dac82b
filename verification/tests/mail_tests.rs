use email_server::mail::{find_header, get_text_body, imap_message_text, pop3_message_text, MailHeaderText, MailPart};

const MULTIPART: &str = "Subject: =?utf-8?Q?Your_code?=\r\n\
From: Service <no-reply@example.com>\r\n\
Content-Type: multipart/alternative; boundary=foobar\r\n\
\r\n\
--foobar\r\n\
Content-Type: text/html\r\n\
\r\n\
<b>html 111111</b>\r\n\
--foobar\r\n\
Content-Type: text/plain; charset=utf-8\r\n\
Content-Transfer-Encoding: quoted-printable\r\n\
\r\n\
Your code is 654321 =E2=82=AC\r\n\
--foobar--\r\n";

fn part(mimetype: &str, body: &str, subparts: Vec<MailPart>) -> MailPart {
    MailPart { mimetype: mimetype.to_string(), body: body.to_string(), headers: vec![], subparts }
}

#[test]
fn text_body_of_trees() {
    let plain = part("text/plain", "hello", vec![]);
    assert_eq!(get_text_body(&plain), "hello");
    // a text/plain node gives its own body even when it has subparts
    let odd = part("text/plain", "", vec![part("text/plain", "inner", vec![])]);
    assert_eq!(get_text_body(&odd), "");
    // the first non-empty text body among the subparts, depth first
    let tree = part(
        "multipart/mixed",
        "preamble",
        vec![
            part("text/html", "<p>1</p>", vec![]),
            part("text/plain", "", vec![]),
            part("multipart/alternative", "", vec![part("text/plain", "nested 222222", vec![])]),
            part("text/plain", "later 333333", vec![]),
        ],
    );
    assert_eq!(get_text_body(&tree), "nested 222222");
    assert_eq!(get_text_body(&part("text/html", "<p>x</p>", vec![])), "");
}

#[test]
fn headers_are_found_ignoring_case() {
    let mut p = part("text/plain", "", vec![]);
    p.headers = vec![
        MailHeaderText { key: "SUBJECT".to_string(), value: "first".to_string() },
        MailHeaderText { key: "Subject".to_string(), value: "second".to_string() },
        MailHeaderText { key: "from".to_string(), value: "a@b".to_string() },
    ];
    assert_eq!(find_header(&p, "Subject"), "first");
    assert_eq!(find_header(&p, "From"), "a@b");
    assert_eq!(find_header(&p, "X-Missing"), "");
}

#[test]
fn pop3_message_fields() {
    let m = pop3_message_text(MULTIPART).expect("parses");
    assert_eq!(m.subject, "Your code");
    assert_eq!(m.from, "Service <no-reply@example.com>");
    assert_eq!(m.body, "Your code is 654321 \u{20AC}\r\n");

    let bare = pop3_message_text("no headers at all").unwrap();
    assert_eq!(bare.subject, "");
    assert_eq!(bare.from, "");

    let nested = "Content-Type: multipart/mixed; boundary=b\r\n\r\n\
--b\r\nContent-Type: text/plain\r\n\r\n\
--b\r\nContent-Type: text/plain\r\n\r\nsecond 777777\r\n\
--b--\r\n";
    assert_eq!(pop3_message_text(nested).unwrap().body, "second 777777\r\n");

    let html_only = "Content-Type: text/html\r\n\r\n<p>x</p>\r\n";
    assert_eq!(pop3_message_text(html_only).unwrap().body, "");
}

#[test]
fn imap_message_fields() {
    let m = imap_message_text(Some(b"no-reply"), Some(b"Code \xff"), MULTIPART.as_bytes());
    assert_eq!(m.from, "no-reply");
    assert_eq!(m.subject, "Code \u{FFFD}");
    assert_eq!(m.body, "Your code is 654321 \u{20AC}\r\n");

    let n = imap_message_text(None, None, b"");
    assert_eq!(n.from, "unknown");
    assert_eq!(n.subject, "");

    let v = imap_message_text(Some("héllo".as_bytes()), None, b"Subject: x\r\n\r\nbody");
    assert_eq!(v.from, "héllo");
    assert_eq!(v.body, "body");
}
