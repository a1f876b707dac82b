//! The parts of a mail message that code extraction reads: the decoded
//! headers, the MIME tree with each part's type and decoded body, and the
//! plain-text body chosen from it.
use vstd::prelude::*;
use vstd::string::StringSliceAdditionalSpecFns;
use vstd::utf8::{decode_utf8, valid_utf8};
use crate::text::{chars_eq_ignore_ascii_case, eq_ignore_ascii_case, to_chars};

verus! {

#[verifier::external_type_specification]
#[verifier::external_body]
pub struct ExParsedMail<'a>(mailparse::ParsedMail<'a>);

/// One header of a message, with its name and its decoded value.
pub struct MailHeaderText {
    pub key: String,
    pub value: String,
}

/// One node of a message's MIME tree.
pub struct MailPart {
    /// The part's content type, such as `text/plain`.
    pub mimetype: String,
    /// The part's body after transfer and charset decoding (empty when
    /// decoding fails).
    pub body: String,
    pub headers: Vec<MailHeaderText>,
    pub subparts: Vec<MailPart>,
}

/// The value of a MIME tree node.
pub struct MailTree {
    pub mimetype: Seq<char>,
    pub body: Seq<char>,
    pub headers: Seq<(Seq<char>, Seq<char>)>,
    pub subparts: Seq<MailTree>,
}

impl MailPart {
    pub open spec fn tree(self) -> MailTree
        decreases self,
    {
        MailTree {
            mimetype: self.mimetype@,
            body: self.body@,
            headers: self.headers@.map_values(|h: MailHeaderText| (h.key@, h.value@)),
            subparts: Seq::new(
                self.subparts@.len(),
                |i: int|
                    if 0 <= i < self.subparts@.len() {
                        self.subparts@[i].tree()
                    } else {
                        MailTree { mimetype: seq![], body: seq![], headers: seq![], subparts: seq![] }
                    },
            ),
        }
    }
}

impl View for MailPart {
    type V = MailTree;

    open spec fn view(&self) -> MailTree {
        self.tree()
    }
}

/// The MIME tree that `mailparse::parse_mail` reads from `raw`, each part's
/// body taken with `ParsedMail::get_body` and each header with
/// `MailHeader::get_key` and `MailHeader::get_value`; `None` when parsing
/// fails.
pub uninterp spec fn parsed_mail(raw: Seq<u8>) -> Option<MailTree>;

/// Parses a raw message with `mailparse::parse_mail`; the result is the
/// named tree of `raw`.
#[verifier::external_body]
fn parse_mail(raw: &[u8]) -> (r: Option<MailPart>)
    ensures
        match r {
            Some(p) => parsed_mail(raw@) == Some(p@),
            None => parsed_mail(raw@) is None,
        },
{
    match mailparse::parse_mail(raw) {
        Ok(p) => Some(part_from_parsed(&p)),
        Err(_) => None,
    }
}

/// Copies one parsed node, and its subparts, into a `MailPart`: the body
/// with `ParsedMail::get_body` (empty on a decoding error) and each header
/// with `MailHeader::get_key` and `MailHeader::get_value`. It is the
/// conversion that `parse_mail` applies; nothing is stated of it apart.
#[verifier::external_body]
fn part_from_parsed(p: &mailparse::ParsedMail) -> MailPart {
    MailPart {
        mimetype: p.ctype.mimetype.clone(),
        body: p.get_body().unwrap_or_default(),
        headers: p.headers.iter().map(|h| MailHeaderText { key: h.get_key(), value: h.get_value() }).collect(),
        subparts: p.subparts.iter().map(part_from_parsed).collect(),
    }
}

/// The plain-text body of a message: a `text/plain` node gives its own body
/// (even when empty); any other node gives the first non-empty text body
/// among its subparts, in order, or nothing.
pub open spec fn text_body(t: MailTree) -> Seq<char>
    decreases t, 0int,
{
    if t.mimetype == "text/plain"@ {
        t.body
    } else {
        first_text_body(t.subparts, 0)
    }
}

/// The first non-empty text body among `parts[i..]`.
pub open spec fn first_text_body(parts: Seq<MailTree>, i: int) -> Seq<char>
    decreases parts, parts.len() - i,
{
    if 0 <= i < parts.len() {
        let b = text_body(parts[i]);
        if b.len() > 0 {
            b
        } else {
            first_text_body(parts, i + 1)
        }
    } else {
        Seq::empty()
    }
}

/// The plain-text body of a parsed message.
pub fn get_text_body(part: &MailPart) -> (r: String)
    ensures
        r@ == text_body(part@),
    decreases part,
{
    let plain = String::from_str("text/plain");
    if part.mimetype == plain {
        return part.body.clone();
    }
    let ghost parts = part@.subparts;
    let n = part.subparts.len();
    let mut i: usize = 0;
    while i < n
        invariant
            i <= n == part.subparts@.len() == parts.len(),
            parts == part@.subparts,
            part@.mimetype != "text/plain"@,
            text_body(part@) == first_text_body(parts, i as int),
        decreases n - i,
    {
        assert(parts[i as int] == part.subparts@[i as int]@);
        let body = get_text_body(&part.subparts[i]);
        if !body.as_str().is_empty() {
            return body;
        }
        i += 1;
    }
    String::new()
}

/// The value of the first header named `name` (compared ignoring ASCII
/// case), from the `i`-th header on; empty when there is none.
pub open spec fn header_value(headers: Seq<(Seq<char>, Seq<char>)>, name: Seq<char>, i: int) -> Seq<
    char,
>
    decreases headers.len() - i,
{
    if 0 <= i < headers.len() {
        if eq_ignore_ascii_case(headers[i].0, name) {
            headers[i].1
        } else {
            header_value(headers, name, i + 1)
        }
    } else {
        Seq::empty()
    }
}

/// The value of the first header named `name` in `part`, ignoring ASCII
/// case in the name; empty when there is none.
pub fn find_header(part: &MailPart, name: &str) -> (r: String)
    ensures
        r@ == header_value(part@.headers, name@, 0),
{
    let want = to_chars(name);
    let mut i: usize = 0;
    while i < part.headers.len()
        invariant
            i <= part.headers@.len() == part@.headers.len(),
            want@ == name@,
            header_value(part@.headers, name@, 0) == header_value(part@.headers, name@, i as int),
        decreases part.headers.len() - i,
    {
        let h = &part.headers[i];
        assert(part@.headers[i as int] == (h.key@, h.value@));
        let key = to_chars(h.key.as_str());
        if chars_eq_ignore_ascii_case(&key, &want) {
            return h.value.clone();
        }
        i += 1;
    }
    String::new()
}

/// The text that extraction reads from a message, and its sender.
pub struct MessageText {
    pub subject: String,
    pub from: String,
    pub body: String,
}

/// `String::from_utf8_lossy`: `bytes` read as UTF-8 with each invalid
/// sequence replaced by U+FFFD.
pub uninterp spec fn utf8_lossy(bytes: Seq<u8>) -> Seq<char>;

/// `String::from_utf8_lossy`, owned. Valid UTF-8 is decoded as is, as the
/// standard library documents.
#[verifier::external_body]
fn from_utf8_lossy(bytes: &[u8]) -> (r: String)
    ensures
        r@ == utf8_lossy(bytes@),
        valid_utf8(bytes@) ==> r@ == decode_utf8(bytes@),
{
    String::from_utf8_lossy(bytes).into_owned()
}

/// The subject, sender and text body of a message fetched over POP3, taken
/// from its decoded `Subject` and `From` headers (empty when missing) and
/// its MIME tree; `None` when the message does not parse.
pub open spec fn pop3_message(raw: Seq<u8>) -> Option<(Seq<char>, Seq<char>, Seq<char>)> {
    match parsed_mail(raw) {
        Some(t) => Some(
            (header_value(t.headers, "Subject"@, 0), header_value(t.headers, "From"@, 0), text_body(t)),
        ),
        None => None,
    }
}

/// Reads a message received over POP3.
pub fn pop3_message_text(raw: &str) -> (r: Option<MessageText>)
    ensures
        r is Some <==> pop3_message(raw.spec_bytes()) is Some,
        r matches Some(m) ==> pop3_message(raw.spec_bytes()) == Some((m.subject@, m.from@, m.body@)),
{
    match parse_mail(raw.as_bytes()) {
        Some(p) => {
            let subject = find_header(&p, "Subject");
            let from = find_header(&p, "From");
            let body = get_text_body(&p);
            Some(MessageText { subject, from, body })
        },
        None => None,
    }
}

/// The sender, subject and text body of a message fetched over IMAP: the
/// mailbox of the envelope's first sender (`unknown` when missing), the
/// envelope subject (empty when missing), both read as lossy UTF-8, and the
/// text body of the parsed message, or the whole message read as lossy
/// UTF-8 when it does not parse.
pub open spec fn imap_message(from_mailbox: Option<Seq<u8>>, subject: Option<Seq<u8>>, raw: Seq<u8>) -> (
    Seq<char>,
    Seq<char>,
    Seq<char>,
) {
    (
        match subject {
            Some(s) => utf8_lossy(s),
            None => Seq::empty(),
        },
        match from_mailbox {
            Some(m) => utf8_lossy(m),
            None => "unknown"@,
        },
        match parsed_mail(raw) {
            Some(t) => text_body(t),
            None => utf8_lossy(raw),
        },
    )
}

/// Reads a message received over IMAP from its envelope fields and raw
/// `BODY[]` text.
pub fn imap_message_text(from_mailbox: Option<&[u8]>, subject: Option<&[u8]>, raw: &[u8]) -> (r:
    MessageText)
    ensures
        imap_message(
            match from_mailbox {
                Some(m) => Some(m@),
                None => None,
            },
            match subject {
                Some(s) => Some(s@),
                None => None,
            },
            raw@,
        ) == (r.subject@, r.from@, r.body@),
{
    let from = match from_mailbox {
        Some(m) => from_utf8_lossy(m),
        None => String::from_str("unknown"),
    };
    let subject = match subject {
        Some(s) => from_utf8_lossy(s),
        None => String::new(),
    };
    let body = match parse_mail(raw) {
        Some(p) => get_text_body(&p),
        None => from_utf8_lossy(raw),
    };
    MessageText { subject, from, body }
}

} // verus!
