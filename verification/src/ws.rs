//! The WebSocket side: the JSON messages the server sends, the decision on
//! a client's first message (authentication), connection ids, the registry
//! of authenticated clients that new codes are broadcast to, and the
//! decisions of a connection's read and write loops.
use vstd::prelude::*;
use std::collections::HashMap;
use vstd::std_specs::iter::IteratorSpec;
use crate::config::CodeInfo;
use crate::delivery::{send_to_client, Delivery};
use crate::json::{json_member_str, json_parses, JsonDoc};
use crate::text::opt_chars;

verus! {

// ------------------------------------------------------------------
// JSON text
// ------------------------------------------------------------------

/// A lower-case hexadecimal digit.
pub open spec fn hex_digit(d: nat) -> char {
    if d < 10 {
        ((48 + d) as u8) as char
    } else {
        ((87 + d) as u8) as char
    }
}

/// How serde_json writes one character inside a string: quote and
/// backslash escaped, the five short control escapes, other control
/// characters as `\u00XX`, everything else as is.
pub open spec fn json_escape_char(c: char) -> Seq<char> {
    let u = c as u32;
    if c == '"' {
        seq!['\\', '"']
    } else if c == '\\' {
        seq!['\\', '\\']
    } else if u == 0x08 {
        seq!['\\', 'b']
    } else if u == 0x09 {
        seq!['\\', 't']
    } else if u == 0x0A {
        seq!['\\', 'n']
    } else if u == 0x0C {
        seq!['\\', 'f']
    } else if u == 0x0D {
        seq!['\\', 'r']
    } else if u < 0x20 {
        seq!['\\', 'u', '0', '0', hex_digit((u / 16) as nat), hex_digit((u % 16) as nat)]
    } else {
        seq![c]
    }
}

/// The escaped characters of `s`.
pub open spec fn json_escape(s: Seq<char>) -> Seq<char>
    decreases s.len(),
{
    if s.len() == 0 {
        Seq::empty()
    } else {
        json_escape(s.drop_last()) + json_escape_char(s.last())
    }
}

/// `s` as a JSON string literal.
pub open spec fn json_string(s: Seq<char>) -> Seq<char> {
    seq!['"'] + json_escape(s) + seq!['"']
}

/// `serde_json::to_string` of a string slice: the string in quotes, with
/// the characters escaped as serde_json's serializer does (its escape table
/// and `write_char_escape`). Serializing a `&str` cannot fail.
#[verifier::external_body]
fn json_quote(s: &str) -> (r: String)
    ensures
        r@ == json_string(s@),
{
    serde_json::to_string(s).unwrap_or_default()
}

/// `{"type":"auth_ok"}`.
pub open spec fn auth_ok_text() -> Seq<char> {
    "{\"type\":\"auth_ok\"}"@
}

/// `{"reason":...,"type":"auth_fail"}`.
pub open spec fn auth_fail_text(reason: Seq<char>) -> Seq<char> {
    "{\"reason\":"@ + json_string(reason) + ",\"type\":\"auth_fail\"}"@
}

/// `{"type":"pong"}`.
pub open spec fn pong_text() -> Seq<char> {
    "{\"type\":\"pong\"}"@
}

/// The `new_code` message for a code: every field of the record as a JSON
/// string, keys in serde_json's (sorted) order.
pub open spec fn new_code_text(code: Seq<char>, subject: Seq<char>, from: Seq<char>, time: Seq<char>, account: Seq<char>) -> Seq<char> {
    "{\"account\":"@ + json_string(account) + ",\"code\":"@ + json_string(code) + ",\"from\":"@
        + json_string(from) + ",\"subject\":"@ + json_string(subject) + ",\"time\":"@ + json_string(
        time,
    ) + ",\"type\":\"new_code\"}"@
}

pub fn auth_ok_message() -> (m: String)
    ensures
        m@ == auth_ok_text(),
{
    String::from_str("{\"type\":\"auth_ok\"}")
}

pub fn auth_fail_message(reason: &str) -> (m: String)
    ensures
        m@ == auth_fail_text(reason@),
{
    let mut m = String::from_str("{\"reason\":");
    m.append(json_quote(reason).as_str());
    m.append(",\"type\":\"auth_fail\"}");
    m
}

pub fn pong_message() -> (m: String)
    ensures
        m@ == pong_text(),
{
    String::from_str("{\"type\":\"pong\"}")
}

/// The message broadcast to the clients for a code.
pub fn new_code_message(info: &CodeInfo) -> (m: String)
    ensures
        m@ == new_code_text(info.code@, info.subject@, info.from@, info.time@, info.account@),
{
    let mut m = String::from_str("{\"account\":");
    m.append(json_quote(info.account.as_str()).as_str());
    m.append(",\"code\":");
    m.append(json_quote(info.code.as_str()).as_str());
    m.append(",\"from\":");
    m.append(json_quote(info.from.as_str()).as_str());
    m.append(",\"subject\":");
    m.append(json_quote(info.subject.as_str()).as_str());
    m.append(",\"time\":");
    m.append(json_quote(info.time.as_str()).as_str());
    m.append(",\"type\":\"new_code\"}");
    m
}

// ------------------------------------------------------------------
// Reading the messages back as JSON
// ------------------------------------------------------------------

/// The value of a hexadecimal digit, in either case.
pub open spec fn hex_value(c: char) -> Option<nat> {
    if '0' <= c <= '9' {
        Some((c as u32 - 48) as nat)
    } else if 'a' <= c <= 'f' {
        Some((c as u32 - 87) as nat)
    } else if 'A' <= c <= 'F' {
        Some((c as u32 - 55) as nat)
    } else {
        None
    }
}

/// The character a JSON escape stands for, read from the text after its
/// backslash, and the number of characters it takes there (RFC 8259: the
/// two-character escapes and `\uXXXX` outside the surrogate range).
pub open spec fn json_unescape(t: Seq<char>) -> Option<(char, nat)> {
    if t.len() == 0 {
        None
    } else if t[0] == '"' {
        Some(('"', 1))
    } else if t[0] == '\\' {
        Some(('\\', 1))
    } else if t[0] == '/' {
        Some(('/', 1))
    } else if t[0] == 'b' {
        Some(('\x08', 1))
    } else if t[0] == 'f' {
        Some(('\x0c', 1))
    } else if t[0] == 'n' {
        Some(('\n', 1))
    } else if t[0] == 'r' {
        Some(('\r', 1))
    } else if t[0] == 't' {
        Some(('\t', 1))
    } else if t[0] == 'u' && t.len() >= 5 {
        match (hex_value(t[1]), hex_value(t[2]), hex_value(t[3]), hex_value(t[4])) {
            (Some(a), Some(b), Some(c), Some(d)) => {
                let v = a * 4096 + b * 256 + c * 16 + d;
                if v < 0xD800 || 0xE000 <= v {
                    Some((v as char, 5))
                } else {
                    None
                }
            },
            _ => None,
        }
    } else {
        None
    }
}

/// Reads the contents of a JSON string literal from the text just after
/// its opening quote: the characters it stands for and the text after its
/// closing quote. Unescaped control characters are refused, as RFC 8259
/// requires.
pub open spec fn read_string_body(t: Seq<char>) -> Option<(Seq<char>, Seq<char>)>
    decreases t.len(),
{
    if t.len() == 0 {
        None
    } else if t[0] == '"' {
        Some((Seq::empty(), t.drop_first()))
    } else if t[0] == '\\' {
        match json_unescape(t.drop_first()) {
            Some((c, n)) => if n + 1 <= t.len() {
                match read_string_body(t.skip(n as int + 1)) {
                    Some((s, rest)) => Some((seq![c] + s, rest)),
                    None => None,
                }
            } else {
                None
            },
            None => None,
        }
    } else if (t[0] as u32) < 0x20 {
        None
    } else {
        match read_string_body(t.drop_first()) {
            Some((s, rest)) => Some((seq![t[0]] + s, rest)),
            None => None,
        }
    }
}

/// Reads one member `"key":"value"` at the start of `t`: the key, the
/// value and the text after it.
pub open spec fn read_member(t: Seq<char>) -> Option<(Seq<char>, Seq<char>, Seq<char>)> {
    if t.len() > 0 && t[0] == '"' {
        match read_string_body(t.drop_first()) {
            Some((k, r)) => if r.len() >= 2 && r[0] == ':' && r[1] == '"' {
                match read_string_body(r.skip(2)) {
                    Some((v, rest)) => Some((k, v, rest)),
                    None => None,
                }
            } else {
                None
            },
            None => None,
        }
    } else {
        None
    }
}

/// Reads `n` members separated by commas, the last one followed by the
/// `}` that ends the text.
pub open spec fn read_members(t: Seq<char>, n: nat) -> Option<Seq<(Seq<char>, Seq<char>)>>
    decreases n,
{
    match read_member(t) {
        Some((k, v, rest)) => if n == 1 {
            if rest == seq!['}'] {
                Some(seq![(k, v)])
            } else {
                None
            }
        } else if n > 1 && rest.len() > 0 && rest[0] == ',' {
            match read_members(rest.drop_first(), (n - 1) as nat) {
                Some(ms) => Some(seq![(k, v)] + ms),
                None => None,
            }
        } else {
            None
        },
        None => None,
    }
}

/// Reads `t` as a JSON object of `n` members whose values are strings,
/// written without spaces: the members in the order written.
pub open spec fn read_string_object(t: Seq<char>, n: nat) -> Option<Seq<(Seq<char>, Seq<char>)>> {
    if t.len() > 0 && t[0] == '{' {
        read_members(t.drop_first(), n)
    } else {
        None
    }
}

proof fn lemma_json_escape_cons(c: char, s: Seq<char>)
    ensures
        json_escape(seq![c] + s) == json_escape_char(c) + json_escape(s),
    decreases s.len(),
{
    if s.len() == 0 {
        assert(seq![c] + s == seq![c]);
        assert(seq![c].drop_last() == Seq::<char>::empty());
        assert(json_escape(seq![c]) == json_escape(Seq::<char>::empty()) + json_escape_char(c));
        assert(Seq::<char>::empty() + json_escape_char(c) == json_escape_char(c));
        assert(json_escape_char(c) + Seq::<char>::empty() == json_escape_char(c));
    } else {
        let t = seq![c] + s;
        assert(t.drop_last() == seq![c] + s.drop_last());
        assert(t.last() == s.last());
        lemma_json_escape_cons(c, s.drop_last());
        assert(json_escape(t) == json_escape(t.drop_last()) + json_escape_char(t.last()));
        assert(json_escape(s) == json_escape(s.drop_last()) + json_escape_char(s.last()));
        assert(json_escape_char(c) + json_escape(s.drop_last()) + json_escape_char(s.last())
            =~= json_escape_char(c) + (json_escape(s.drop_last()) + json_escape_char(s.last())));
    }
}

proof fn lemma_hex_value_digit(d: nat)
    requires
        d < 16,
    ensures
        hex_value(hex_digit(d)) == Some(d),
{
    if d < 10 {
        assert(hex_digit(d) as u32 == 48 + d);
    } else {
        assert(hex_digit(d) as u32 == 87 + d);
    }
}

proof fn lemma_read_escaped_char(c: char, tail: Seq<char>, s: Seq<char>, rest: Seq<char>)
    requires
        read_string_body(tail) == Some((s, rest)),
    ensures
        read_string_body(json_escape_char(c) + tail) == Some((seq![c] + s, rest)),
{
    let e = json_escape_char(c);
    let t = e + tail;
    let u = c as u32;
    assert(t.skip(e.len() as int) == tail);
    if c == '"' || c == '\\' || u == 0x08 || u == 0x09 || u == 0x0A || u == 0x0C || u == 0x0D {
        assert(e.len() == 2);
        assert(t[0] == '\\');
        assert(t.drop_first()[0] == e[1]);
        assert(json_unescape(t.drop_first()) == Some((c, 1nat)));
    } else if u < 0x20 {
        let hi = (u / 16) as nat;
        let lo = (u % 16) as nat;
        lemma_hex_value_digit(hi);
        lemma_hex_value_digit(lo);
        lemma_hex_value_digit(0);
        assert(hex_digit(0) == '0');
        let d = t.drop_first();
        assert(d[0] == 'u' && d[1] == '0' && d[2] == '0' && d[3] == hex_digit(hi) && d[4] == hex_digit(lo));
        assert(hi * 16 + lo == u);
        assert(((0nat * 4096 + 0nat * 256 + hi * 16 + lo) as char) == c);
        assert(json_unescape(d) == Some((c, 5nat)));
    } else {
        assert(e == seq![c]);
        assert(t[0] == c);
        assert(t.drop_first() == tail);
    }
}

/// A JSON string literal as written here reads back as the text it was
/// written from, and the reading stops at its closing quote.
pub proof fn lemma_json_string_reads_back(s: Seq<char>, rest: Seq<char>)
    ensures
        read_string_body(json_escape(s) + seq!['"'] + rest) == Some((s, rest)),
    decreases s.len(),
{
    if s.len() == 0 {
        assert(json_escape(s) + seq!['"'] + rest == seq!['"'] + rest);
        assert((seq!['"'] + rest).drop_first() == rest);
    } else {
        let c = s[0];
        let tail = s.drop_first();
        assert(s == seq![c] + tail);
        lemma_json_escape_cons(c, tail);
        lemma_json_string_reads_back(tail, rest);
        lemma_read_escaped_char(c, json_escape(tail) + seq!['"'] + rest, tail, rest);
        assert(json_escape(s) + seq!['"'] + rest == json_escape_char(c) + (json_escape(tail) + seq!['"'] + rest));
    }
}

/// A member `"key":"value"` as the messages here write it.
pub open spec fn member_text(key: Seq<char>, value: Seq<char>) -> Seq<char> {
    json_string(key) + seq![':'] + json_string(value)
}

proof fn lemma_read_member(k: Seq<char>, v: Seq<char>, x: Seq<char>)
    ensures
        read_member(member_text(k, v) + x) == Some((k, v, x)),
{
    let r = seq![':'] + json_string(v) + x;
    let t = member_text(k, v) + x;
    assert(t[0] == '"');
    assert(t.drop_first() == json_escape(k) + seq!['"'] + r);
    lemma_json_string_reads_back(k, r);
    assert(r.skip(2) == json_escape(v) + seq!['"'] + x);
    lemma_json_string_reads_back(v, x);
}

proof fn lemma_read_members_cons(k: Seq<char>, v: Seq<char>, r: Seq<char>, n: nat)
    requires
        n >= 1,
    ensures
        read_members(member_text(k, v) + seq![','] + r, n + 1) == match read_members(r, n) {
            Some(ms) => Some(seq![(k, v)] + ms),
            None => None,
        },
{
    let rest = seq![','] + r;
    assert(member_text(k, v) + seq![','] + r == member_text(k, v) + rest);
    lemma_read_member(k, v, rest);
    assert(rest.drop_first() == r);
}

proof fn lemma_read_members_last(k: Seq<char>, v: Seq<char>)
    ensures
        read_members(member_text(k, v) + seq!['}'], 1) == Some(seq![(k, v)]),
{
    lemma_read_member(k, v, seq!['}']);
}

/// Text that JSON writes as it is: no quote, no backslash, no control
/// character.
pub open spec fn json_plain(s: Seq<char>) -> bool {
    forall|i: int| 0 <= i < s.len() ==> s[i] != '"' && s[i] != '\\' && (#[trigger] s[i] as u32) >= 0x20
}

proof fn lemma_json_escape_plain(s: Seq<char>)
    requires
        json_plain(s),
    ensures
        json_escape(s) == s,
    decreases s.len(),
{
    if s.len() > 0 {
        assert(json_plain(s.drop_last())) by {
            assert forall|i: int| 0 <= i < s.drop_last().len() implies s.drop_last()[i] != '"' && s.drop_last()[i]
                != '\\' && (#[trigger] s.drop_last()[i] as u32) >= 0x20 by {
                assert(s.drop_last()[i] == s[i]);
            }
        }
        lemma_json_escape_plain(s.drop_last());
        assert(s[s.len() - 1] as u32 >= 0x20);
        assert(json_escape_char(s.last()) == seq![s.last()]);
        assert(s.drop_last().push(s.last()) == s);
    }
}

proof fn lemma_plain_keys()
    ensures
        json_escape("account"@) == "account"@,
        json_escape("code"@) == "code"@,
        json_escape("from"@) == "from"@,
        json_escape("subject"@) == "subject"@,
        json_escape("time"@) == "time"@,
        json_escape("type"@) == "type"@,
        json_escape("new_code"@) == "new_code"@,
        json_escape("reason"@) == "reason"@,
        json_escape("auth_fail"@) == "auth_fail"@,
{
    reveal_strlit("account");
    reveal_strlit("code");
    reveal_strlit("from");
    reveal_strlit("subject");
    reveal_strlit("time");
    reveal_strlit("type");
    reveal_strlit("new_code");
    reveal_strlit("reason");
    reveal_strlit("auth_fail");
    lemma_json_escape_plain("account"@);
    lemma_json_escape_plain("code"@);
    lemma_json_escape_plain("from"@);
    lemma_json_escape_plain("subject"@);
    lemma_json_escape_plain("time"@);
    lemma_json_escape_plain("type"@);
    lemma_json_escape_plain("new_code"@);
    lemma_json_escape_plain("reason"@);
    lemma_json_escape_plain("auth_fail"@);
}

proof fn lemma_new_code_pieces()
    ensures
        "{\"account\":"@ == seq!['{'] + json_string("account"@) + seq![':'],
        ",\"code\":"@ == seq![','] + json_string("code"@) + seq![':'],
        ",\"from\":"@ == seq![','] + json_string("from"@) + seq![':'],
        ",\"subject\":"@ == seq![','] + json_string("subject"@) + seq![':'],
        ",\"time\":"@ == seq![','] + json_string("time"@) + seq![':'],
        ",\"type\":\"new_code\"}"@ == seq![','] + (json_string("type"@) + seq![':'] + json_string("new_code"@))
            + seq!['}'],
{
    lemma_plain_keys();
    assert("{\"account\":"@ == seq!['{'] + json_string("account"@) + seq![':']) by {
        reveal_strlit("account");
        reveal_strlit("{\"account\":");
    }
    assert(",\"code\":"@ == seq![','] + json_string("code"@) + seq![':']) by {
        reveal_strlit("code");
        reveal_strlit(",\"code\":");
    }
    assert(",\"from\":"@ == seq![','] + json_string("from"@) + seq![':']) by {
        reveal_strlit("from");
        reveal_strlit(",\"from\":");
    }
    assert(",\"subject\":"@ == seq![','] + json_string("subject"@) + seq![':']) by {
        reveal_strlit("subject");
        reveal_strlit(",\"subject\":");
    }
    assert(",\"time\":"@ == seq![','] + json_string("time"@) + seq![':']) by {
        reveal_strlit("time");
        reveal_strlit(",\"time\":");
    }
    assert(",\"type\":\"new_code\"}"@ == seq![','] + json_string("type"@) + seq![':'] + json_string("new_code"@)
        + seq!['}']) by {
        reveal_strlit("type");
        reveal_strlit("new_code");
        reveal_strlit(",\"type\":\"new_code\"}");
    }
    assert(seq![','] + json_string("type"@) + seq![':'] + json_string("new_code"@) + seq!['}'] =~= seq![','] + (
    json_string("type"@) + seq![':'] + json_string("new_code"@)) + seq!['}']);
}

proof fn lemma_concat6(
    p0: Seq<char>, j0: Seq<char>, p1: Seq<char>, j1: Seq<char>, p2: Seq<char>, j2: Seq<char>,
    p3: Seq<char>, j3: Seq<char>, p4: Seq<char>, j4: Seq<char>, p5: Seq<char>,
    k0: Seq<char>, k1: Seq<char>, k2: Seq<char>, k3: Seq<char>, k4: Seq<char>, last: Seq<char>,
)
    requires
        p0 == seq!['{'] + k0 + seq![':'],
        p1 == seq![','] + k1 + seq![':'],
        p2 == seq![','] + k2 + seq![':'],
        p3 == seq![','] + k3 + seq![':'],
        p4 == seq![','] + k4 + seq![':'],
        p5 == seq![','] + last + seq!['}'],
    ensures
        p0 + j0 + p1 + j1 + p2 + j2 + p3 + j3 + p4 + j4 + p5 == seq!['{'] + (k0 + seq![':'] + j0 + seq![',']
            + (k1 + seq![':'] + j1 + seq![','] + (k2 + seq![':'] + j2 + seq![','] + (k3 + seq![':'] + j3
            + seq![','] + (k4 + seq![':'] + j4 + seq![','] + (last + seq!['}'])))))),
{
    assert(p0 + j0 + p1 + j1 + p2 + j2 + p3 + j3 + p4 + j4 + p5 =~= seq!['{'] + (k0 + seq![':'] + j0 + seq![',']
        + (k1 + seq![':'] + j1 + seq![','] + (k2 + seq![':'] + j2 + seq![','] + (k3 + seq![':'] + j3
        + seq![','] + (k4 + seq![':'] + j4 + seq![','] + (last + seq!['}'])))))));
}

/// Six members in a row, the last closing the object.
pub open spec fn six_members(k: Seq<Seq<char>>, v: Seq<Seq<char>>) -> Seq<char> {
    member_text(k[0], v[0]) + seq![','] + (member_text(k[1], v[1]) + seq![','] + (member_text(k[2], v[2])
        + seq![','] + (member_text(k[3], v[3]) + seq![','] + (member_text(k[4], v[4]) + seq![',']
        + (member_text(k[5], v[5]) + seq!['}'])))))
}

proof fn lemma_read_six(k: Seq<Seq<char>>, v: Seq<Seq<char>>)
    requires
        k.len() == 6,
        v.len() == 6,
    ensures
        read_members(six_members(k, v), 6) == Some(
            seq![(k[0], v[0]), (k[1], v[1]), (k[2], v[2]), (k[3], v[3]), (k[4], v[4]), (k[5], v[5])],
        ),
{
    let m5 = member_text(k[5], v[5]) + seq!['}'];
    let m4 = member_text(k[4], v[4]) + seq![','] + m5;
    let m3 = member_text(k[3], v[3]) + seq![','] + m4;
    let m2 = member_text(k[2], v[2]) + seq![','] + m3;
    let m1 = member_text(k[1], v[1]) + seq![','] + m2;
    lemma_read_members_last(k[5], v[5]);
    let r5 = seq![(k[5], v[5])];
    assert(read_members(m5, 1) == Some(r5));
    lemma_read_members_cons(k[4], v[4], m5, 1);
    let r4 = seq![(k[4], v[4])] + r5;
    assert(read_members(m4, 2) == Some(r4));
    lemma_read_members_cons(k[3], v[3], m4, 2);
    let r3 = seq![(k[3], v[3])] + r4;
    assert(read_members(m3, 3) == Some(r3));
    lemma_read_members_cons(k[2], v[2], m3, 3);
    let r2 = seq![(k[2], v[2])] + r3;
    assert(read_members(m2, 4) == Some(r2));
    lemma_read_members_cons(k[1], v[1], m2, 4);
    let r1 = seq![(k[1], v[1])] + r2;
    assert(read_members(m1, 5) == Some(r1));
    lemma_read_members_cons(k[0], v[0], m1, 5);
    assert(six_members(k, v) == member_text(k[0], v[0]) + seq![','] + m1);
    assert(read_members(six_members(k, v), 6) == Some(seq![(k[0], v[0])] + r1));
    assert(seq![(k[0], v[0])] + (seq![(k[1], v[1])] + (seq![(k[2], v[2])] + (seq![(k[3], v[3])] + (seq![
        (k[4], v[4]),
    ] + seq![(k[5], v[5])])))) =~= seq![
        (k[0], v[0]),
        (k[1], v[1]),
        (k[2], v[2]),
        (k[3], v[3]),
        (k[4], v[4]),
        (k[5], v[5]),
    ]);
}

proof fn lemma_new_code_layout(
    code: Seq<char>,
    subject: Seq<char>,
    from: Seq<char>,
    time: Seq<char>,
    account: Seq<char>,
)
    ensures
        new_code_text(code, subject, from, time, account) == seq!['{'] + six_members(
            seq!["account"@, "code"@, "from"@, "subject"@, "time"@, "type"@],
            seq![account, code, from, subject, time, "new_code"@],
        ),
{
    lemma_new_code_pieces();
    lemma_concat6(
        "{\"account\":"@, json_string(account), ",\"code\":"@, json_string(code), ",\"from\":"@,
        json_string(from), ",\"subject\":"@, json_string(subject), ",\"time\":"@, json_string(time),
        ",\"type\":\"new_code\"}"@, json_string("account"@), json_string("code"@), json_string("from"@),
        json_string("subject"@), json_string("time"@), json_string("type"@) + seq![':'] + json_string(
            "new_code"@,
        ),
    );
}

/// The `new_code` message reads back, as a JSON object, as exactly the
/// record's fields and the message type, in serde_json's key order,
/// whatever the fields hold (quotes, backslashes and control characters
/// included).
pub proof fn lemma_new_code_text_reads_back(
    code: Seq<char>,
    subject: Seq<char>,
    from: Seq<char>,
    time: Seq<char>,
    account: Seq<char>,
)
    ensures
        read_string_object(new_code_text(code, subject, from, time, account), 6) == Some(
            seq![
                ("account"@, account),
                ("code"@, code),
                ("from"@, from),
                ("subject"@, subject),
                ("time"@, time),
                ("type"@, "new_code"@),
            ],
        ),
{
    let k = seq!["account"@, "code"@, "from"@, "subject"@, "time"@, "type"@];
    let v = seq![account, code, from, subject, time, "new_code"@];
    lemma_new_code_layout(code, subject, from, time, account);
    lemma_read_six(k, v);
    let t = new_code_text(code, subject, from, time, account);
    assert(t.drop_first() == six_members(k, v));
}

/// A refusal reads back, as a JSON object, as exactly its reason and the
/// message type, whatever the reason holds.
pub proof fn lemma_auth_fail_text_reads_back(reason: Seq<char>)
    ensures
        read_string_object(auth_fail_text(reason), 2) == Some(
            seq![("reason"@, reason), ("type"@, "auth_fail"@)],
        ),
{
    lemma_plain_keys();
    assert("{\"reason\":"@ == seq!['{'] + json_string("reason"@) + seq![':']) by {
        reveal_strlit("reason");
        reveal_strlit("{\"reason\":");
    }
    assert(",\"type\":\"auth_fail\"}"@ == seq![','] + member_text("type"@, "auth_fail"@) + seq!['}']) by {
        reveal_strlit("type");
        reveal_strlit("auth_fail");
        reveal_strlit(",\"type\":\"auth_fail\"}");
    }
    let m1 = member_text("type"@, "auth_fail"@) + seq!['}'];
    let t = auth_fail_text(reason);
    assert(t == seq!['{'] + (member_text("reason"@, reason) + seq![','] + m1));
    assert(t.drop_first() == member_text("reason"@, reason) + seq![','] + m1);
    lemma_read_members_last("type"@, "auth_fail"@);
    lemma_read_members_cons("reason"@, reason, m1, 1);
    assert(seq![("reason"@, reason)] + seq![("type"@, "auth_fail"@)] == seq![("reason"@, reason), ("type"@, "auth_fail"@)]);
}

// ------------------------------------------------------------------
// Reading a client message
// ------------------------------------------------------------------

/// What a client's first message earns it: whether it is authenticated,
/// and the reply to send, if any.
pub struct AuthOutcome {
    pub authenticated: bool,
    pub reply: Option<String>,
}

/// The decision on a client's first message (`None` when the first thing
/// received was not a text message, or nothing came in time): JSON that is
/// not an `auth` request is refused with a reason; an `auth` request is
/// accepted exactly when its `api_key` (empty when absent) is one of the
/// configured keys; anything that is not JSON is dropped without a reply.
pub open spec fn auth_decision(message: Option<Seq<char>>, keys: Seq<Seq<char>>) -> (bool, Option<Seq<char>>) {
    match message {
        None => (false, None),
        Some(t) => if !json_parses(t) {
            (false, None)
        } else if json_member_str(t, "type"@) != Some("auth"@) {
            (false, Some(auth_fail_text("first message must be auth"@)))
        } else {
            let key = match json_member_str(t, "api_key"@) {
                Some(k) => k,
                None => Seq::empty(),
            };
            if keys.contains(key) {
                (true, Some(auth_ok_text()))
            } else {
                (false, Some(auth_fail_text("invalid api_key"@)))
            }
        },
    }
}

fn key_listed(keys: &Vec<String>, key: &String) -> (b: bool)
    ensures
        b == keys@.map_values(|k: String| k@).contains(key@),
{
    let ghost ks = keys@.map_values(|k: String| k@);
    let mut i: usize = 0;
    while i < keys.len()
        invariant
            i <= keys@.len() == ks.len(),
            ks == keys@.map_values(|k: String| k@),
            forall|j: int| 0 <= j < i ==> ks[j] != key@,
        decreases keys.len() - i,
    {
        if keys[i] == *key {
            assert(ks[i as int] == key@);
            return true;
        }
        i += 1;
    }
    false
}

/// Decides on a client's first message.
pub fn authenticate(message: Option<&str>, api_keys: &Vec<String>) -> (r: AuthOutcome)
    ensures
        (r.authenticated, opt_chars(r.reply)) == auth_decision(
            match message {
                Some(t) => Some(t@),
                None => None,
            },
            api_keys@.map_values(|k: String| k@),
        ),
{
    let text = match message {
        Some(t) => t,
        None => {
            return AuthOutcome { authenticated: false, reply: None };
        },
    };
    let doc = match JsonDoc::parse(text) {
        Some(d) => d,
        None => {
            return AuthOutcome { authenticated: false, reply: None };
        },
    };
    let auth = String::from_str("auth");
    let is_auth = match doc.member_str("type") {
        Some(t) => t == auth,
        None => false,
    };
    if !is_auth {
        return AuthOutcome {
            authenticated: false,
            reply: Some(auth_fail_message("first message must be auth")),
        };
    }
    let key = match doc.member_str("api_key") {
        Some(k) => k,
        None => String::new(),
    };
    if key_listed(api_keys, &key) {
        AuthOutcome { authenticated: true, reply: Some(auth_ok_message()) }
    } else {
        AuthOutcome { authenticated: false, reply: Some(auth_fail_message("invalid api_key")) }
    }
}

/// A client is authenticated exactly when it is answered `auth_ok`; a
/// client that is not is answered a refusal or nothing.
pub proof fn lemma_auth_ok_iff_authenticated(message: Option<Seq<char>>, keys: Seq<Seq<char>>)
    ensures
        auth_decision(message, keys).0 <==> auth_decision(message, keys).1 == Some(auth_ok_text()),
{
    reveal_strlit("{\"type\":\"auth_ok\"}");
    reveal_strlit("{\"reason\":");
    let (ok, reply) = auth_decision(message, keys);
    if !ok {
        if let Some(r) = reply {
            let reason = if message matches Some(t) && json_member_str(t, "type"@) != Some(
                "auth"@,
            ) {
                "first message must be auth"@
            } else {
                "invalid api_key"@
            };
            assert(r == auth_fail_text(reason));
            assert(r[2] == 'r');
            assert(auth_ok_text()[2] == 't');
        }
    }
}

/// A configured key always gets in; a request that is not an `auth`
/// request never does.
pub proof fn lemma_auth_by_key(text: Seq<char>, keys: Seq<Seq<char>>)
    requires
        json_parses(text),
    ensures
        (json_member_str(text, "type"@) == Some("auth"@) && (json_member_str(text, "api_key"@) matches Some(k)
            && keys.contains(k))) ==> auth_decision(Some(text), keys).0,
        json_member_str(text, "type"@) != Some("auth"@) ==> !auth_decision(Some(text), keys).0,
{
}

// ------------------------------------------------------------------
// Connections
// ------------------------------------------------------------------

/// Hands out connection ids: 1, 2, 3, ...
pub struct IdAllocator {
    next: u64,
}

impl IdAllocator {
    /// The id the next connection gets.
    pub closed spec fn next_id(self) -> u64 {
        self.next
    }

    pub fn new() -> (a: IdAllocator)
        ensures
            a.next_id() == 1,
    {
        IdAllocator { next: 1 }
    }

    /// Whether another id can be handed out without overflow.
    pub fn can_allocate(&self) -> (b: bool)
        ensures
            b == (self.next_id() < u64::MAX),
    {
        self.next < u64::MAX
    }

    /// The id of a new connection; ids only increase, so none is handed out
    /// twice.
    pub fn allocate(&mut self) -> (id: u64)
        requires
            old(self).next_id() < u64::MAX,
        ensures
            id == old(self).next_id(),
            final(self).next_id() == id + 1,
    {
        let id = self.next;
        self.next = id + 1;
        id
    }
}

/// Over a run of accepted connections, a fresh allocator hands out 1, 2,
/// 3, ...: the `i`-th id (from 0) is `i + 1`, so ids increase and no two
/// connections share one. `states[i]` is the allocator before the `i`-th
/// allocation and `ids[i]` what `allocate` returned.
pub proof fn lemma_ids_over_a_run(states: Seq<IdAllocator>, ids: Seq<u64>)
    requires
        states.len() == ids.len() + 1,
        states[0].next_id() == 1,
        forall|i: int|
            0 <= i < ids.len() ==> #[trigger] ids[i] == states[i].next_id() && states[i + 1].next_id()
                == ids[i] + 1,
    ensures
        forall|i: int| 0 <= i < ids.len() ==> #[trigger] ids[i] == i + 1,
        forall|i: int, j: int| 0 <= i < j < ids.len() ==> #[trigger] ids[i] < #[trigger] ids[j],
{
    assert forall|i: int| 0 <= i <= ids.len() implies #[trigger] states[i].next_id() == i + 1 by {
        lemma_next_id_after(states, ids, i);
    }
    assert forall|i: int| 0 <= i < ids.len() implies #[trigger] ids[i] == i + 1 by {
        assert(states[i].next_id() == i + 1);
    }
}

proof fn lemma_next_id_after(states: Seq<IdAllocator>, ids: Seq<u64>, i: int)
    requires
        states.len() == ids.len() + 1,
        states[0].next_id() == 1,
        forall|k: int|
            0 <= k < ids.len() ==> #[trigger] ids[k] == states[k].next_id() && states[k + 1].next_id()
                == ids[k] + 1,
        0 <= i <= ids.len(),
    ensures
        states[i].next_id() == i + 1,
    decreases i,
{
    if i > 0 {
        lemma_next_id_after(states, ids, i - 1);
        assert(ids[i - 1] == states[i - 1].next_id());
    }
}

/// The authenticated clients, by connection id, with what is needed to
/// send to each.
pub struct ClientRegistry<T> {
    clients: HashMap<u64, T>,
}

impl<T> ClientRegistry<T> {
    pub closed spec fn view(self) -> Map<u64, T> {
        self.clients@
    }

    pub fn new() -> (r: ClientRegistry<T>)
        ensures
            r.view() == Map::<u64, T>::empty(),
    {
        broadcast use vstd::std_specs::hash::group_hash_axioms;

        ClientRegistry { clients: HashMap::new() }
    }

    /// A client has authenticated.
    pub fn register(&mut self, id: u64, sender: T)
        ensures
            final(self).view() == old(self).view().insert(id, sender),
    {
        broadcast use vstd::std_specs::hash::group_hash_axioms;

        self.clients.insert(id, sender);
    }

    /// A client has gone.
    pub fn unregister(&mut self, id: u64)
        ensures
            final(self).view() == old(self).view().remove(id),
    {
        broadcast use vstd::std_specs::hash::group_hash_axioms;

        self.clients.remove(&id);
    }

    pub fn get(&self, id: u64) -> (r: Option<&T>)
        ensures
            match r {
                Some(s) => self.view().contains_key(id) && *s == self.view()[id],
                None => !self.view().contains_key(id),
            },
    {
        broadcast use vstd::std_specs::hash::group_hash_axioms;

        self.clients.get(&id)
    }

    /// The ids of all registered clients, each once.
    pub fn ids(&self) -> (r: Vec<u64>)
        ensures
            r@.to_set() == self.view().dom(),
            r@.no_duplicates(),
    {
        broadcast use vstd::std_specs::hash::group_hash_axioms;

        let mut r: Vec<u64> = Vec::new();
        let keys = self.clients.keys();
        let ghost all = keys.remaining().unref();
        assert(all.to_set() == self.clients@.dom());
        for k in it: keys
            invariant
                all == it.seq().unref(),
                r@ == it.seq().unref().take(it.index() as int),
                it.seq().unref().to_set() == self.clients@.dom(),
                it.seq().unref().no_duplicates(),
        {
            assert(it.seq().unref().take(it.index() + 1) == it.seq().unref().take(it.index() as int).push(*k));
            r.push(*k);
        }
        assert(r@ == all);
        r
    }
}

/// The client and outcome of each delivery, in order.
pub open spec fn outcomes_of(ds: Seq<Delivery>) -> Seq<(u64, bool)> {
    ds.map_values(|d: Delivery| (d.client(), d.is_delivered()))
}

/// The clients of `dom` that some outcome reports as not reached.
pub open spec fn failed_clients(dom: Set<u64>, outcomes: Seq<(u64, bool)>) -> Set<u64> {
    Set::new(|id: u64| dom.contains(id) && outcomes.contains((id, false)))
}

/// Over a hand-over that names each registered client once, a client is
/// still registered afterwards exactly when its delivery went through, and
/// then with the same sender.
pub proof fn lemma_kept_iff_delivered<T>(m: Map<u64, T>, ds: Seq<Delivery>, id: u64)
    requires
        ds.map_values(|d: Delivery| d.client()).to_set() == m.dom(),
        ds.map_values(|d: Delivery| d.client()).no_duplicates(),
    ensures
        m.remove_keys(failed_clients(m.dom(), outcomes_of(ds))).dom().contains(id) <==> exists|k: int|
            0 <= k < ds.len() && (#[trigger] ds[k]).client() == id && ds[k].is_delivered(),
        m.remove_keys(failed_clients(m.dom(), outcomes_of(ds))).dom().contains(id) ==> m.remove_keys(
            failed_clients(m.dom(), outcomes_of(ds)),
        )[id] == m[id],
{
    let clients = ds.map_values(|d: Delivery| d.client());
    let outs = outcomes_of(ds);
    let failed = failed_clients(m.dom(), outs);
    if m.dom().contains(id) {
        assert(clients.to_set().contains(id));
        let k = choose|k: int| 0 <= k < clients.len() && clients[k] == id;
        assert(ds[k].client() == id);
        assert(outs[k] == (ds[k].client(), ds[k].is_delivered()));
        assert forall|j: int| 0 <= j < ds.len() && (#[trigger] ds[j]).client() == id implies j == k by {
            assert(clients[j] == id);
        }
        if ds[k].is_delivered() {
            if outs.contains((id, false)) {
                let j = choose|j: int| 0 <= j < outs.len() && outs[j] == (id, false);
                assert(outs[j] == (ds[j].client(), ds[j].is_delivered()));
                assert(j == k);
            }
            assert(!failed.contains(id));
        } else {
            assert(outs.contains((id, false)));
            assert(failed.contains(id));
        }
    } else {
        assert forall|k: int| 0 <= k < ds.len() implies (#[trigger] ds[k]).client() != id by {
            assert(clients[k] == ds[k].client());
            assert(clients.to_set().contains(clients[k]));
        }
    }
}

impl<T> ClientRegistry<T> {
    /// Drops every registered client that an outcome reports as not
    /// reached, and returns the ids dropped, each once. Every other client
    /// stays as it was.
    pub fn drop_undelivered(&mut self, outcomes: &Vec<(u64, bool)>) -> (dropped: Vec<u64>)
        ensures
            dropped@.to_set() == failed_clients(old(self).view().dom(), outcomes@),
            dropped@.no_duplicates(),
            final(self).view() == old(self).view().remove_keys(dropped@.to_set()),
    {
        let mut dropped: Vec<u64> = Vec::new();
        let mut i: usize = 0;
        while i < outcomes.len()
            invariant
                i <= outcomes.len(),
                dropped@.no_duplicates(),
                dropped@.to_set() == failed_clients(old(self).view().dom(), outcomes@.take(i as int)),
                self.view() == old(self).view().remove_keys(dropped@.to_set()),
            decreases outcomes.len() - i,
        {
            let (id, ok) = outcomes[i];
            let ghost before = dropped@;
            let ghost seen = outcomes@.take(i as int);
            let ghost next = outcomes@.take(i + 1);
            proof {
                assert(next == seen.push((id, ok)));
                vstd::seq_lib::lemma_seq_contains_after_push(seen, (id, ok), (id, false));
            }
            if !ok && self.get(id).is_some() {
                proof {
                    assert(!before.to_set().contains(id));
                    assert(!before.contains(id));
                }
                self.unregister(id);
                dropped.push(id);
                proof {
                    before.lemma_push_to_set_commute(id);
                    assert forall|x: u64| #[trigger] failed_clients(old(self).view().dom(), next).contains(x)
                        <==> failed_clients(old(self).view().dom(), seen).insert(id).contains(x) by {
                        vstd::seq_lib::lemma_seq_contains_after_push(seen, (id, ok), (x, false));
                    }
                    assert(failed_clients(old(self).view().dom(), next) =~= failed_clients(old(self).view().dom(), seen).insert(id));
                    assert(old(self).view().remove_keys(before.to_set().insert(id))
                        =~= old(self).view().remove_keys(before.to_set()).remove(id));
                }
            } else {
                proof {
                    assert forall|x: u64| #[trigger] failed_clients(old(self).view().dom(), next).contains(x)
                        <==> failed_clients(old(self).view().dom(), seen).contains(x) by {
                        vstd::seq_lib::lemma_seq_contains_after_push(seen, (id, ok), (x, false));
                        if x == id && !ok && old(self).view().dom().contains(x) {
                            assert(!self.view().dom().contains(id));
                            assert(before.to_set().contains(id));
                        }
                    }
                    assert(failed_clients(old(self).view().dom(), next) =~= failed_clients(old(self).view().dom(), seen));
                }
            }
            i += 1;
        }
        assert(outcomes@.take(outcomes.len() as int) == outcomes@);
        dropped
    }
}

impl ClientRegistry<tokio::sync::mpsc::UnboundedSender<String>> {
    /// Hands `message` to the queue of every registered client, once each,
    /// and returns the record of each hand-over.
    pub fn send_all(&self, message: &String) -> (ds: Vec<Delivery>)
        ensures
            ds@.map_values(|d: Delivery| d.client()).to_set() == self.view().dom(),
            ds@.map_values(|d: Delivery| d.client()).no_duplicates(),
            forall|k: int| 0 <= k < ds@.len() ==> (#[trigger] ds@[k]).text() == message@,
    {
        let ids = self.ids();
        let mut ds: Vec<Delivery> = Vec::new();
        let mut i: usize = 0;
        while i < ids.len()
            invariant
                i <= ids.len(),
                ids@.to_set() == self.view().dom(),
                ds@.len() == i,
                forall|k: int| 0 <= k < i ==> (#[trigger] ds@[k]).client() == ids@[k] && ds@[k].text() == message@,
            decreases ids.len() - i,
        {
            let id = ids[i];
            proof {
                assert(ids@.contains(id));
                assert(ids@.to_set().contains(id));
            }
            match self.get(id) {
                Some(tx) => {
                    let d = send_to_client(id, tx, message);
                    ds.push(d);
                },
                None => {
                    proof {
                        assert(false);
                    }
                },
            }
            i += 1;
        }
        assert(ds@.map_values(|d: Delivery| d.client()) =~= ids@);
        ds
    }

    /// Sends `message` to every registered client and drops the clients
    /// whose queue did not take it (their connection is gone); returns the
    /// record of each hand-over. Every client that was reached stays as it
    /// was, and nothing is added.
    pub fn broadcast(&mut self, message: &String) -> (ds: Vec<Delivery>)
        ensures
            ds@.map_values(|d: Delivery| d.client()).to_set() == old(self).view().dom(),
            ds@.map_values(|d: Delivery| d.client()).no_duplicates(),
            forall|k: int| 0 <= k < ds@.len() ==> (#[trigger] ds@[k]).text() == message@,
            final(self).view() == old(self).view().remove_keys(
                failed_clients(old(self).view().dom(), outcomes_of(ds@)),
            ),
    {
        let ds = self.send_all(message);
        let mut outcomes: Vec<(u64, bool)> = Vec::new();
        let mut i: usize = 0;
        while i < ds.len()
            invariant
                i <= ds.len(),
                outcomes@ == outcomes_of(ds@.take(i as int)),
            decreases ds.len() - i,
        {
            outcomes.push(ds[i].outcome());
            assert(outcomes_of(ds@.take(i + 1)) =~= outcomes_of(ds@.take(i as int)).push((ds@[i as int].client(), ds@[i as int].is_delivered())));
            i += 1;
        }
        assert(ds@.take(ds.len() as int) == ds@);
        let _dropped = self.drop_undelivered(&outcomes);
        ds
    }
}

/// What a connection's writer is woken by.
pub enum WriterEvent {
    /// The heartbeat timer.
    Heartbeat,
    /// A message queued for this client.
    Queued(String),
    /// The queue was closed.
    QueueClosed,
}

/// What the writer does.
pub enum WriterAction {
    Send(String),
    Stop,
}

/// The writer sends a pong on each heartbeat and every queued message, and
/// stops when its queue closes.
pub fn writer_step(event: WriterEvent) -> (a: WriterAction)
    ensures
        match event {
            WriterEvent::Heartbeat => a matches WriterAction::Send(m) && m@ == pong_text(),
            WriterEvent::Queued(t) => a matches WriterAction::Send(m) && m@ == t@,
            WriterEvent::QueueClosed => a is Stop,
        },
{
    match event {
        WriterEvent::Heartbeat => WriterAction::Send(pong_message()),
        WriterEvent::Queued(t) => WriterAction::Send(t),
        WriterEvent::QueueClosed => WriterAction::Stop,
    }
}

/// What a connection's reader receives.
#[derive(Clone, Copy, Debug, PartialEq, Eq, Structural)]
pub enum ReaderEvent {
    Text,
    Close,
    Error,
    Other,
}

/// The reader goes on until the client closes or the connection fails;
/// text (pings included) and other frames are read and dropped.
pub fn reader_continues(event: ReaderEvent) -> (b: bool)
    ensures
        b == !(event == ReaderEvent::Close || event == ReaderEvent::Error),
{
    match event {
        ReaderEvent::Close | ReaderEvent::Error => false,
        ReaderEvent::Text | ReaderEvent::Other => true,
    }
}

} // verus!
