//! Finding a verification code in a message: the configured regular
//! expressions are tried in priority order, first on the subject and then on
//! the body; only when none matches may the language-model fallback be
//! asked. This module also frames the fallback's request and reads its reply.
use vstd::prelude::*;
use vstd::string::StringSliceAdditionalSpecFns;
use vstd::utf8::{decode_utf8, is_char_boundary};
use crate::config::LlmFallbackConfig;
use crate::json::{json_parses, json_str_at, JsonDoc, JsonStep};
use crate::text::{
    chars_eq_ignore_ascii_case, eq_ignore_ascii_case, occurs_in, opt_chars, push_chars, strings_view,
    to_chars, trim, trim_bounds,
};

verus! {

#[verifier::external_type_specification]
#[verifier::external_body]
pub struct ExRegex(regex::Regex);

/// Whether `regex::Regex::new` accepts `pattern`.
pub uninterp spec fn regex_compiles(pattern: Seq<char>) -> bool;

/// The text of the leftmost-first match of the regular expression `pattern`
/// in `haystack` (`Regex::find`, then `Match::as_str`), if there is one.
pub uninterp spec fn regex_first_match(pattern: Seq<char>, haystack: Seq<char>) -> Option<Seq<char>>;

/// A regular expression together with the source text it was compiled from.
pub struct CompiledPattern {
    source: String,
    regex: regex::Regex,
}

impl View for CompiledPattern {
    type V = Seq<char>;

    closed spec fn view(&self) -> Seq<char> {
        self.source@
    }
}

impl CompiledPattern {
    /// Compiles `pattern` with `regex::Regex::new`: `Some` exactly when the
    /// regex crate accepts the pattern, and then the pattern remembers its
    /// source.
    #[verifier::external_body]
    fn new(pattern: &str) -> (r: Option<CompiledPattern>)
        ensures
            r is Some <==> regex_compiles(pattern@),
            r matches Some(p) ==> p@ == pattern@,
    {
        match regex::Regex::new(pattern) {
            Ok(regex) => Some(CompiledPattern { source: pattern.to_string(), regex }),
            Err(_) => None,
        }
    }

    /// `Regex::find` on `haystack`, the match taken as text with
    /// `Match::as_str`: the result is the named leftmost-first match of the
    /// pattern's source, and (as the regex crate documents for `as_str`) a
    /// run of characters of `haystack`.
    #[verifier::external_body]
    fn find(&self, haystack: &str) -> (r: Option<String>)
        ensures
            r matches Some(m) ==> regex_first_match(self@, haystack@) == Some(m@) && occurs_in(
                m@,
                haystack@,
            ),
            r is None ==> regex_first_match(self@, haystack@) is None,
    {
        match self.regex.find(haystack) {
            Some(m) => Some(m.as_str().to_string()),
            None => None,
        }
    }
}

/// The sources of a list of compiled patterns.
pub open spec fn pattern_sources(ps: Seq<CompiledPattern>) -> Seq<Seq<char>> {
    ps.map_values(|p: CompiledPattern| p@)
}

/// The sources that compile, in the order given.
pub open spec fn compilable(sources: Seq<Seq<char>>) -> Seq<Seq<char>>
    decreases sources.len(),
{
    if sources.len() == 0 {
        Seq::empty()
    } else if regex_compiles(sources.last()) {
        compilable(sources.drop_last()).push(sources.last())
    } else {
        compilable(sources.drop_last())
    }
}

/// Compiles the configured patterns, dropping those the regex crate
/// refuses and keeping the others in order.
pub fn compile_patterns(sources: &Vec<String>) -> (r: Vec<CompiledPattern>)
    ensures
        pattern_sources(r@) == compilable(strings_view(sources@)),
{
    let mut r: Vec<CompiledPattern> = Vec::new();
    let mut i: usize = 0;
    while i < sources.len()
        invariant
            i <= sources.len(),
            pattern_sources(r@) == compilable(strings_view(sources@).take(i as int)),
        decreases sources.len() - i,
    {
        let ghost before = strings_view(sources@).take(i as int);
        let ghost after = strings_view(sources@).take(i + 1);
        assert(after.drop_last() == before);
        assert(after.last() == sources@[i as int]@);
        match CompiledPattern::new(sources[i].as_str()) {
            Some(p) => {
                r.push(p);
                assert(pattern_sources(r@) == pattern_sources(r@.drop_last()).push(p@));
                assert(r@.drop_last() == r@.take(r@.len() - 1));
            },
            None => {},
        }
        i += 1;
    }
    assert(strings_view(sources@).take(sources.len() as int) == strings_view(sources@));
    r
}

/// The first match, trying the patterns in order.
pub open spec fn first_match(patterns: Seq<Seq<char>>, haystack: Seq<char>) -> Option<Seq<char>>
    decreases patterns.len(),
{
    if patterns.len() == 0 {
        None
    } else {
        match regex_first_match(patterns[0], haystack) {
            Some(m) => Some(m),
            None => first_match(patterns.drop_first(), haystack),
        }
    }
}

/// The code that the patterns find: the first pattern that matches the
/// subject decides; only if none does is the body searched the same way.
pub open spec fn extraction(subject: Seq<char>, body: Seq<char>, patterns: Seq<Seq<char>>) -> Option<
    Seq<char>,
> {
    match first_match(patterns, subject) {
        Some(m) => Some(m),
        None => first_match(patterns, body),
    }
}

/// Patterns are tried in priority order: once one of them matches, the
/// patterns listed after them make no difference.
pub proof fn lemma_pattern_priority(patterns: Seq<Seq<char>>, later: Seq<Seq<char>>, haystack: Seq<char>)
    requires
        first_match(patterns, haystack) is Some,
    ensures
        first_match(patterns + later, haystack) == first_match(patterns, haystack),
    decreases patterns.len(),
{
    assert((patterns + later)[0] == patterns[0]);
    if regex_first_match(patterns[0], haystack) is None {
        assert((patterns + later).drop_first() == patterns.drop_first() + later);
        lemma_pattern_priority(patterns.drop_first(), later, haystack);
    }
}

/// The subject is searched first: when some pattern matches it, the body
/// makes no difference.
pub proof fn lemma_subject_before_body(
    subject: Seq<char>,
    body: Seq<char>,
    other_body: Seq<char>,
    patterns: Seq<Seq<char>>,
)
    requires
        first_match(patterns, subject) is Some,
    ensures
        extraction(subject, body, patterns) == extraction(subject, other_body, patterns),
        extraction(subject, body, patterns) == first_match(patterns, subject),
{
}

/// The patterns are tried in listed order: the result is the match of the
/// first listed pattern that matches, and nothing when none matches.
proof fn lemma_first_match_is_first(patterns: Seq<Seq<char>>, haystack: Seq<char>)
    ensures
        forall|i: int|
            0 <= i < patterns.len() && regex_first_match(patterns[i], haystack) is Some && (forall|j: int|
                0 <= j < i ==> regex_first_match(#[trigger] patterns[j], haystack) is None)
                ==> first_match(patterns, haystack) == regex_first_match(#[trigger] patterns[i], haystack),
        (forall|i: int| 0 <= i < patterns.len() ==> regex_first_match(#[trigger] patterns[i], haystack) is None)
            <==> first_match(patterns, haystack) is None,
    decreases patterns.len(),
{
    if patterns.len() > 0 {
        let rest = patterns.drop_first();
        lemma_first_match_is_first(rest, haystack);
        assert forall|i: int|
            0 <= i < patterns.len() && regex_first_match(patterns[i], haystack) is Some && (forall|j: int|
                0 <= j < i ==> regex_first_match(#[trigger] patterns[j], haystack) is None)
                implies first_match(patterns, haystack) == regex_first_match(#[trigger] patterns[i], haystack) by {
            if i > 0 {
                assert(regex_first_match(patterns[0], haystack) is None);
                assert(rest[i - 1] == patterns[i]);
                assert forall|j: int| 0 <= j < i - 1 implies regex_first_match(#[trigger] rest[j], haystack) is None by {
                    assert(rest[j] == patterns[j + 1]);
                }
            }
        }
        if forall|i: int| 0 <= i < patterns.len() ==> regex_first_match(#[trigger] patterns[i], haystack) is None {
            assert(regex_first_match(patterns[0], haystack) is None);
            assert forall|i: int| 0 <= i < rest.len() implies regex_first_match(#[trigger] rest[i], haystack) is None by {
                assert(rest[i] == patterns[i + 1]);
            }
        }
        if first_match(patterns, haystack) is None {
            assert forall|i: int| 0 <= i < patterns.len() implies regex_first_match(#[trigger] patterns[i], haystack) is None by {
                if i > 0 {
                    assert(rest[i - 1] == patterns[i]);
                }
            }
        }
    }
}

/// What extraction finds, in terms of each pattern's own match: when some
/// pattern matches the subject, the match of the first such pattern in the
/// listed order; when none matches the subject, the match of the first
/// listed pattern that matches the body; when none matches either, nothing.
pub proof fn lemma_extraction_in_priority_order(subject: Seq<char>, body: Seq<char>, patterns: Seq<Seq<char>>)
    ensures
        forall|i: int|
            0 <= i < patterns.len() && regex_first_match(patterns[i], subject) is Some && (forall|j: int|
                0 <= j < i ==> regex_first_match(#[trigger] patterns[j], subject) is None)
                ==> extraction(subject, body, patterns) == regex_first_match(#[trigger] patterns[i], subject),
        (forall|j: int| 0 <= j < patterns.len() ==> regex_first_match(#[trigger] patterns[j], subject) is None)
            ==> forall|i: int|
            0 <= i < patterns.len() && regex_first_match(patterns[i], body) is Some && (forall|j: int|
                0 <= j < i ==> regex_first_match(#[trigger] patterns[j], body) is None)
                ==> extraction(subject, body, patterns) == regex_first_match(#[trigger] patterns[i], body),
        (forall|j: int|
            0 <= j < patterns.len() ==> regex_first_match(#[trigger] patterns[j], subject) is None
                && regex_first_match(patterns[j], body) is None) ==> extraction(subject, body, patterns) is None,
{
    lemma_first_match_is_first(patterns, subject);
    lemma_first_match_is_first(patterns, body);
    if forall|j: int|
        0 <= j < patterns.len() ==> regex_first_match(#[trigger] patterns[j], subject) is None
            && regex_first_match(patterns[j], body) is None {
        assert forall|j: int| 0 <= j < patterns.len() implies regex_first_match(#[trigger] patterns[j], body) is None by {}
    }
}

fn find_first(haystack: &str, patterns: &[CompiledPattern]) -> (r: Option<String>)
    ensures
        r matches Some(m) ==> first_match(pattern_sources(patterns@), haystack@) == Some(m@)
            && occurs_in(m@, haystack@),
        r is None ==> first_match(pattern_sources(patterns@), haystack@) is None,
{
    let ghost all = pattern_sources(patterns@);
    let mut i: usize = 0;
    assert(all.subrange(0, all.len() as int) == all);
    while i < patterns.len()
        invariant
            i <= patterns@.len() == all.len(),
            all == pattern_sources(patterns@),
            first_match(all, haystack@) == first_match(all.subrange(i as int, all.len() as int), haystack@),
        decreases patterns.len() - i,
    {
        let ghost rest = all.subrange(i as int, all.len() as int);
        assert(rest[0] == patterns@[i as int]@);
        assert(rest.drop_first() == all.subrange(i + 1, all.len() as int));
        let m = patterns[i].find(haystack);
        if m.is_some() {
            return m;
        }
        i += 1;
    }
    None
}

/// Finds a verification code: the first pattern that matches the subject,
/// else the first that matches the body. A code found is always a run of
/// characters of the subject or of the body.
pub fn extract(subject: &str, body: &str, patterns: &[CompiledPattern]) -> (r: Option<String>)
    ensures
        r is Some <==> extraction(subject@, body@, pattern_sources(patterns@)) is Some,
        r matches Some(c) ==> extraction(subject@, body@, pattern_sources(patterns@)) == Some(c@),
        r matches Some(c) ==> occurs_in(c@, subject@) || occurs_in(c@, body@),
{
    let s = find_first(subject, patterns);
    if s.is_some() {
        return s;
    }
    find_first(body, patterns)
}

/// What to do for a message once the patterns have been tried.
pub enum ExtractionStep {
    /// A pattern found this code.
    Found(String),
    /// No code, and the fallback is not to be asked.
    NotFound,
    /// No pattern matched; the language-model fallback is to be asked.
    AskLlm,
}

/// The patterns first; the fallback only when they all fail and it is
/// enabled with a non-empty API key.
pub fn extract_or_defer(
    subject: &str,
    body: &str,
    patterns: &[CompiledPattern],
    llm: &LlmFallbackConfig,
) -> (step: ExtractionStep)
    ensures
        match extraction(subject@, body@, pattern_sources(patterns@)) {
            Some(c) => step matches ExtractionStep::Found(code) && code@ == c,
            None => if llm.enabled && llm.api_key@.len() > 0 {
                step is AskLlm
            } else {
                step is NotFound
            },
        },
{
    match extract(subject, body, patterns) {
        Some(code) => ExtractionStep::Found(code),
        None => {
            if !llm.enabled || llm.api_key.as_str().is_empty() {
                ExtractionStep::NotFound
            } else {
                ExtractionStep::AskLlm
            }
        },
    }
}

/// The code read from the fallback's answer: the answer trimmed, unless it
/// is empty or says `NONE` in any ASCII case.
pub open spec fn llm_answer_code(answer: Seq<char>) -> Option<Seq<char>> {
    let t = trim(answer);
    if eq_ignore_ascii_case(t, "NONE"@) || t.len() == 0 {
        None
    } else {
        Some(t)
    }
}

pub fn interpret_llm_answer(answer: &str) -> (r: Option<String>)
    ensures
        r is Some <==> llm_answer_code(answer@) is Some,
        r matches Some(c) ==> llm_answer_code(answer@) == Some(c@),
{
    let v = to_chars(answer);
    let (a, b) = trim_bounds(&v);
    let mut t = String::new();
    push_chars(&mut t, &v, a, b);
    let tv = to_chars(t.as_str());
    let none = to_chars("NONE");
    if chars_eq_ignore_ascii_case(&tv, &none) || a == b {
        None
    } else {
        Some(t)
    }
}

/// Where a chat-completions response holds the answer:
/// `choices[0].message.content`.
pub open spec fn completion_path() -> Seq<JsonStep> {
    seq![
        JsonStep::Key("choices"@),
        JsonStep::Index(0),
        JsonStep::Key("message"@),
        JsonStep::Key("content"@),
    ]
}

/// The code in the fallback's response body: the string at
/// `choices[0].message.content`, read as `llm_answer_code` reads an
/// answer; nothing when the body is not JSON or holds no such string.
pub open spec fn llm_response_code(body: Seq<char>) -> Option<Seq<char>> {
    if !json_parses(body) {
        None
    } else {
        match json_str_at(body, completion_path()) {
            Some(answer) => llm_answer_code(answer),
            None => None,
        }
    }
}

/// Reads the code out of the fallback's response body.
pub fn llm_answer_from_response(body: &str) -> (r: Option<String>)
    ensures
        opt_chars(r) == llm_response_code(body@),
{
    let doc = match JsonDoc::parse(body) {
        Some(d) => d,
        None => {
            return None;
        },
    };
    match doc.nested_str("choices", 0, "message", "content") {
        Some(answer) => interpret_llm_answer(answer.as_str()),
        None => None,
    }
}

/// The first `limit` bytes of `s` (all of it when shorter), as text.
pub open spec fn byte_prefix(s: &str, limit: nat) -> Seq<char> {
    let bytes = s.spec_bytes();
    decode_utf8(bytes.take(if bytes.len() < limit { bytes.len() as int } else { limit as int }))
}

/// `limit` falls inside `s` only on a character boundary (slicing there
/// does not panic).
pub open spec fn cut_is_safe(s: &str, limit: nat) -> bool {
    s.spec_bytes().len() <= limit || is_char_boundary(s.spec_bytes(), limit as int)
}

fn bytes_prefix(s: &str, limit: usize) -> (r: &str)
    requires
        cut_is_safe(s, limit as nat),
    ensures
        r@ == byte_prefix(s, limit as nat),
{
    let len = s.as_bytes().len();
    let n = if len < limit {
        len
    } else {
        limit
    };
    let ghost bytes = s.spec_bytes();
    proof {
        vstd::utf8::encode_utf8_valid_utf8(s@);
        vstd::utf8::is_char_boundary_start_end_of_seq(bytes);
        assert(len == bytes.len());
        if n == bytes.len() {
            assert(is_char_boundary(bytes, bytes.len() as int));
        }
        assert(is_char_boundary(bytes, n as int));
    }
    let (head, _) = s.split_at(n);
    proof {
        vstd::utf8::encode_utf8_decode_utf8(head@);
        assert(head.spec_bytes() == bytes.take(n as int));
        assert(decode_utf8(head.spec_bytes()) == head@);
    }
    head
}

/// The user message sent to the fallback: the subject cut to 200 bytes and
/// the body cut to 500 bytes.
pub fn llm_prompt(subject: &str, body: &str) -> (r: String)
    requires
        cut_is_safe(subject, 200),
        cut_is_safe(body, 500),
    ensures
        r@ == "Subject: "@ + byte_prefix(subject, 200) + "\n\nBody: "@ + byte_prefix(body, 500),
{
    let mut r = String::from_str("Subject: ");
    r.append(bytes_prefix(subject, 200));
    r.append("\n\nBody: ");
    r.append(bytes_prefix(body, 500));
    r
}

/// `s` without its trailing `/` characters.
pub open spec fn strip_trailing_slashes(s: Seq<char>) -> Seq<char>
    decreases s.len(),
{
    if s.len() > 0 && s.last() == '/' {
        strip_trailing_slashes(s.drop_last())
    } else {
        s
    }
}

/// The chat-completions endpoint under the configured base URL.
pub fn llm_endpoint(base_url: &str) -> (r: String)
    ensures
        r@ == strip_trailing_slashes(base_url@) + "/chat/completions"@,
{
    let v = to_chars(base_url);
    let mut n = v.len();
    assert(v@.subrange(0, n as int) == v@);
    while n > 0 && v[n - 1] == '/'
        invariant
            n <= v.len(),
            v@ == base_url@,
            strip_trailing_slashes(base_url@) == strip_trailing_slashes(v@.subrange(0, n as int)),
        decreases n,
    {
        assert(v@.subrange(0, n as int).drop_last() == v@.subrange(0, n - 1));
        n -= 1;
    }
    let mut r = String::new();
    push_chars(&mut r, &v, 0, n);
    r.append("/chat/completions");
    r
}

/// The `Authorization` header value for the fallback's API key.
pub fn llm_authorization(api_key: &str) -> (r: String)
    ensures
        r@ == "Bearer "@ + api_key@,
{
    let mut r = String::from_str("Bearer ");
    r.append(api_key);
    r
}

} // verus!
