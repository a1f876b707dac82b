//! The server's configuration: listening address, API keys, code-extraction
//! settings and the mailbox accounts, with the documented defaults, and the
//! record of one extracted verification code.
use vstd::prelude::*;
use crate::text::{is_digit, split_chars, split_on, string_from_chars, strings_view, to_chars, trim, trim_bounds};

verus! {

/// The whole configuration file.
#[derive(Debug, Clone)]
pub struct Config {
    pub bind: String,
    pub api_keys: Vec<String>,
    pub extraction: ExtractionConfig,
    pub accounts: Vec<AccountConfig>,
}

/// How verification codes are found in messages.
#[derive(Debug, Clone)]
pub struct ExtractionConfig {
    pub patterns: Vec<String>,
    pub llm_fallback: LlmFallbackConfig,
}

/// The optional language-model fallback used when no pattern matches.
#[derive(Debug, Clone)]
pub struct LlmFallbackConfig {
    pub enabled: bool,
    pub provider: String,
    pub api_key: String,
    pub model: String,
    pub base_url: String,
}

/// One mailbox to watch.
#[derive(Debug, Clone)]
pub struct AccountConfig {
    pub name: String,
    pub protocol: Protocol,
    pub host: String,
    pub port: u16,
    pub tls: bool,
    pub email: String,
    pub password: String,
    pub idle_timeout_minutes: u32,
    pub poll_interval_secs: u64,
}

/// How a mailbox is read.
#[derive(Debug, Clone, Copy, PartialEq, Eq, Structural)]
pub enum Protocol {
    Imap,
    Pop3,
}

/// A verification code found in a message, as pushed to the clients.
#[derive(Debug, Clone)]
pub struct CodeInfo {
    pub code: String,
    pub subject: String,
    pub from: String,
    pub time: String,
    pub account: String,
}

/// The default patterns, in priority order: six digits, two groups of four
/// digits joined by a dash, eight digits.
pub open spec fn default_pattern_sources() -> Seq<Seq<char>> {
    seq![r"\b\d{6}\b"@, r"\b\d{4}-\d{4}\b"@, r"\b\d{8}\b"@]
}

pub fn default_bind() -> (r: String)
    ensures
        r@ == "0.0.0.0:8080"@,
{
    String::from_str("0.0.0.0:8080")
}

pub fn default_patterns() -> (r: Vec<String>)
    ensures
        strings_view(r@) == default_pattern_sources(),
{
    let r = vec![
        String::from_str(r"\b\d{6}\b"),
        String::from_str(r"\b\d{4}-\d{4}\b"),
        String::from_str(r"\b\d{8}\b"),
    ];
    assert(strings_view(r@) =~= default_pattern_sources());
    r
}

pub fn default_llm_provider() -> (r: String)
    ensures
        r@ == "openai"@,
{
    String::from_str("openai")
}

pub fn default_llm_model() -> (r: String)
    ensures
        r@ == "gpt-4.1-mini"@,
{
    String::from_str("gpt-4.1-mini")
}

pub fn default_llm_base_url() -> (r: String)
    ensures
        r@ == "https://api.openai.com/v1"@,
{
    String::from_str("https://api.openai.com/v1")
}

pub fn default_imap_port() -> (r: u16)
    ensures
        r == 993,
{
    993
}

pub fn default_true() -> (r: bool)
    ensures
        r,
{
    true
}

pub fn default_idle_timeout() -> (r: u32)
    ensures
        r == 29,
{
    29
}

pub fn default_poll_interval() -> (r: u64)
    ensures
        r == 60,
{
    60
}

impl LlmFallbackConfig {
    /// The fallback as configured when the file says nothing of it: off,
    /// with no key, and the OpenAI defaults.
    pub open spec fn is_default(&self) -> bool {
        &&& !self.enabled
        &&& self.provider@ == "openai"@
        &&& self.api_key@ == Seq::<char>::empty()
        &&& self.model@ == "gpt-4.1-mini"@
        &&& self.base_url@ == "https://api.openai.com/v1"@
    }
}

impl Default for LlmFallbackConfig {
    fn default() -> (r: Self)
        ensures
            r.is_default(),
    {
        LlmFallbackConfig {
            enabled: false,
            provider: default_llm_provider(),
            api_key: String::new(),
            model: default_llm_model(),
            base_url: default_llm_base_url(),
        }
    }
}

impl Default for ExtractionConfig {
    fn default() -> (r: Self)
        ensures
            strings_view(r.patterns@) == default_pattern_sources(),
            r.llm_fallback.is_default(),
    {
        ExtractionConfig { patterns: default_patterns(), llm_fallback: LlmFallbackConfig::default() }
    }
}

/// The API keys given as one comma-separated list: each piece between
/// commas, trimmed.
pub open spec fn api_key_list(list: Seq<char>) -> Seq<Seq<char>> {
    split_on(list, ',').map_values(|p: Seq<char>| trim(p))
}

/// Splits a comma-separated list of API keys, trimming each one.
pub fn parse_api_keys(list: &str) -> (keys: Vec<String>)
    ensures
        strings_view(keys@) == api_key_list(list@),
{
    let chars = to_chars(list);
    let pieces = split_chars(&chars, ',');
    let mut keys: Vec<String> = Vec::new();
    let mut i: usize = 0;
    while i < pieces.len()
        invariant
            i <= pieces@.len() == split_on(list@, ',').len(),
            chars@ == list@,
            forall|k: int| 0 <= k < pieces@.len() ==> #[trigger] pieces@[k]@ == split_on(list@, ',')[k],
            keys@.len() == i,
            forall|k: int| 0 <= k < i ==> #[trigger] keys@[k]@ == trim(split_on(list@, ',')[k]),
        decreases pieces.len() - i,
    {
        let (a, b) = trim_bounds(&pieces[i]);
        keys.push(string_from_chars(&pieces[i], a, b));
        i += 1;
    }
    assert(strings_view(keys@) =~= api_key_list(list@));
    keys
}

/// Applies the overrides taken from the environment: a new listening
/// address, and a comma-separated list that replaces the API keys.
pub fn apply_overrides(config: &mut Config, bind: Option<String>, api_keys: Option<String>)
    ensures
        final(config).bind@ == (match bind {
            Some(b) => b@,
            None => old(config).bind@,
        }),
        strings_view(final(config).api_keys@) == (match api_keys {
            Some(k) => api_key_list(k@),
            None => strings_view(old(config).api_keys@),
        }),
        final(config).extraction == old(config).extraction,
        final(config).accounts == old(config).accounts,
{
    if let Some(b) = bind {
        config.bind = b;
    }
    if let Some(k) = api_keys {
        config.api_keys = parse_api_keys(k.as_str());
    }
}

/// The first second of year 0 and the last second of year 9999, as
/// seconds since the Unix epoch.
pub const FIRST_SECOND_OF_YEAR_0: i64 = -62167219200;

pub const LAST_SECOND_OF_YEAR_9999: i64 = 253402300799;

/// `YYYY-MM-DD HH:MM:SS`: nineteen characters, digits except for the two
/// dashes, the space and the two colons.
pub open spec fn is_timestamp_text(t: Seq<char>) -> bool {
    &&& t.len() == 19
    &&& t[4] == '-' && t[7] == '-' && t[10] == ' ' && t[13] == ':' && t[16] == ':'
    &&& forall|i: int|
        0 <= i < 19 && i != 4 && i != 7 && i != 10 && i != 13 && i != 16 ==> is_digit(
            #[trigger] t[i],
        )
}

/// The text chrono writes for the UTC time `secs` seconds after the Unix
/// epoch with the format `%Y-%m-%d %H:%M:%S` (`DateTime::from_timestamp`
/// with no nanoseconds, then `DateTime::format`); empty when the time lies
/// outside chrono's range.
pub uninterp spec fn utc_timestamp_text(secs: i64) -> Seq<char>;

/// Whole seconds since the Unix epoch on the system clock
/// (`SystemTime::now`, `SystemTime::duration_since(UNIX_EPOCH)`, then
/// `Duration::as_secs`); `None` when the clock reads before the epoch. It
/// reads the clock, so nothing more is stated.
#[verifier::external_body]
fn unix_clock_secs() -> Option<u64> {
    match std::time::SystemTime::now().duration_since(std::time::UNIX_EPOCH) {
        Ok(d) => Some(d.as_secs()),
        Err(_) => None,
    }
}

/// Formats a UTC time given in seconds since the epoch as
/// `YYYY-MM-DD HH:MM:SS` (`DateTime::from_timestamp` and
/// `DateTime::format`). For years 0 to 9999 chrono writes the year with four
/// digits and every other field with two, so the text has that shape.
#[verifier::external_body]
fn format_utc_timestamp(secs: i64) -> (r: String)
    ensures
        r@ == utc_timestamp_text(secs),
        FIRST_SECOND_OF_YEAR_0 <= secs <= LAST_SECOND_OF_YEAR_9999 ==> is_timestamp_text(r@),
{
    match chrono::DateTime::from_timestamp(secs, 0) {
        Some(t) => t.format("%Y-%m-%d %H:%M:%S").to_string(),
        None => String::new(),
    }
}

/// The record of a code found in a message of `account`, stamped with the
/// UTC time `secs` seconds after the epoch.
pub fn code_info_at(code: String, subject: String, from: String, account: &str, secs: i64) -> (info:
    CodeInfo)
    ensures
        info.code == code,
        info.subject == subject,
        info.from == from,
        info.account@ == account@,
        info.time@ == utc_timestamp_text(secs),
        FIRST_SECOND_OF_YEAR_0 <= secs <= LAST_SECOND_OF_YEAR_9999 ==> is_timestamp_text(info.time@),
{
    CodeInfo { code, subject, from, time: format_utc_timestamp(secs), account: String::from_str(account) }
}

/// The record of a code stamped with a clock reading: `None` when the
/// clock read before the epoch or beyond what a signed 64-bit count of
/// seconds holds; otherwise the record of `code_info_at` for that second.
pub fn code_info_from_clock(
    code: String,
    subject: String,
    from: String,
    account: &str,
    clock: Option<u64>,
) -> (r: Option<CodeInfo>)
    ensures
        match clock {
            Some(secs) => if secs <= i64::MAX {
                r matches Some(info) && {
                    &&& info.code == code
                    &&& info.subject == subject
                    &&& info.from == from
                    &&& info.account@ == account@
                    &&& info.time@ == utc_timestamp_text(secs as i64)
                    &&& secs <= LAST_SECOND_OF_YEAR_9999 ==> is_timestamp_text(info.time@)
                }
            } else {
                r is None
            },
            None => r is None,
        },
{
    match clock {
        Some(secs) => {
            if secs <= 0x7FFF_FFFF_FFFF_FFFF {
                Some(code_info_at(code, subject, from, account, secs as i64))
            } else {
                None
            }
        },
        None => None,
    }
}

/// The record of a code found in a message of `account`, stamped with the
/// current UTC time read from the clock, written `YYYY-MM-DD HH:MM:SS`
/// whenever the clock reads a year up to 9999. `None` when the clock cannot
/// be read as seconds after the epoch.
pub fn code_info_now(code: String, subject: String, from: String, account: &str) -> (r: Option<CodeInfo>)
    ensures
        r matches Some(info) ==> {
            &&& info.code == code
            &&& info.subject == subject
            &&& info.from == from
            &&& info.account@ == account@
            &&& exists|secs: i64|
                secs >= 0 && info.time@ == utc_timestamp_text(secs) && (secs
                    <= LAST_SECOND_OF_YEAR_9999 ==> is_timestamp_text(info.time@))
        },
{
    let clock = unix_clock_secs();
    let r = code_info_from_clock(code, subject, from, account, clock);
    proof {
        if let Some(secs) = clock {
            if secs <= i64::MAX {
                let s = secs as i64;
                assert(s >= 0 && r->0.time@ == utc_timestamp_text(s));
            }
        }
    }
    r
}

} // verus!
