//! The POP3 side of a poll: logging in, reading the `UIDL` listing to find
//! the messages not seen before, and reassembling a message sent after
//! `RETR`. The conversation is a state machine: the caller sends what it is
//! told to send and hands back each line the server sends.
use vstd::prelude::*;
use crate::text::{
    decimal, find_char, has_prefix, index_of, is_white_space, lemma_parse_decimal, parse_u32,
    parse_u32_chars, push_chars, trim_end, trim_start,
    push_decimal, starts_with, strings_view, to_chars, trim, trim_bounds, trim_str,
};

verus! {

// ------------------------------------------------------------------
// Lines and commands
// ------------------------------------------------------------------

/// A positive status line.
pub open spec fn status_ok(line: Seq<char>) -> bool {
    has_prefix(line, "+OK"@)
}

/// The line that ends a multi-line response.
pub open spec fn is_terminator(line: Seq<char>) -> bool {
    line == ".\r\n"@
}

/// A line of a multi-line response with its byte-stuffing dot removed.
pub open spec fn unstuffed(line: Seq<char>) -> Seq<char> {
    if line.len() > 0 && line[0] == '.' {
        line.drop_first()
    } else {
        line
    }
}

/// A line as the server byte-stuffs it before sending.
pub open spec fn stuffed(line: Seq<char>) -> Seq<char> {
    if line.len() > 0 && line[0] == '.' {
        seq!['.'] + line
    } else {
        line
    }
}

/// One entry of a `UIDL` listing, `msg-number unique-id`: the line trimmed
/// and cut at its first space; a number that does not parse counts as 0.
pub open spec fn uidl_entry(line: Seq<char>) -> Option<(u32, Seq<char>)> {
    let t = trim(line);
    match index_of(t, ' ', 0) {
        Some(k) => Some(
            (
                match parse_u32(t.take(k)) {
                    Some(n) => n,
                    None => 0,
                },
                t.skip(k + 1),
            ),
        ),
        None => None,
    }
}

fn line_is(line: &Vec<char>, want: &str) -> (b: bool)
    ensures
        b == (line@ == want@),
{
    let w = to_chars(want);
    if line.len() != w.len() {
        return false;
    }
    assert(line@.subrange(0, line@.len() as int) == line@);
    starts_with(line, &w)
}

fn is_ok_line(line: &Vec<char>) -> (b: bool)
    ensures
        b == status_ok(line@),
{
    let ok = to_chars("+OK");
    starts_with(line, &ok)
}

/// The error reported for a negative status line.
fn status_error(prefix: &str, line: &str) -> (r: String)
    ensures
        r@ == prefix@ + trim(line@),
{
    let mut r = String::from_str(prefix);
    r.append(trim_str(line).as_str());
    r
}

fn parse_uidl_entry(line: &Vec<char>) -> (r: Option<(u32, String)>)
    ensures
        match r {
            Some((n, u)) => uidl_entry(line@) == Some((n, u@)),
            None => uidl_entry(line@) is None,
        },
{
    let (a, b) = trim_bounds(line);
    let mut t: Vec<char> = Vec::new();
    let mut i = a;
    while i < b
        invariant
            a <= i <= b <= line.len(),
            t@ == line@.subrange(a as int, i as int),
        decreases b - i,
    {
        t.push(line[i]);
        i += 1;
    }
    assert(t@ == trim(line@));
    match find_char(&t, ' ', 0) {
        Some(k) => {
            assert(t@.take(k as int) == t@.subrange(0, k as int));
            let n = match parse_u32_chars(&t, 0, k) {
                Some(n) => n,
                None => 0,
            };
            let mut u = String::new();
            push_chars(&mut u, &t, k + 1, t.len());
            assert(t@.skip(k + 1) == t@.subrange(k + 1, t@.len() as int));
            Some((n, u))
        },
        None => None,
    }
}

/// `USER name`.
pub fn user_command(email: &str) -> (c: String)
    ensures
        c@ == "USER "@ + email@ + "\r\n"@,
{
    let mut c = String::from_str("USER ");
    c.append(email);
    c.append("\r\n");
    c
}

/// `PASS secret`.
pub fn pass_command(password: &str) -> (c: String)
    ensures
        c@ == "PASS "@ + password@ + "\r\n"@,
{
    let mut c = String::from_str("PASS ");
    c.append(password);
    c.append("\r\n");
    c
}

/// `UIDL`.
pub fn uidl_command() -> (c: String)
    ensures
        c@ == "UIDL\r\n"@,
{
    String::from_str("UIDL\r\n")
}

/// `RETR n`.
pub fn retr_command(msg_num: u32) -> (c: String)
    ensures
        c@ == "RETR "@ + decimal(msg_num as nat) + "\r\n"@,
{
    let mut c = String::from_str("RETR ");
    push_decimal(&mut c, msg_num as u64);
    c.append("\r\n");
    c
}

/// `QUIT`.
pub fn quit_command() -> (c: String)
    ensures
        c@ == "QUIT\r\n"@,
{
    String::from_str("QUIT\r\n")
}

// ------------------------------------------------------------------
// UIDs already seen
// ------------------------------------------------------------------

/// The unique ids of the messages already reported, kept across polls.
pub struct SeenUidls {
    uidls: Vec<String>,
}

impl SeenUidls {
    /// No id is held twice.
    #[verifier::type_invariant]
    spec fn inv(self) -> bool {
        strings_view(self.uidls@).no_duplicates()
    }

    pub closed spec fn view(self) -> Set<Seq<char>> {
        Set::new(|u: Seq<char>| strings_view(self.uidls@).contains(u))
    }

    pub fn new() -> (s: SeenUidls)
        ensures
            s.view() == Set::<Seq<char>>::empty(),
    {
        let s = SeenUidls { uidls: Vec::new() };
        assert(s.view() =~= Set::<Seq<char>>::empty());
        s
    }

    pub fn contains(&self, uidl: &String) -> (b: bool)
        ensures
            b == self.view().contains(uidl@),
    {
        let mut i: usize = 0;
        while i < self.uidls.len()
            invariant
                i <= self.uidls@.len(),
                forall|k: int| 0 <= k < i ==> self.uidls@[k]@ != uidl@,
            decreases self.uidls.len() - i,
        {
            if self.uidls[i] == *uidl {
                assert(strings_view(self.uidls@)[i as int] == uidl@);
                return true;
            }
            i += 1;
        }
        assert(!strings_view(self.uidls@).contains(uidl@)) by {
            if strings_view(self.uidls@).contains(uidl@) {
                let k = choose|k: int|
                    0 <= k < strings_view(self.uidls@).len() && strings_view(self.uidls@)[k]
                        == uidl@;
                assert(self.uidls@[k]@ == uidl@);
            }
        }
        false
    }

    /// Adds `uidl`; true when it was not there before (`HashSet::insert`).
    pub fn insert(&mut self, uidl: String) -> (added: bool)
        ensures
            added == !old(self).view().contains(uidl@),
            final(self).view() == old(self).view().insert(uidl@),
    {
        proof {
            use_type_invariant(&*self);
        }
        if self.contains(&uidl) {
            assert(self.view().insert(uidl@) =~= self.view());
            return false;
        }
        let ghost before = strings_view(self.uidls@);
        let ghost u = uidl@;
        let mut all: Vec<String> = Vec::new();
        std::mem::swap(&mut all, &mut self.uidls);
        all.push(uidl);
        assert(strings_view(all@) == before.push(u));
        assert(before.push(u).no_duplicates()) by {
            assert forall|i: int, j: int| 0 <= i < j < before.push(u).len() implies before.push(u)[i]
                != before.push(u)[j] by {
                if j == before.len() {
                    assert(before[i] == before.push(u)[i]);
                }
            }
        }
        self.uidls = all;
        assert(self.view() =~= Set::new(|x: Seq<char>| before.contains(x)).insert(u)) by {
            assert forall|x: Seq<char>| before.push(u).contains(x) <==> (before.contains(x) || x == u) by {
                if before.push(u).contains(x) {
                    let k = choose|k: int| 0 <= k < before.push(u).len() && before.push(u)[k] == x;
                    if k < before.len() {
                        assert(before[k] == x);
                    }
                }
                if before.contains(x) {
                    let k = choose|k: int| 0 <= k < before.len() && before[k] == x;
                    assert(before.push(u)[k] == x);
                }
                if x == u {
                    assert(before.push(u)[before.len() as int] == u);
                }
            }
        }
        true
    }
}

// ------------------------------------------------------------------
// Login and listing
// ------------------------------------------------------------------

/// Where a poll stands.
#[derive(Clone, Copy, Debug, PartialEq, Eq, Structural)]
pub enum Pop3Stage {
    /// Waiting for the server greeting.
    Greeting,
    /// `USER` sent.
    User,
    /// `PASS` sent.
    Pass,
    /// `UIDL` sent, waiting for its status line.
    UidlStatus,
    /// Reading the `UIDL` listing.
    Listing,
    /// The listing is complete.
    Finished,
    /// The server refused a step.
    Failed,
}

/// What the caller does next.
pub enum Pop3Action {
    /// Send this command, then hand over the next line.
    Send(String),
    /// Hand over the next line.
    ReadLine,
    /// The listing is complete: retrieve these messages, then `QUIT`.
    Retrieve(Vec<u32>),
    /// Give up the poll with this error.
    Abort(String),
}

/// The value of an action.
pub enum Pop3Move {
    Send(Seq<char>),
    ReadLine,
    Retrieve(Seq<u32>),
    Abort(Seq<char>),
}

impl Pop3Action {
    pub open spec fn view(self) -> Pop3Move {
        match self {
            Pop3Action::Send(c) => Pop3Move::Send(c@),
            Pop3Action::ReadLine => Pop3Move::ReadLine,
            Pop3Action::Retrieve(v) => Pop3Move::Retrieve(v@),
            Pop3Action::Abort(e) => Pop3Move::Abort(e@),
        }
    }
}

/// The value of a poll in progress.
pub struct Pop3State {
    pub stage: Pop3Stage,
    pub email: Seq<char>,
    pub password: Seq<char>,
    /// The numbers of the listed messages whose id was new.
    pub new_messages: Seq<u32>,
}

/// One step of a poll: the state, the ids seen so far and the action after
/// the server sent `line`.
pub open spec fn pop3_step(st: Pop3State, seen: Set<Seq<char>>, line: Seq<char>) -> (
    Pop3State,
    Set<Seq<char>>,
    Pop3Move,
) {
    match st.stage {
        Pop3Stage::Greeting => if status_ok(line) {
            (
                Pop3State { stage: Pop3Stage::User, ..st },
                seen,
                Pop3Move::Send("USER "@ + st.email + "\r\n"@),
            )
        } else {
            (
                Pop3State { stage: Pop3Stage::Failed, ..st },
                seen,
                Pop3Move::Abort("POP3 server greeting error: "@ + trim(line)),
            )
        },
        Pop3Stage::User => if status_ok(line) {
            (
                Pop3State { stage: Pop3Stage::Pass, ..st },
                seen,
                Pop3Move::Send("PASS "@ + st.password + "\r\n"@),
            )
        } else {
            (
                Pop3State { stage: Pop3Stage::Failed, ..st },
                seen,
                Pop3Move::Abort("POP3 USER error: "@ + trim(line)),
            )
        },
        Pop3Stage::Pass => if status_ok(line) {
            (Pop3State { stage: Pop3Stage::UidlStatus, ..st }, seen, Pop3Move::Send("UIDL\r\n"@))
        } else {
            (
                Pop3State { stage: Pop3Stage::Failed, ..st },
                seen,
                Pop3Move::Abort("POP3 PASS error: "@ + trim(line)),
            )
        },
        Pop3Stage::UidlStatus => if status_ok(line) {
            (Pop3State { stage: Pop3Stage::Listing, ..st }, seen, Pop3Move::ReadLine)
        } else {
            (
                Pop3State { stage: Pop3Stage::Failed, ..st },
                seen,
                Pop3Move::Abort("POP3 UIDL error: "@ + trim(line)),
            )
        },
        Pop3Stage::Listing => if is_terminator(line) {
            (
                Pop3State { stage: Pop3Stage::Finished, ..st },
                seen,
                Pop3Move::Retrieve(st.new_messages),
            )
        } else {
            match uidl_entry(unstuffed(line)) {
                Some((n, u)) => if seen.contains(u) {
                    (st, seen, Pop3Move::ReadLine)
                } else {
                    (
                        Pop3State { new_messages: st.new_messages.push(n), ..st },
                        seen.insert(u),
                        Pop3Move::ReadLine,
                    )
                },
                None => (st, seen, Pop3Move::ReadLine),
            }
        },
        _ => (st, seen, Pop3Move::ReadLine),
    }
}

/// One poll of a POP3 mailbox, from the greeting to the end of the `UIDL`
/// listing.
pub struct Pop3Poll {
    stage: Pop3Stage,
    email: String,
    password: String,
    new_messages: Vec<u32>,
}

impl Pop3Poll {
    pub closed spec fn state(self) -> Pop3State {
        Pop3State {
            stage: self.stage,
            email: self.email@,
            password: self.password@,
            new_messages: self.new_messages@,
        }
    }

    /// A poll that logs in as `email`; the first line to hand over is the
    /// server greeting.
    pub fn new(email: &str, password: &str) -> (p: Pop3Poll)
        ensures
            p.state() == (Pop3State {
                stage: Pop3Stage::Greeting,
                email: email@,
                password: password@,
                new_messages: Seq::empty(),
            }),
    {
        Pop3Poll {
            stage: Pop3Stage::Greeting,
            email: String::from_str(email),
            password: String::from_str(password),
            new_messages: Vec::new(),
        }
    }

    /// The poll has ended, completed or refused.
    pub fn is_over(&self) -> (b: bool)
        ensures
            b == (self.state().stage == Pop3Stage::Finished || self.state().stage
                == Pop3Stage::Failed),
    {
        self.stage == Pop3Stage::Finished || self.stage == Pop3Stage::Failed
    }

    /// Hands over the line the server sent; `seen` holds the ids of the
    /// messages reported by earlier polls.
    pub fn on_line(&mut self, line: &str, seen: &mut SeenUidls) -> (a: Pop3Action)
        requires
            old(self).state().stage != Pop3Stage::Finished,
            old(self).state().stage != Pop3Stage::Failed,
        ensures
            (final(self).state(), final(seen).view(), a.view()) == pop3_step(
                old(self).state(),
                old(seen).view(),
                line@,
            ),
    {
        let v = to_chars(line);
        match self.stage {
            Pop3Stage::Greeting => {
                if is_ok_line(&v) {
                    self.stage = Pop3Stage::User;
                    Pop3Action::Send(user_command(self.email.as_str()))
                } else {
                    self.stage = Pop3Stage::Failed;
                    Pop3Action::Abort(status_error("POP3 server greeting error: ", line))
                }
            },
            Pop3Stage::User => {
                if is_ok_line(&v) {
                    self.stage = Pop3Stage::Pass;
                    Pop3Action::Send(pass_command(self.password.as_str()))
                } else {
                    self.stage = Pop3Stage::Failed;
                    Pop3Action::Abort(status_error("POP3 USER error: ", line))
                }
            },
            Pop3Stage::Pass => {
                if is_ok_line(&v) {
                    self.stage = Pop3Stage::UidlStatus;
                    Pop3Action::Send(uidl_command())
                } else {
                    self.stage = Pop3Stage::Failed;
                    Pop3Action::Abort(status_error("POP3 PASS error: ", line))
                }
            },
            Pop3Stage::UidlStatus => {
                if is_ok_line(&v) {
                    self.stage = Pop3Stage::Listing;
                    Pop3Action::ReadLine
                } else {
                    self.stage = Pop3Stage::Failed;
                    Pop3Action::Abort(status_error("POP3 UIDL error: ", line))
                }
            },
            _ => {
                if line_is(&v, ".\r\n") {
                    self.stage = Pop3Stage::Finished;
                    return Pop3Action::Retrieve(self.new_messages.clone());
                }
                let mut entry: Vec<char> = Vec::new();
                let start: usize = if v.len() > 0 && v[0] == '.' {
                    1
                } else {
                    0
                };
                let mut i = start;
                while i < v.len()
                    invariant
                        start <= i <= v.len(),
                        entry@ == v@.subrange(start as int, i as int),
                    decreases v.len() - i,
                {
                    entry.push(v[i]);
                    i += 1;
                }
                assert(entry@ == unstuffed(line@));
                match parse_uidl_entry(&entry) {
                    Some((n, u)) => {
                        if seen.insert(u) {
                            self.new_messages.push(n);
                        }
                    },
                    None => {},
                }
                Pop3Action::ReadLine
            },
        }
    }
}

// ------------------------------------------------------------------
// Retrieving one message
// ------------------------------------------------------------------

/// Where a retrieval stands.
#[derive(Clone, Copy, Debug, PartialEq, Eq, Structural)]
pub enum RetrStage {
    /// `RETR` sent, waiting for its status line.
    Status,
    /// Reading the message lines.
    Body,
    /// The message is complete.
    Done,
    /// The server refused.
    Failed,
}

/// What the caller does next.
pub enum RetrAction {
    ReadLine,
    /// The whole message.
    Complete(String),
    /// Give up this message with this error.
    Abort(String),
}

/// The value of a retrieval action.
pub enum RetrMove {
    ReadLine,
    Complete(Seq<char>),
    Abort(Seq<char>),
}

impl RetrAction {
    pub open spec fn view(self) -> RetrMove {
        match self {
            RetrAction::ReadLine => RetrMove::ReadLine,
            RetrAction::Complete(m) => RetrMove::Complete(m@),
            RetrAction::Abort(e) => RetrMove::Abort(e@),
        }
    }
}

/// One step of a retrieval: stage, text so far and action after `line`.
pub open spec fn retr_step(stage: RetrStage, raw: Seq<char>, line: Seq<char>) -> (
    RetrStage,
    Seq<char>,
    RetrMove,
) {
    match stage {
        RetrStage::Status => if status_ok(line) {
            (RetrStage::Body, raw, RetrMove::ReadLine)
        } else {
            (RetrStage::Failed, raw, RetrMove::Abort("POP3 RETR error: "@ + trim(line)))
        },
        RetrStage::Body => if is_terminator(line) {
            (RetrStage::Done, raw, RetrMove::Complete(raw))
        } else {
            (RetrStage::Body, raw + unstuffed(line), RetrMove::ReadLine)
        },
        _ => (stage, raw, RetrMove::ReadLine),
    }
}

/// The message sent after `RETR`, reassembled line by line.
pub struct Pop3Retrieval {
    stage: RetrStage,
    raw: String,
}

impl Pop3Retrieval {
    pub closed spec fn stage(self) -> RetrStage {
        self.stage
    }

    pub closed spec fn text(self) -> Seq<char> {
        self.raw@
    }

    /// A retrieval after `RETR` was sent; the first line to hand over is its
    /// status line.
    pub fn new() -> (r: Pop3Retrieval)
        ensures
            r.stage() == RetrStage::Status,
            r.text() == Seq::<char>::empty(),
    {
        Pop3Retrieval { stage: RetrStage::Status, raw: String::new() }
    }

    /// The retrieval has ended, completed or refused.
    pub fn is_over(&self) -> (b: bool)
        ensures
            b == (self.stage() == RetrStage::Done || self.stage() == RetrStage::Failed),
    {
        self.stage == RetrStage::Done || self.stage == RetrStage::Failed
    }

    pub fn on_line(&mut self, line: &str) -> (a: RetrAction)
        requires
            old(self).stage() != RetrStage::Done,
            old(self).stage() != RetrStage::Failed,
        ensures
            (final(self).stage(), final(self).text(), a.view()) == retr_step(
                old(self).stage(),
                old(self).text(),
                line@,
            ),
    {
        let v = to_chars(line);
        if self.stage == RetrStage::Status {
            if is_ok_line(&v) {
                self.stage = RetrStage::Body;
                RetrAction::ReadLine
            } else {
                self.stage = RetrStage::Failed;
                RetrAction::Abort(status_error("POP3 RETR error: ", line))
            }
        } else {
            if line_is(&v, ".\r\n") {
                self.stage = RetrStage::Done;
                return RetrAction::Complete(self.raw.clone());
            }
            let start: usize = if v.len() > 0 && v[0] == '.' {
                1
            } else {
                0
            };
            assert(v@.subrange(start as int, v@.len() as int) == unstuffed(line@));
            push_chars(&mut self.raw, &v, start, v.len());
            RetrAction::ReadLine
        }
    }
}

// ------------------------------------------------------------------
// Laws
// ------------------------------------------------------------------

/// A poll step never forgets an id: the ids seen only grow.
pub proof fn lemma_seen_only_grows(st: Pop3State, seen: Set<Seq<char>>, line: Seq<char>)
    ensures
        seen.subset_of(pop3_step(st, seen, line).1),
{
}

/// A listed message is reported at most once: when its id was seen before
/// (in this poll or an earlier one) the step adds nothing; otherwise it adds
/// its number and remembers its id.
pub proof fn lemma_reported_once(
    st: Pop3State,
    seen: Set<Seq<char>>,
    line: Seq<char>,
    n: u32,
    u: Seq<char>,
)
    requires
        st.stage == Pop3Stage::Listing,
        !is_terminator(line),
        uidl_entry(unstuffed(line)) == Some((n, u)),
    ensures
        seen.contains(u) ==> pop3_step(st, seen, line).0.new_messages == st.new_messages,
        !seen.contains(u) ==> pop3_step(st, seen, line).0.new_messages == st.new_messages.push(n),
        pop3_step(st, seen, line).1.contains(u),
{
}

/// A poll's state and seen ids after the server sent `lines`, one step at a
/// time.
pub open spec fn pop3_run(st: Pop3State, seen: Set<Seq<char>>, lines: Seq<Seq<char>>) -> (
    Pop3State,
    Set<Seq<char>>,
)
    decreases lines.len(),
{
    if lines.len() == 0 {
        (st, seen)
    } else {
        let next = pop3_step(st, seen, lines[0]);
        pop3_run(next.0, next.1, lines.drop_first())
    }
}

/// The state of a poll that has just started.
pub open spec fn fresh_poll(email: Seq<char>, password: Seq<char>) -> Pop3State {
    Pop3State { stage: Pop3Stage::Greeting, email, password, new_messages: Seq::empty() }
}

/// The id of a listing line, when it has one.
pub open spec fn listed_id(line: Seq<char>) -> Option<Seq<char>> {
    match uidl_entry(unstuffed(line)) {
        Some((_, u)) => Some(u),
        None => None,
    }
}

/// Lines of a `UIDL` listing before its end.
pub open spec fn listing_lines(lines: Seq<Seq<char>>) -> bool {
    forall|i: int| 0 <= i < lines.len() ==> !is_terminator(#[trigger] lines[i])
}

/// Every id listed in `lines` is in `seen`.
pub open spec fn ids_seen(lines: Seq<Seq<char>>, seen: Set<Seq<char>>) -> bool {
    forall|i: int| 0 <= i < lines.len() ==> (#[trigger] listed_id(lines[i]) matches Some(u) ==> seen.contains(u))
}

/// The message numbers of a listing, in order.
pub open spec fn listed_numbers(lines: Seq<Seq<char>>) -> Seq<u32>
    decreases lines.len(),
{
    if lines.len() == 0 {
        Seq::empty()
    } else {
        match uidl_entry(unstuffed(lines[0])) {
            Some((n, _)) => seq![n] + listed_numbers(lines.drop_first()),
            None => listed_numbers(lines.drop_first()),
        }
    }
}

proof fn lemma_run_split(st: Pop3State, seen: Set<Seq<char>>, a: Seq<Seq<char>>, b: Seq<Seq<char>>)
    ensures
        pop3_run(st, seen, a + b) == pop3_run(pop3_run(st, seen, a).0, pop3_run(st, seen, a).1, b),
    decreases a.len(),
{
    if a.len() == 0 {
        assert(a + b == b);
    } else {
        let next = pop3_step(st, seen, a[0]);
        assert((a + b)[0] == a[0]);
        assert((a + b).drop_first() == a.drop_first() + b);
        lemma_run_split(next.0, next.1, a.drop_first(), b);
    }
}

/// Reading listing lines keeps the poll in the listing with the same login,
/// only adds to the ids seen, and leaves every listed id seen.
proof fn lemma_listing_run(st: Pop3State, seen: Set<Seq<char>>, lines: Seq<Seq<char>>)
    requires
        st.stage == Pop3Stage::Listing,
        listing_lines(lines),
    ensures
        pop3_run(st, seen, lines).0.stage == Pop3Stage::Listing,
        pop3_run(st, seen, lines).0.email == st.email,
        pop3_run(st, seen, lines).0.password == st.password,
        seen.subset_of(pop3_run(st, seen, lines).1),
        ids_seen(lines, pop3_run(st, seen, lines).1),
    decreases lines.len(),
{
    if lines.len() > 0 {
        let next = pop3_step(st, seen, lines[0]);
        let rest = lines.drop_first();
        assert(listing_lines(rest)) by {
            assert forall|i: int| 0 <= i < rest.len() implies !is_terminator(#[trigger] rest[i]) by {
                assert(rest[i] == lines[i + 1]);
            }
        }
        assert(!is_terminator(lines[0]));
        lemma_listing_run(next.0, next.1, rest);
        let fin = pop3_run(st, seen, lines).1;
        assert forall|i: int| 0 <= i < lines.len() implies (#[trigger] listed_id(lines[i]) matches Some(u)
            ==> fin.contains(u)) by {
            if i > 0 {
                assert(rest[i - 1] == lines[i]);
            }
        }
    }
}

/// Reading listing lines whose ids were all seen before changes nothing.
proof fn lemma_listing_of_seen(st: Pop3State, seen: Set<Seq<char>>, lines: Seq<Seq<char>>)
    requires
        st.stage == Pop3Stage::Listing,
        listing_lines(lines),
        ids_seen(lines, seen),
    ensures
        pop3_run(st, seen, lines) == (st, seen),
    decreases lines.len(),
{
    if lines.len() > 0 {
        let rest = lines.drop_first();
        assert(!is_terminator(lines[0]));
        assert(listed_id(lines[0]) matches Some(u) ==> seen.contains(u));
        assert(listing_lines(rest)) by {
            assert forall|i: int| 0 <= i < rest.len() implies !is_terminator(#[trigger] rest[i]) by {
                assert(rest[i] == lines[i + 1]);
            }
        }
        assert(ids_seen(rest, seen)) by {
            assert forall|i: int| 0 <= i < rest.len() implies (#[trigger] listed_id(rest[i]) matches Some(u)
                ==> seen.contains(u)) by {
                assert(rest[i] == lines[i + 1]);
            }
        }
        lemma_listing_of_seen(st, seen, rest);
    }
}

/// Four positive status lines log a fresh poll in and start its listing,
/// leaving the ids seen as they were.
proof fn lemma_login_run(email: Seq<char>, password: Seq<char>, seen: Set<Seq<char>>, login: Seq<Seq<char>>)
    requires
        login.len() == 4,
        forall|i: int| 0 <= i < 4 ==> status_ok(#[trigger] login[i]),
    ensures
        pop3_run(fresh_poll(email, password), seen, login) == (
            Pop3State {
                stage: Pop3Stage::Listing,
                email,
                password,
                new_messages: Seq::<u32>::empty(),
            },
            seen,
        ),
{
    assert(status_ok(login[0]) && status_ok(login[1]) && status_ok(login[2]) && status_ok(login[3]));
    let l1 = login.drop_first();
    let l2 = l1.drop_first();
    let l3 = l2.drop_first();
    let l4 = l3.drop_first();
    assert(l1[0] == login[1] && l2[0] == login[2] && l3[0] == login[3] && l4.len() == 0);
    let s0 = fresh_poll(email, password);
    let s1 = Pop3State { stage: Pop3Stage::User, ..s0 };
    let s2 = Pop3State { stage: Pop3Stage::Pass, ..s0 };
    let s3 = Pop3State { stage: Pop3Stage::UidlStatus, ..s0 };
    let s4 = Pop3State { stage: Pop3Stage::Listing, ..s0 };
    assert(pop3_run(s4, seen, l4) == (s4, seen));
    assert(pop3_step(s3, seen, l3[0]).0 == s4 && pop3_step(s3, seen, l3[0]).1 == seen);
    assert(pop3_run(s3, seen, l3) == (s4, seen));
    assert(pop3_step(s2, seen, l2[0]).0 == s3 && pop3_step(s2, seen, l2[0]).1 == seen);
    assert(pop3_run(s2, seen, l2) == (s4, seen));
    assert(pop3_step(s1, seen, l1[0]).0 == s2 && pop3_step(s1, seen, l1[0]).1 == seen);
    assert(pop3_run(s1, seen, l1) == (s4, seen));
    assert(pop3_step(s0, seen, login[0]).0 == s1 && pop3_step(s0, seen, login[0]).1 == seen);
}

/// A poll over a listing whose ids were all seen by an earlier poll of the
/// same listing retrieves nothing and leaves the ids seen unchanged: after
/// the login and the listing, the end of the listing asks for no message.
pub proof fn lemma_second_poll_retrieves_nothing(
    email: Seq<char>,
    password: Seq<char>,
    seen: Set<Seq<char>>,
    login: Seq<Seq<char>>,
    listing: Seq<Seq<char>>,
)
    requires
        login.len() == 4,
        forall|i: int| 0 <= i < 4 ==> status_ok(#[trigger] login[i]),
        listing_lines(listing),
    ensures
        ({
            let first = pop3_run(fresh_poll(email, password), seen, login + listing);
            let second = pop3_run(fresh_poll(email, password), first.1, login + listing);
            &&& second.1 == first.1
            &&& second.0.new_messages == Seq::<u32>::empty()
            &&& second.0.stage == Pop3Stage::Listing
            &&& pop3_step(second.0, second.1, ".\r\n"@).2 == Pop3Move::Retrieve(Seq::<u32>::empty())
        }),
{
    let start = fresh_poll(email, password);
    lemma_run_split(start, seen, login, listing);
    lemma_login_run(email, password, seen, login);
    let logged = pop3_run(start, seen, login).0;
    lemma_listing_run(logged, seen, listing);
    let first = pop3_run(start, seen, login + listing);
    lemma_run_split(start, first.1, login, listing);
    lemma_login_run(email, password, first.1, login);
    lemma_listing_of_seen(logged, first.1, listing);
    reveal_strlit(".\r\n");
}

/// Reading a listing whose lines all parse and whose ids are distinct and
/// not seen before reports every listed message, in order.
proof fn lemma_listing_reports_new(st: Pop3State, seen: Set<Seq<char>>, lines: Seq<Seq<char>>)
    requires
        st.stage == Pop3Stage::Listing,
        listing_lines(lines),
        forall|i: int| 0 <= i < lines.len() ==> #[trigger] listed_id(lines[i]) is Some,
        forall|i: int| 0 <= i < lines.len() ==> !seen.contains(#[trigger] listed_id(lines[i])->0),
        forall|i: int, j: int|
            0 <= i < j < lines.len() ==> #[trigger] listed_id(lines[i]) != #[trigger] listed_id(lines[j]),
    ensures
        pop3_run(st, seen, lines).0.new_messages == st.new_messages + listed_numbers(lines),
    decreases lines.len(),
{
    if lines.len() == 0 {
        assert(st.new_messages + Seq::<u32>::empty() == st.new_messages);
    } else {
        let rest = lines.drop_first();
        assert(!is_terminator(lines[0]));
        assert(listed_id(lines[0]) is Some);
        assert(!seen.contains(listed_id(lines[0])->0));
        let next = pop3_step(st, seen, lines[0]);
        let u0 = listed_id(lines[0])->0;
        assert(next.1 == seen.insert(u0));
        assert(listing_lines(rest)) by {
            assert forall|i: int| 0 <= i < rest.len() implies !is_terminator(#[trigger] rest[i]) by {
                assert(rest[i] == lines[i + 1]);
            }
        }
        assert forall|i: int| 0 <= i < rest.len() implies #[trigger] listed_id(rest[i]) is Some by {
            assert(rest[i] == lines[i + 1]);
        }
        assert forall|i: int| 0 <= i < rest.len() implies !next.1.contains(#[trigger] listed_id(rest[i])->0) by {
            assert(rest[i] == lines[i + 1]);
            assert(listed_id(lines[0]) != listed_id(lines[i + 1]));
        }
        assert forall|i: int, j: int|
            0 <= i < j < rest.len() implies #[trigger] listed_id(rest[i]) != #[trigger] listed_id(rest[j]) by {
            assert(rest[i] == lines[i + 1]);
            assert(rest[j] == lines[j + 1]);
        }
        lemma_listing_reports_new(next.0, next.1, rest);
        let n0 = match uidl_entry(unstuffed(lines[0])) {
            Some((n, _)) => n,
            None => 0,
        };
        assert(st.new_messages.push(n0) + listed_numbers(rest) == st.new_messages + listed_numbers(lines));
    }
}

/// The first poll, which starts with no id seen, reports every message
/// the server lists (lines that parse, with distinct ids), in order; any
/// poll only adds to the ids seen.
pub proof fn lemma_first_poll_reports_all(
    email: Seq<char>,
    password: Seq<char>,
    login: Seq<Seq<char>>,
    listing: Seq<Seq<char>>,
)
    requires
        login.len() == 4,
        forall|i: int| 0 <= i < 4 ==> status_ok(#[trigger] login[i]),
        listing_lines(listing),
        forall|i: int| 0 <= i < listing.len() ==> #[trigger] listed_id(listing[i]) is Some,
        forall|i: int, j: int|
            0 <= i < j < listing.len() ==> #[trigger] listed_id(listing[i]) != #[trigger] listed_id(
                listing[j],
            ),
    ensures
        pop3_run(fresh_poll(email, password), Set::empty(), login + listing).0.new_messages
            == listed_numbers(listing),
{
    let start = fresh_poll(email, password);
    let none = Set::<Seq<char>>::empty();
    lemma_run_split(start, none, login, listing);
    lemma_login_run(email, password, none, login);
    let logged = pop3_run(start, none, login).0;
    lemma_listing_reports_new(logged, none, listing);
    assert(Seq::<u32>::empty() + listed_numbers(listing) == listed_numbers(listing));
}

/// A retrieval's stage and text after the server sent `lines`, one step at
/// a time.
pub open spec fn retr_run(stage: RetrStage, raw: Seq<char>, lines: Seq<Seq<char>>) -> (RetrStage, Seq<char>)
    decreases lines.len(),
{
    if lines.len() == 0 {
        (stage, raw)
    } else {
        let next = retr_step(stage, raw, lines[0]);
        retr_run(next.0, next.1, lines.drop_first())
    }
}

/// In the body every line before the end is kept, with its stuffing dot
/// removed, in order and whatever the length: after lines none of which
/// ends the response, the text is what it was followed by each line
/// unstuffed.
pub proof fn lemma_body_lines_kept(raw: Seq<char>, lines: Seq<Seq<char>>)
    requires
        forall|i: int| 0 <= i < lines.len() ==> !is_terminator(#[trigger] lines[i]),
    ensures
        retr_run(RetrStage::Body, raw, lines) == (
            RetrStage::Body,
            raw + lines.map_values(|l: Seq<char>| unstuffed(l)).flatten(),
        ),
    decreases lines.len(),
{
    let parts = lines.map_values(|l: Seq<char>| unstuffed(l));
    if lines.len() == 0 {
        assert(parts.flatten() == Seq::<char>::empty());
        assert(raw + Seq::<char>::empty() == raw);
    } else {
        let rest = lines.drop_first();
        assert(!is_terminator(lines[0]));
        assert forall|i: int| 0 <= i < rest.len() implies !is_terminator(#[trigger] rest[i]) by {
            assert(rest[i] == lines[i + 1]);
        }
        lemma_body_lines_kept(raw + unstuffed(lines[0]), rest);
        assert(parts.drop_first() == rest.map_values(|l: Seq<char>| unstuffed(l)));
        assert(parts.first() == unstuffed(lines[0]));
        assert(parts.flatten() == parts.first() + parts.drop_first().flatten());
        assert(raw + unstuffed(lines[0]) + rest.map_values(|l: Seq<char>| unstuffed(l)).flatten() == raw
            + parts.flatten());
    }
}

/// A whole retrieval gives back the message the server sent: after a
/// positive status line, the message's lines byte-stuffed, and the line
/// that ends the response, the retrieval completes with exactly the
/// message's lines joined, however long it is.
pub proof fn lemma_retrieval_returns_message(status: Seq<char>, message: Seq<Seq<char>>)
    requires
        status_ok(status),
    ensures
        ({
            let sent = seq![status] + message.map_values(|l: Seq<char>| stuffed(l));
            let (stage, raw) = retr_run(RetrStage::Status, Seq::empty(), sent);
            retr_step(stage, raw, ".\r\n"@) == (
                RetrStage::Done,
                message.flatten(),
                RetrMove::Complete(message.flatten()),
            )
        }),
{
    reveal_strlit(".\r\n");
    let body = message.map_values(|l: Seq<char>| stuffed(l));
    let sent = seq![status] + body;
    assert(sent[0] == status);
    assert(sent.drop_first() == body);
    assert forall|i: int| 0 <= i < body.len() implies !is_terminator(#[trigger] body[i]) by {
        lemma_unstuff_stuffed(message[i]);
    }
    lemma_body_lines_kept(Seq::empty(), body);
    assert(body.map_values(|l: Seq<char>| unstuffed(l)) == message) by {
        assert forall|i: int| 0 <= i < message.len() implies body.map_values(|l: Seq<char>| unstuffed(l))[i]
            == message[i] by {
            lemma_unstuff_stuffed(message[i]);
        }
    }
    assert(Seq::<char>::empty() + message.flatten() == message.flatten());
}

/// A `UIDL` listing line as a server writes it: the message number in
/// decimal, a space, the unique id, CRLF.
pub open spec fn listing_line(n: u32, uid: Seq<char>) -> Seq<char> {
    decimal(n as nat) + seq![' '] + uid + "\r\n"@
}

proof fn lemma_index_of_first(s: Seq<char>, c: char, i: int, k: int)
    requires
        0 <= i <= k < s.len(),
        s[k] == c,
        forall|j: int| i <= j < k ==> s[j] != c,
    ensures
        index_of(s, c, i) == Some(k),
    decreases k - i,
{
    if i < k {
        lemma_index_of_first(s, c, i + 1, k);
    }
}

/// A listing line gives back the number and the id it was written with,
/// for every number a `u32` holds (so every message number is read in
/// full), and it never reads as the end of the listing.
pub proof fn lemma_listing_entry(n: u32, uid: Seq<char>)
    requires
        uid.len() > 0,
        !is_white_space(uid.last()),
    ensures
        uidl_entry(listing_line(n, uid)) == Some((n, uid)),
        unstuffed(listing_line(n, uid)) == listing_line(n, uid),
        listed_id(listing_line(n, uid)) == Some(uid),
        !is_terminator(listing_line(n, uid)),
{
    reveal_strlit("\r\n");
    reveal_strlit(".\r\n");
    let d = decimal(n as nat);
    lemma_parse_decimal(n as nat);
    let core = d + seq![' '] + uid;
    let line = listing_line(n, uid);
    assert(line == core + "\r\n"@);
    assert(line[0] == d[0]);
    assert(!is_white_space(line[0]));
    assert(trim_start(line) == line);
    assert(line.drop_last() == core.push('\r'));
    assert(core.push('\r').drop_last() == core);
    assert(core.last() == uid.last());
    assert(line.last() == '\n');
    assert(is_white_space('\n'));
    assert(trim_end(line) == trim_end(line.drop_last()));
    assert(core.push('\r').last() == '\r');
    assert(is_white_space('\r'));
    assert(trim_end(core.push('\r')) == trim_end(core));
    assert(trim_end(core) == core);
    assert(trim_end(line) == core);
    assert(trim(line) == core);
    assert forall|j: int| 0 <= j < d.len() implies core[j] != ' ' by {
        assert(core[j] == d[j]);
    }
    lemma_index_of_first(core, ' ', 0, d.len() as int);
    assert(core.take(d.len() as int) == d);
    assert(core.skip(d.len() as int + 1) == uid);
    assert(unstuffed(line) == line);
    if is_terminator(line) {
        assert(line[0] == '.');
    }
}

/// The listing that the numbers `nums` and the ids `uids` make, line by line.
pub open spec fn listing_of(nums: Seq<u32>, uids: Seq<Seq<char>>) -> Seq<Seq<char>> {
    Seq::new(nums.len(), |i: int| listing_line(nums[i], uids[i]))
}

proof fn lemma_listed_numbers_of(nums: Seq<u32>, uids: Seq<Seq<char>>)
    requires
        nums.len() == uids.len(),
        forall|i: int| 0 <= i < uids.len() ==> (#[trigger] uids[i]).len() > 0 && !is_white_space(uids[i].last()),
    ensures
        listed_numbers(listing_of(nums, uids)) == nums,
    decreases nums.len(),
{
    if nums.len() > 0 {
        let l = listing_of(nums, uids);
        lemma_listing_entry(nums[0], uids[0]);
        assert(l.drop_first() == listing_of(nums.drop_first(), uids.drop_first()));
        assert forall|i: int| 0 <= i < uids.drop_first().len() implies (#[trigger] uids.drop_first()[i]).len() > 0
            && !is_white_space(uids.drop_first()[i].last()) by {
            assert(uids.drop_first()[i] == uids[i + 1]);
        }
        lemma_listed_numbers_of(nums.drop_first(), uids.drop_first());
        assert(seq![nums[0]] + nums.drop_first() == nums);
    }
}

/// The first poll reports exactly the message numbers the server lists,
/// in the listed order, whatever their size: after logging in, a listing
/// of lines `number id` with distinct ids gives those numbers.
pub proof fn lemma_first_poll_reports_listed(
    email: Seq<char>,
    password: Seq<char>,
    login: Seq<Seq<char>>,
    nums: Seq<u32>,
    uids: Seq<Seq<char>>,
)
    requires
        login.len() == 4,
        forall|i: int| 0 <= i < 4 ==> status_ok(#[trigger] login[i]),
        nums.len() == uids.len(),
        forall|i: int| 0 <= i < uids.len() ==> (#[trigger] uids[i]).len() > 0 && !is_white_space(uids[i].last()),
        forall|i: int, j: int| 0 <= i < j < uids.len() ==> uids[i] != uids[j],
    ensures
        pop3_run(fresh_poll(email, password), Set::empty(), login + listing_of(nums, uids)).0.new_messages == nums,
{
    let listing = listing_of(nums, uids);
    assert forall|i: int| 0 <= i < listing.len() implies #[trigger] listed_id(listing[i]) == Some(uids[i]) && !is_terminator(listing[i]) by {
        lemma_listing_entry(nums[i], uids[i]);
    }
    assert forall|i: int| 0 <= i < listing.len() implies !is_terminator(#[trigger] listing[i]) by {
        lemma_listing_entry(nums[i], uids[i]);
    }
    assert forall|i: int, j: int|
        0 <= i < j < listing.len() implies #[trigger] listed_id(listing[i]) != #[trigger] listed_id(listing[j]) by {
        assert(uids[i] != uids[j]);
    }
    lemma_first_poll_reports_all(email, password, login, listing);
    lemma_listed_numbers_of(nums, uids);
}

/// Whatever the server sends, a run of steps never forgets an id.
pub proof fn lemma_seen_grows_over_runs(st: Pop3State, seen: Set<Seq<char>>, lines: Seq<Seq<char>>)
    ensures
        seen.subset_of(pop3_run(st, seen, lines).1),
    decreases lines.len(),
{
    if lines.len() > 0 {
        let next = pop3_step(st, seen, lines[0]);
        lemma_seen_grows_over_runs(next.0, next.1, lines.drop_first());
    }
}

/// The server's byte-stuffing is undone exactly: a stuffed line never reads
/// as the end of the response, and unstuffing gives the sent line back.
pub proof fn lemma_unstuff_stuffed(line: Seq<char>)
    ensures
        !is_terminator(stuffed(line)),
        unstuffed(stuffed(line)) == line,
{
    reveal_strlit(".\r\n");
    reveal_strlit("\r\n");
    if line.len() > 0 && line[0] == '.' {
        assert((seq!['.'] + line).drop_first() == line);
        assert(stuffed(line).len() == line.len() + 1);
        if stuffed(line) == ".\r\n"@ {
            assert(line == seq!['\r', '\n']);
            assert(line[0] == '\r');
        }
    } else {
        if line == ".\r\n"@ {
            assert(line[0] == '.');
        }
    }
}

} // verus!
