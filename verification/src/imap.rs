//! The decisions of the IMAP watcher: the reconnect delay, the UID cursor
//! that marks which messages are new, and what to do after each IDLE wait.
use vstd::prelude::*;
use crate::text::{decimal, push_decimal};

verus! {

/// The longest wait between reconnection attempts, in seconds.
pub const MAX_RETRY_DELAY_SECS: u64 = 60;

/// The delay after one more failure: double, up to the cap.
pub open spec fn doubled_delay(d: u64) -> u64 {
    if 2 * d < MAX_RETRY_DELAY_SECS {
        (2 * d) as u64
    } else {
        MAX_RETRY_DELAY_SECS
    }
}

/// The reconnect delay after `n` consecutive failures, starting from one
/// second and doubling up to the cap.
pub open spec fn delay_after_failures(n: nat) -> u64
    decreases n,
{
    if n == 0 {
        1
    } else {
        doubled_delay(delay_after_failures((n - 1) as nat))
    }
}

/// Exponential back-off between reconnection attempts: one second after a
/// clean end, doubling after each failure up to sixty seconds.
pub struct Backoff {
    delay: u64,
}

impl Backoff {
    #[verifier::type_invariant]
    spec fn inv(self) -> bool {
        1 <= self.delay <= MAX_RETRY_DELAY_SECS
    }

    /// The delay before the next attempt, in seconds.
    pub closed spec fn current(self) -> u64 {
        self.delay
    }

    pub fn new() -> (b: Backoff)
        ensures
            b.current() == 1,
    {
        Backoff { delay: 1 }
    }

    pub fn delay_secs(&self) -> (d: u64)
        ensures
            d == self.current(),
            1 <= d <= MAX_RETRY_DELAY_SECS,
    {
        proof {
            use_type_invariant(self);
        }
        self.delay
    }

    /// The session ended cleanly: the next failure waits one second again.
    pub fn on_success(&mut self)
        ensures
            final(self).current() == 1,
    {
        self.delay = 1;
    }

    /// The session failed: returns how long to wait now, and doubles the
    /// wait for the next failure, up to the cap.
    pub fn on_failure(&mut self) -> (wait: u64)
        ensures
            wait == old(self).current(),
            1 <= wait <= MAX_RETRY_DELAY_SECS,
            final(self).current() == doubled_delay(wait),
    {
        proof {
            use_type_invariant(&*self);
        }
        let wait = self.delay;
        let doubled = wait * 2;
        self.delay = if doubled < MAX_RETRY_DELAY_SECS {
            doubled
        } else {
            MAX_RETRY_DELAY_SECS
        };
        wait
    }
}

/// The delays after consecutive failures are 1, 2, 4, 8, 16, 32 seconds and
/// then sixty seconds for ever; each lies between one and sixty.
pub proof fn lemma_backoff_schedule(n: nat)
    ensures
        1 <= delay_after_failures(n) <= MAX_RETRY_DELAY_SECS,
        n <= 5 ==> delay_after_failures(n) == vstd::arithmetic::power2::pow2(n),
        n >= 6 ==> delay_after_failures(n) == MAX_RETRY_DELAY_SECS,
    decreases n,
{
    vstd::arithmetic::power2::lemma2_to64();
    if n > 0 {
        lemma_backoff_schedule((n - 1) as nat);
    }
}

/// Over a run of consecutive failures, from a fresh backoff or one just
/// reset by a success, the `i`-th wait (from 0) is the scheduled
/// `delay_after_failures(i)`: 1, 2, 4, 8, 16, 32 seconds, then 60 for ever.
/// `states[i]` is the backoff before the `i`-th failure and `waits[i]` what
/// `on_failure` returned.
pub proof fn lemma_backoff_over_failures(states: Seq<Backoff>, waits: Seq<u64>)
    requires
        states.len() == waits.len() + 1,
        states[0].current() == 1,
        forall|i: int|
            0 <= i < waits.len() ==> #[trigger] waits[i] == states[i].current() && states[i
                + 1].current() == doubled_delay(waits[i]),
    ensures
        forall|i: int| 0 <= i < waits.len() ==> #[trigger] waits[i] == delay_after_failures(i as nat),
        forall|i: int| 0 <= i < waits.len() && i <= 5 ==> #[trigger] waits[i] == vstd::arithmetic::power2::pow2(i as nat),
        forall|i: int| 0 <= i < waits.len() && i >= 6 ==> #[trigger] waits[i] == MAX_RETRY_DELAY_SECS,
{
    assert forall|i: int| 0 <= i <= waits.len() implies #[trigger] states[i].current() == delay_after_failures(i as nat) by {
        lemma_state_after_failures(states, waits, i);
    }
    assert forall|i: int| 0 <= i < waits.len() implies #[trigger] waits[i] == delay_after_failures(i as nat) by {
        assert(states[i].current() == delay_after_failures(i as nat));
    }
    assert forall|i: int| 0 <= i < waits.len() && i <= 5 implies #[trigger] waits[i] == vstd::arithmetic::power2::pow2(i as nat) by {
        lemma_backoff_schedule(i as nat);
        assert(states[i].current() == delay_after_failures(i as nat));
    }
    assert forall|i: int| 0 <= i < waits.len() && i >= 6 implies #[trigger] waits[i] == MAX_RETRY_DELAY_SECS by {
        lemma_backoff_schedule(i as nat);
        assert(states[i].current() == delay_after_failures(i as nat));
    }
}

proof fn lemma_state_after_failures(states: Seq<Backoff>, waits: Seq<u64>, i: int)
    requires
        states.len() == waits.len() + 1,
        states[0].current() == 1,
        forall|k: int|
            0 <= k < waits.len() ==> #[trigger] waits[k] == states[k].current() && states[k
                + 1].current() == doubled_delay(waits[k]),
        0 <= i <= waits.len(),
    ensures
        states[i].current() == delay_after_failures(i as nat),
    decreases i,
{
    if i > 0 {
        lemma_state_after_failures(states, waits, i - 1);
        assert(waits[i - 1] == states[i - 1].current());
    }
}

/// Which messages of the mailbox have been seen: everything up to the last
/// UID handled.
pub struct ImapCursor {
    pub last_uid: u32,
}

/// The greatest of `uids`, or 0 when there is none.
pub open spec fn max_uid(uids: Seq<u32>) -> u32
    decreases uids.len(),
{
    if uids.len() == 0 {
        0
    } else {
        let m = max_uid(uids.drop_last());
        if uids.last() > m {
            uids.last()
        } else {
            m
        }
    }
}

proof fn lemma_max_uid(uids: Seq<u32>)
    ensures
        forall|i: int| 0 <= i < uids.len() ==> uids[i] <= max_uid(uids),
        uids.len() > 0 ==> uids.contains(max_uid(uids)),
    decreases uids.len(),
{
    if uids.len() > 0 {
        lemma_max_uid(uids.drop_last());
        assert forall|i: int| 0 <= i < uids.len() implies uids[i] <= max_uid(uids) by {
            if i < uids.len() - 1 {
                assert(uids.drop_last()[i] == uids[i]);
            }
        }
        if max_uid(uids) != uids.last() {
            let j = choose|j: int| 0 <= j < uids.drop_last().len() && uids.drop_last()[j] == max_uid(
                uids.drop_last(),
            );
            assert(uids[j] == max_uid(uids));
        }
    }
}

/// What happens to the cursor: a (re)connection that finds `uids` in the
/// mailbox, or the handling of a new message.
pub enum CursorEvent {
    Connect(Seq<u32>),
    Handled(u32),
}

/// The cursor after one event.
pub open spec fn cursor_step(last_uid: u32, event: CursorEvent) -> u32 {
    match event {
        CursorEvent::Connect(uids) => if last_uid == 0 {
            max_uid(uids)
        } else {
            last_uid
        },
        CursorEvent::Handled(uid) => uid,
    }
}

/// The cursor after a run of events.
pub open spec fn cursor_run(last_uid: u32, events: Seq<CursorEvent>) -> u32
    decreases events.len(),
{
    if events.len() == 0 {
        last_uid
    } else {
        cursor_run(cursor_step(last_uid, events[0]), events.drop_first())
    }
}

/// Reconnecting never moves a cursor that has left 0: over any run of
/// connections without new messages it stays where it was.
pub proof fn lemma_reconnects_keep_cursor(last_uid: u32, events: Seq<CursorEvent>)
    requires
        last_uid != 0,
        forall|i: int| 0 <= i < events.len() ==> #[trigger] events[i] is Connect,
    ensures
        cursor_run(last_uid, events) == last_uid,
    decreases events.len(),
{
    if events.len() > 0 {
        assert(events[0] is Connect);
        let rest = events.drop_first();
        assert forall|i: int| 0 <= i < rest.len() implies #[trigger] rest[i] is Connect by {
            assert(rest[i] == events[i + 1]);
        }
        lemma_reconnects_keep_cursor(last_uid, rest);
    }
}

/// Only the first connection skips the mail already there: a fresh cursor
/// that connects to a mailbox holding `uids` (not all zero) moves to their
/// greatest, and later reconnections leave it there.
pub proof fn lemma_first_connection_skips(uids: Seq<u32>, later: Seq<CursorEvent>)
    requires
        max_uid(uids) != 0,
        forall|i: int| 0 <= i < later.len() ==> #[trigger] later[i] is Connect,
    ensures
        cursor_run(0, seq![CursorEvent::Connect(uids)] + later) == max_uid(uids),
        forall|i: int| 0 <= i < uids.len() ==> uids[i] <= cursor_run(0, seq![CursorEvent::Connect(uids)] + later),
{
    let events = seq![CursorEvent::Connect(uids)] + later;
    assert(events[0] == CursorEvent::Connect(uids));
    assert(events.drop_first() == later);
    lemma_reconnects_keep_cursor(max_uid(uids), later);
    lemma_max_uid(uids);
}

impl ImapCursor {
    pub fn new() -> (c: ImapCursor)
        ensures
            c.last_uid == 0,
    {
        ImapCursor { last_uid: 0 }
    }

    /// On connecting: a cursor that has seen nothing yet skips every message
    /// already in the mailbox (`uids` are all the UIDs there), so that only
    /// later mail counts as new; otherwise it is kept.
    pub fn start(&mut self, uids: &Vec<u32>)
        ensures
            final(self).last_uid == cursor_step(old(self).last_uid, CursorEvent::Connect(uids@)),
            old(self).last_uid != 0 ==> final(self).last_uid == old(self).last_uid,
            old(self).last_uid == 0 ==> final(self).last_uid == max_uid(uids@),
            old(self).last_uid == 0 ==> forall|i: int| 0 <= i < uids@.len() ==> uids@[i] <= final(self).last_uid,
            old(self).last_uid == 0 && uids@.len() > 0 ==> uids@.contains(final(self).last_uid),
    {
        if self.last_uid == 0 {
            let mut m: u32 = 0;
            let mut i: usize = 0;
            while i < uids.len()
                invariant
                    i <= uids.len(),
                    m == max_uid(uids@.take(i as int)),
                decreases uids.len() - i,
            {
                assert(uids@.take(i + 1).drop_last() == uids@.take(i as int));
                if uids[i] > m {
                    m = uids[i];
                }
                i += 1;
            }
            assert(uids@.take(uids.len() as int) == uids@);
            proof {
                lemma_max_uid(uids@);
            }
            self.last_uid = m;
        }
    }

    /// The search for new messages: every UID from the one after the last
    /// seen, as `n:*`.
    pub fn search_query(&self) -> (q: String)
        requires
            self.last_uid < u32::MAX,
        ensures
            q@ == decimal(self.last_uid as nat + 1) + ":*"@,
    {
        let mut q = String::new();
        push_decimal(&mut q, self.last_uid as u64 + 1);
        q.append(":*");
        q
    }

    /// A message found by the search has been handled.
    pub fn record(&mut self, uid: u32)
        ensures
            final(self).last_uid == uid,
            final(self).last_uid == cursor_step(old(self).last_uid, CursorEvent::Handled(uid)),
    {
        self.last_uid = uid;
    }
}

/// How long one IDLE wait may last, in seconds.
pub fn idle_timeout_secs(minutes: u32) -> (s: u64)
    ensures
        s == minutes * 60,
{
    minutes as u64 * 60
}

/// How one IDLE wait ended.
#[derive(Clone, Copy, Debug, PartialEq, Eq, Structural)]
pub enum IdleOutcome {
    /// The server reported new data.
    NewData,
    /// The server's own IDLE timeout.
    Timeout,
    /// The wait was interrupted locally.
    ManualInterrupt,
    /// The wait itself failed.
    WaitFailed,
    /// Our own timer ran out first.
    Elapsed,
}

/// What the watcher does next.
#[derive(Clone, Copy, Debug, PartialEq, Eq, Structural)]
pub enum IdleAction {
    /// Search for and process new messages, then wait again.
    SearchNew,
    /// Wait again.
    Reenter,
    /// Leave the session cleanly; the watcher reconnects at once.
    Reconnect,
    /// Leave the session with an error; the watcher backs off.
    Fail,
}

/// After an IDLE wait: if ending IDLE (`DONE`) failed the session is left
/// cleanly whatever the wait gave; otherwise new data is searched, a failed
/// wait ends the session with an error, and any timeout waits again.
pub fn idle_action(done_ok: bool, outcome: IdleOutcome) -> (a: IdleAction)
    ensures
        !done_ok ==> a == IdleAction::Reconnect,
        done_ok ==> a == (match outcome {
            IdleOutcome::NewData => IdleAction::SearchNew,
            IdleOutcome::WaitFailed => IdleAction::Fail,
            _ => IdleAction::Reenter,
        }),
{
    if !done_ok {
        return IdleAction::Reconnect;
    }
    match outcome {
        IdleOutcome::NewData => IdleAction::SearchNew,
        IdleOutcome::WaitFailed => IdleAction::Fail,
        IdleOutcome::Timeout | IdleOutcome::ManualInterrupt | IdleOutcome::Elapsed => IdleAction::Reenter,
    }
}

} // verus!
