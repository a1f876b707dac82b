use email_server::imap::{idle_action, idle_timeout_secs, Backoff, IdleAction, IdleOutcome, ImapCursor};

#[test]
fn backoff_doubles_up_to_sixty_and_resets() {
    let mut b = Backoff::new();
    let waits: Vec<u64> = (0..9).map(|_| b.on_failure()).collect();
    assert_eq!(waits, vec![1, 2, 4, 8, 16, 32, 60, 60, 60]);
    b.on_success();
    assert_eq!(b.delay_secs(), 1);
    assert_eq!(b.on_failure(), 1);
    assert_eq!(b.delay_secs(), 2);
}

#[test]
fn cursor_skips_existing_mail_once() {
    let mut c = ImapCursor::new();
    c.start(&vec![3, 17, 9]);
    assert_eq!(c.last_uid, 17);
    assert_eq!(c.search_query(), "18:*");
    c.record(18);
    c.record(20);
    assert_eq!(c.last_uid, 20);
    // reconnecting keeps the cursor
    c.start(&vec![1, 2, 100]);
    assert_eq!(c.last_uid, 20);

    let mut empty = ImapCursor::new();
    empty.start(&vec![]);
    assert_eq!(empty.last_uid, 0);
    assert_eq!(empty.search_query(), "1:*");
}

#[test]
fn idle_decisions() {
    assert_eq!(idle_action(true, IdleOutcome::NewData), IdleAction::SearchNew);
    assert_eq!(idle_action(true, IdleOutcome::Timeout), IdleAction::Reenter);
    assert_eq!(idle_action(true, IdleOutcome::ManualInterrupt), IdleAction::Reenter);
    assert_eq!(idle_action(true, IdleOutcome::Elapsed), IdleAction::Reenter);
    assert_eq!(idle_action(true, IdleOutcome::WaitFailed), IdleAction::Fail);
    assert_eq!(idle_action(false, IdleOutcome::NewData), IdleAction::Reconnect);
    assert_eq!(idle_action(false, IdleOutcome::WaitFailed), IdleAction::Reconnect);
    assert_eq!(idle_timeout_secs(29), 1740);
    assert_eq!(idle_timeout_secs(u32::MAX), u32::MAX as u64 * 60);
}
