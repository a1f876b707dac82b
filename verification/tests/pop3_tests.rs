use email_server::pop3::{
    pass_command, quit_command, retr_command, uidl_command, user_command, Pop3Action, Pop3Poll,
    Pop3Retrieval, RetrAction, SeenUidls,
};

fn sent(a: Pop3Action) -> String {
    match a {
        Pop3Action::Send(c) => c,
        _ => panic!("expected a command"),
    }
}

fn login(p: &mut Pop3Poll, seen: &mut SeenUidls) {
    assert_eq!(sent(p.on_line("+OK POP3 ready\r\n", seen)), "USER user@example.com\r\n");
    assert_eq!(sent(p.on_line("+OK\r\n", seen)), "PASS secret\r\n");
    assert_eq!(sent(p.on_line("+OK logged in\r\n", seen)), "UIDL\r\n");
    assert!(matches!(p.on_line("+OK\r\n", seen), Pop3Action::ReadLine));
}

fn listing(p: &mut Pop3Poll, seen: &mut SeenUidls, lines: &[&str]) -> Vec<u32> {
    for l in lines {
        assert!(matches!(p.on_line(l, seen), Pop3Action::ReadLine));
        assert!(!p.is_over());
    }
    match p.on_line(".\r\n", seen) {
        Pop3Action::Retrieve(v) => {
            assert!(p.is_over());
            v
        }
        _ => panic!("expected the end of the listing"),
    }
}

#[test]
fn first_poll_reports_all_then_only_new() {
    let mut seen = SeenUidls::new();
    let mut p = Pop3Poll::new("user@example.com", "secret");
    login(&mut p, &mut seen);
    let first = listing(&mut p, &mut seen, &["1 aaa\r\n", "2 bbb\r\n"]);
    assert_eq!(first, vec![1, 2]);

    let mut q = Pop3Poll::new("user@example.com", "secret");
    login(&mut q, &mut seen);
    let second = listing(&mut q, &mut seen, &["1 aaa\r\n", "2 bbb\r\n", "3 ccc\r\n"]);
    assert_eq!(second, vec![3]);
}

#[test]
fn listing_lines_are_unstuffed_trimmed_and_parsed() {
    let mut seen = SeenUidls::new();
    let mut p = Pop3Poll::new("user@example.com", "secret");
    login(&mut p, &mut seen);
    let nums = listing(
        &mut p,
        &mut seen,
        &["..7 dotted\r\n", "  8 spaced id  \r\n", "x odd\r\n", "noseparator\r\n", "9 dotted\r\n"],
    );
    // ".7" is not a number, so it counts as 0; "9 dotted" repeats an id
    assert_eq!(nums, vec![0, 8, 0]);
    let mut again = SeenUidls::new();
    assert!(again.insert("spaced id".to_string()));
    assert!(!again.insert("spaced id".to_string()));
    assert!(seen.contains(&"spaced id".to_string()));
    assert!(seen.contains(&"dotted".to_string()));
    assert!(!seen.contains(&"noseparator".to_string()));
}

fn aborted(a: Pop3Action) -> String {
    match a {
        Pop3Action::Abort(e) => e,
        _ => panic!("expected an error"),
    }
}

#[test]
fn refusals_end_the_poll() {
    let mut seen = SeenUidls::new();
    let mut p = Pop3Poll::new("u", "p");
    assert_eq!(aborted(p.on_line("-ERR busy \r\n", &mut seen)), "POP3 server greeting error: -ERR busy");
    assert!(p.is_over());

    let mut p = Pop3Poll::new("u", "p");
    p.on_line("+OK\r\n", &mut seen);
    assert_eq!(aborted(p.on_line("-ERR who?\r\n", &mut seen)), "POP3 USER error: -ERR who?");

    let mut p = Pop3Poll::new("u", "p");
    p.on_line("+OK\r\n", &mut seen);
    p.on_line("+OK\r\n", &mut seen);
    assert_eq!(aborted(p.on_line("-ERR bad password\r\n", &mut seen)), "POP3 PASS error: -ERR bad password");

    let mut p = Pop3Poll::new("u", "p");
    p.on_line("+OK\r\n", &mut seen);
    p.on_line("+OK\r\n", &mut seen);
    p.on_line("+OK\r\n", &mut seen);
    assert_eq!(aborted(p.on_line("-ERR\r\n", &mut seen)), "POP3 UIDL error: -ERR");
}

#[test]
fn retrieval_reassembles_and_unstuffs() {
    let mut r = Pop3Retrieval::new();
    assert!(matches!(r.on_line("+OK 120 octets\r\n"), RetrAction::ReadLine));
    for l in ["Subject: x\r\n", "\r\n", "..leading dot\r\n", "code 123456\r\n"] {
        assert!(matches!(r.on_line(l), RetrAction::ReadLine));
    }
    match r.on_line(".\r\n") {
        RetrAction::Complete(m) => assert_eq!(m, "Subject: x\r\n\r\n.leading dot\r\ncode 123456\r\n"),
        _ => panic!("expected the message"),
    }
    assert!(r.is_over());

    let mut bad = Pop3Retrieval::new();
    match bad.on_line("-ERR no such message\r\n") {
        RetrAction::Abort(e) => assert_eq!(e, "POP3 RETR error: -ERR no such message"),
        _ => panic!("expected an error"),
    }
}

#[test]
fn commands() {
    assert_eq!(user_command("a@b"), "USER a@b\r\n");
    assert_eq!(pass_command("pw"), "PASS pw\r\n");
    assert_eq!(uidl_command(), "UIDL\r\n");
    assert_eq!(retr_command(0), "RETR 0\r\n");
    assert_eq!(retr_command(42), "RETR 42\r\n");
    assert_eq!(quit_command(), "QUIT\r\n");
}

#[test]
fn second_poll_of_same_listing_retrieves_nothing() {
    let mut seen = SeenUidls::new();
    let lines = ["1 aaa\r\n", "2 bbb\r\n", "3 ccc\r\n"];
    let mut p = Pop3Poll::new("user@example.com", "secret");
    login(&mut p, &mut seen);
    assert_eq!(listing(&mut p, &mut seen, &lines), vec![1, 2, 3]);
    let mut q = Pop3Poll::new("user@example.com", "secret");
    login(&mut q, &mut seen);
    assert!(listing(&mut q, &mut seen, &lines).is_empty());
}
