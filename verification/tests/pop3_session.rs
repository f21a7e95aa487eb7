use base64::Engine;
use hmac::Mac;
use mailserver::models::{Mail, User};
use mailserver::pop3::{Pop3Action, Pop3Event, Pop3Next, Pop3Session};

fn cmd(s: &mut Pop3Session, text: &str) -> Pop3Action {
    s.handle(Pop3Event::Received(text.as_bytes().to_vec())).expect("answered")
}

fn mail(uid: &str, body: &str) -> Mail {
    Mail {
        uid: String::from(uid),
        sender: String::from("a@b"),
        reciever: String::from("bob"),
        body: String::from(body),
    }
}

fn digest(password: &str, challenge: &str) -> String {
    let mut mac = hmac::Hmac::<md5::Md5>::new_from_slice(password.as_bytes()).unwrap();
    mac.update(challenge.as_bytes());
    hex::encode(mac.finalize().into_bytes())
}

fn b64(s: &str) -> String {
    base64::engine::general_purpose::STANDARD.encode(s)
}

fn logged_in(user: &str) -> Pop3Session {
    let mut s = Pop3Session::new();
    cmd(&mut s, &format!("USER {}\r\n", user));
    s
}

#[test]
fn pop3_greets() {
    assert_eq!(Pop3Session::greeting(), "+OK POP3 server ready\r\n");
}

#[test]
fn lists_capabilities() {
    let mut s = Pop3Session::new();
    let a = cmd(&mut s, "CAPA\r\n");
    assert_eq!(
        a.reply,
        "+OK Capability list follows\r\nSASL CRAM-MD5 PLAIN\r\nUSER\r\nPASS\r\nAUTH\r\nSTAT\r\nLIST\r\nQUIT\r\n.\r\n"
    );
    assert_eq!(a.next, Pop3Next::ReadCommand);
}

#[test]
fn auth_without_and_with_unknown_mechanism() {
    let mut s = Pop3Session::new();
    assert_eq!(cmd(&mut s, "AUTH\r\n").reply, "+ Ok.");
    assert_eq!(cmd(&mut s, "AUTH PLAIN\r\n").reply, "-ERR unsupported auth method\r\n");
    assert_eq!(cmd(&mut s, "AUTH cram-md5\r\n").reply, "-ERR unsupported auth method\r\n");
}

#[test]
fn cram_md5_accepts_the_right_digest() {
    let mut s = Pop3Session::new();
    let a = cmd(&mut s, "AUTH CRAM-MD5\r\n");
    assert_eq!(a.reply, "");
    assert_eq!(a.next, Pop3Next::ReadClock);
    let a = s.handle(Pop3Event::Clock(1700000000)).unwrap();
    let challenge = "<1700000000.mx24.144@example.net>\r\n";
    assert_eq!(a.reply, format!("+ {}\r\n", b64(challenge)));
    assert_eq!(a.next, Pop3Next::ReadCramResponse);
    let answer = format!("alice@example.org {}", digest("secret", challenge));
    let a = s.handle(Pop3Event::CramResponse(format!("{}\r\n", b64(&answer)))).unwrap();
    assert_eq!(a.reply, "");
    assert_eq!(a.next, Pop3Next::LookUpAccount(String::from("alice@example.org")));
    let account = User {
        name: String::from("Alice"),
        address: String::from("alice@example.org"),
        password: String::from("secret"),
    };
    let a = s.handle(Pop3Event::Account(Some(account))).unwrap();
    assert_eq!(a.reply, "+OK mailbox locked and ready\r\n");
    assert_eq!(a.next, Pop3Next::ReadCommand);
    assert_eq!(s.user(), Some(String::from("alice@example.org")));
}

#[test]
fn cram_md5_refuses_a_wrong_digest() {
    let mut s = Pop3Session::new();
    cmd(&mut s, "AUTH CRAM-MD5\r\n");
    s.handle(Pop3Event::Clock(5)).unwrap();
    let answer = format!("alice {}", digest("wrong", "<5.mx24.144@example.net>\r\n"));
    let a = s.handle(Pop3Event::CramResponse(b64(&answer))).unwrap();
    assert_eq!(a.next, Pop3Next::LookUpAccount(String::from("alice")));
    let account = User {
        name: String::from("Alice"),
        address: String::from("alice"),
        password: String::from("secret"),
    };
    let a = s.handle(Pop3Event::Account(Some(account))).unwrap();
    assert_eq!(a.reply, "-ERR Invalid Credentials");
    assert_eq!(a.next, Pop3Next::Close);
    assert_eq!(s.user(), None);
}

#[test]
fn cram_md5_without_account_is_refused() {
    let mut s = Pop3Session::new();
    cmd(&mut s, "AUTH CRAM-MD5\r\n");
    s.handle(Pop3Event::Clock(5)).unwrap();
    s.handle(Pop3Event::CramResponse(b64("nobody 00"))).unwrap();
    let a = s.handle(Pop3Event::Account(None)).unwrap();
    assert_eq!(a.reply, "-ERR Invalid Credentials");
    assert_eq!(a.next, Pop3Next::Close);
}

#[test]
fn cram_md5_empty_answer_fails_softly() {
    let mut s = Pop3Session::new();
    cmd(&mut s, "AUTH CRAM-MD5\r\n");
    s.handle(Pop3Event::Clock(5)).unwrap();
    let a = s.handle(Pop3Event::CramResponse(String::new())).unwrap();
    assert_eq!(a.reply, "-ERR Authentication failed\r\n");
    assert_eq!(a.next, Pop3Next::ReadCommand);
    assert_eq!(cmd(&mut s, "QUIT").next, Pop3Next::Close);
}

#[test]
fn cram_md5_malformed_answers_fail() {
    for answer in [String::from("not base64!"), b64("onlyoneword"), base64::engine::general_purpose::STANDARD.encode([0xffu8, 0x20, 0x41])] {
        let mut s = Pop3Session::new();
        cmd(&mut s, "AUTH CRAM-MD5\r\n");
        s.handle(Pop3Event::Clock(5)).unwrap();
        assert!(s.handle(Pop3Event::CramResponse(answer)).is_none());
    }
}

#[test]
fn user_and_pass_are_recorded() {
    let mut s = Pop3Session::new();
    assert_eq!(cmd(&mut s, "USER bob\r\n").reply, "+OK User accepted\r\n");
    assert_eq!(cmd(&mut s, "PASS hunter2 ignored\r\n").reply, "+OK Password accepted\r\n");
    assert_eq!(s.user(), Some(String::from("bob")));
    assert_eq!(s.password(), Some(String::from("hunter2")));
}

#[test]
fn stat_reports_count() {
    let mut s = logged_in("bob");
    let a = cmd(&mut s, "STAT\r\n");
    assert_eq!(a.next, Pop3Next::CountMail(String::from("bob")));
    let a = s.handle(Pop3Event::MailboxSize(Some(3))).unwrap();
    assert_eq!(a.reply, "+OK 3 0\r\n");
    cmd(&mut s, "STAT\r\n");
    let a = s.handle(Pop3Event::MailboxSize(None)).unwrap();
    assert_eq!(a.reply, "-ERR Could not retrieve mailbox size\r\n");
}

#[test]
fn list_uidl_and_retr_agree() {
    let mails = vec![mail("u-1", "hello\r\n"), mail("u-2", "héllo wörld\r\n")];
    let mut s = logged_in("bob");
    assert_eq!(cmd(&mut s, "LIST\r\n").next, Pop3Next::FetchMail(String::from("bob")));
    let a = s.handle(Pop3Event::Mailbox(Some(mails))).unwrap();
    assert_eq!(a.reply, "+OK Mailbox listing follows\r\n1 7\r\n2 15\r\n.\r\n");
    let mails = vec![mail("u-1", "hello\r\n"), mail("u-2", "héllo wörld\r\n")];
    cmd(&mut s, "UIDL\r\n");
    let a = s.handle(Pop3Event::Mailbox(Some(mails))).unwrap();
    assert_eq!(a.reply, "+OK Unique ID listing follows\r\n1 u-1\r\n2 u-2\r\n.\r\n");
    let mails = vec![mail("u-1", "hello\r\n"), mail("u-2", "héllo wörld\r\n")];
    assert_eq!(cmd(&mut s, "RETR 2\r\n").next, Pop3Next::FetchMail(String::from("bob")));
    let a = s.handle(Pop3Event::Mailbox(Some(mails))).unwrap();
    assert_eq!(a.reply, "+OK Mail follows\r\nhéllo wörld\r\n.\r\n");
}

#[test]
fn empty_listing() {
    let mut s = logged_in("bob");
    cmd(&mut s, "LIST");
    let a = s.handle(Pop3Event::Mailbox(Some(vec![]))).unwrap();
    assert_eq!(a.reply, "+OK Mailbox listing follows\r\n.\r\n");
    cmd(&mut s, "UIDL");
    let a = s.handle(Pop3Event::Mailbox(None)).unwrap();
    assert_eq!(a.reply, "-ERR Could not retrieve mailbox size\r\n");
}

#[test]
fn retr_outside_the_mailbox_fails() {
    for n in ["0", "3", "-1"] {
        let mut s = logged_in("bob");
        cmd(&mut s, &format!("RETR {}\r\n", n));
        assert!(s.handle(Pop3Event::Mailbox(Some(vec![mail("a", "x"), mail("b", "y")]))).is_none());
    }
}

#[test]
fn dele_names_the_mail() {
    let mut s = Pop3Session::new();
    let a = cmd(&mut s, "DELE +12\r\n");
    assert_eq!(a.next, Pop3Next::DeleteMail(12));
    assert_eq!(s.handle(Pop3Event::Deleted(true)).unwrap().reply, "+OK msg deleted\r\n");
    cmd(&mut s, "DELE 3");
    assert_eq!(s.handle(Pop3Event::Deleted(false)).unwrap().reply, "-ERR Could not delete message\r\n");
}

#[test]
fn quit_and_unknown() {
    let mut s = Pop3Session::new();
    assert_eq!(cmd(&mut s, "NOOP\r\n").reply, "-ERR Command not recognized\r\n");
    assert_eq!(cmd(&mut s, "quit\r\n").reply, "-ERR Command not recognized\r\n");
    assert_eq!(cmd(&mut s, " \r\n").reply, "-ERR Command not recognized\r\n");
    let a = cmd(&mut s, "QUIT\r\n");
    assert_eq!(a.reply, "+OK POP3 server signing off\r\n");
    assert_eq!(a.next, Pop3Next::Close);
}

#[test]
fn bytes_that_are_not_text_are_ignored() {
    let mut s = Pop3Session::new();
    let a = s.handle(Pop3Event::Received(vec![0xff, 0xfe])).unwrap();
    assert_eq!(a.reply, "");
    assert_eq!(a.next, Pop3Next::ReadCommand);
    let a = s.handle(Pop3Event::Received(vec![])).unwrap();
    assert_eq!(a.next, Pop3Next::Close);
}

#[test]
fn pop3_fails_where_the_server_fails() {
    let mut s = Pop3Session::new();
    for t in ["USER", "PASS\r\n", "STAT", "LIST", "UIDL", "RETR 1", "RETR", "DELE", "DELE x", "DELE 99999999999"] {
        assert!(s.handle(Pop3Event::Received(t.as_bytes().to_vec())).is_none(), "{}", t);
    }
    assert!(s.handle(Pop3Event::Received(b"CAPA".to_vec())).is_some());
    let mut s = logged_in("bob");
    assert!(s.handle(Pop3Event::Received(b"RETR x".to_vec())).is_none());
    assert!(s.handle(Pop3Event::Received(b"RETR 1".to_vec())).is_some());
}

#[test]
fn events_out_of_turn_are_refused() {
    let mut s = Pop3Session::new();
    assert!(s.handle(Pop3Event::Clock(1)).is_none());
    assert!(s.handle(Pop3Event::Deleted(true)).is_none());
    assert!(s.handle(Pop3Event::Mailbox(None)).is_none());
    cmd(&mut s, "AUTH CRAM-MD5");
    assert!(s.handle(Pop3Event::Received(b"QUIT".to_vec())).is_none());
    assert!(s.handle(Pop3Event::Clock(1)).is_some());
}
