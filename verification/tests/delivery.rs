use mailserver::models::Mail;
use mailserver::pop3::{Pop3Event, Pop3Next, Pop3Session};
use mailserver::smtp::{SmtpEvent, SmtpNext, SmtpSession};

fn smtp(s: &mut SmtpSession, l: &str) -> SmtpNext {
    s.handle(SmtpEvent::Line(String::from(l))).unwrap().next
}

fn pop3(s: &mut Pop3Session, l: &str) -> Pop3Next {
    s.handle(Pop3Event::Received(l.as_bytes().to_vec())).unwrap().next
}

fn copy(m: &Mail) -> Mail {
    Mail { uid: m.uid.clone(), sender: m.sender.clone(), reciever: m.reciever.clone(), body: m.body.clone() }
}

#[test]
fn sent_text_is_retrieved_unchanged() {
    let mut s = SmtpSession::new();
    smtp(&mut s, "HELO a\r\n");
    smtp(&mut s, "MAIL FROM:<alice@a>\r\n");
    smtp(&mut s, "RCPT TO:<bob@b>\r\n");
    smtp(&mut s, "DATA\r\n");
    for l in ["Subject: x\r\n", "\r\n", "line ✓\r\n", " .\r\n"] {
        assert_eq!(smtp(&mut s, l), SmtpNext::Continue);
    }
    assert_eq!(smtp(&mut s, ".\r\n"), SmtpNext::Store);
    let stored = vec![Mail::with_uid(String::from("other")), copy(s.mail())];

    let mut p = Pop3Session::new();
    pop3(&mut p, "USER bob@b\r\n");
    assert_eq!(pop3(&mut p, "LIST\r\n"), Pop3Next::FetchMail(String::from("bob@b")));
    let listing = p.handle(Pop3Event::Mailbox(Some(vec![copy(&stored[0]), copy(&stored[1])]))).unwrap().reply;
    let expected_size = "Subject: x\r\n\r\nline ✓\r\n .\r\n".len();
    assert_eq!(listing, format!("+OK Mailbox listing follows\r\n1 0\r\n2 {}\r\n.\r\n", expected_size));
    // the number LIST prints for the mail is the one RETR takes back
    pop3(&mut p, "RETR 2\r\n");
    let text = p.handle(Pop3Event::Mailbox(Some(stored))).unwrap().reply;
    assert_eq!(text, "+OK Mail follows\r\nSubject: x\r\n\r\nline ✓\r\n .\r\n.\r\n");
}

#[test]
fn only_user_and_pass_change_credentials() {
    let mut p = Pop3Session::new();
    pop3(&mut p, "CAPA\r\n");
    pop3(&mut p, "AUTH\r\n");
    pop3(&mut p, "DELE 1\r\n");
    p.handle(Pop3Event::Deleted(true)).unwrap();
    assert_eq!(p.user(), None);
    assert_eq!(p.password(), None);
    pop3(&mut p, "USER jörg\r\n");
    pop3(&mut p, "STAT\r\n");
    p.handle(Pop3Event::MailboxSize(Some(-1))).unwrap();
    pop3(&mut p, "NOOP x\r\n");
    assert_eq!(p.user(), Some(String::from("jörg")));
    assert_eq!(p.password(), None);
    pop3(&mut p, "PASS pw\r\n");
    assert_eq!(p.user(), Some(String::from("jörg")));
    assert_eq!(p.password(), Some(String::from("pw")));
}

#[test]
fn negative_count_is_written_with_sign() {
    let mut p = Pop3Session::new();
    pop3(&mut p, "USER u\r\n");
    pop3(&mut p, "STAT\r\n");
    assert_eq!(p.handle(Pop3Event::MailboxSize(Some(-7))).unwrap().reply, "+OK -7 0\r\n");
}

#[test]
fn smtp_quit_in_any_case_closes() {
    for q in ["QUIT\r\n", "quit", "QuIt extra words\r\n"] {
        let mut s = SmtpSession::new();
        let a = s.handle(SmtpEvent::Line(String::from(q))).unwrap();
        assert_eq!(a.reply, "221 Goodbye\n");
        assert_eq!(a.next, SmtpNext::Close);
    }
}
