use mailserver::smtp::{SmtpAction, SmtpEvent, SmtpNext, SmtpSession};

fn line(s: &str) -> SmtpEvent {
    SmtpEvent::Line(String::from(s))
}

fn send(s: &mut SmtpSession, text: &str) -> SmtpAction {
    s.handle(line(text)).expect("answered")
}

#[test]
fn greets_with_version() {
    assert_eq!(SmtpSession::greeting(), "220 SMTP/0.1 READY\n");
}

#[test]
fn full_mail_transaction() {
    let mut s = SmtpSession::new();
    let a = send(&mut s, "EHLO client.example\r\n");
    assert_eq!(a.reply, "250 Hello client.example\n");
    assert_eq!(a.next, SmtpNext::Continue);
    let a = send(&mut s, "MAIL FROM:<alice@example.org>\r\n");
    assert_eq!(a.reply, "250 OK\n");
    let a = send(&mut s, "rcpt TO: <bob@example.net> SIZE=10\r\n");
    assert_eq!(a.reply, "250 OK\n");
    let a = send(&mut s, "DATA\r\n");
    assert_eq!(a.reply, "354 Start mail input; end with <CRLF>.<CRLF>\n");
    assert!(s.in_data());
    let a = send(&mut s, "Subject: hi\r\n");
    assert_eq!(a.reply, "");
    assert_eq!(a.next, SmtpNext::Continue);
    send(&mut s, "\r\n");
    send(&mut s, "HELO is text here\r\n");
    let a = send(&mut s, ".\r\n");
    assert_eq!(a.reply, "250 OK: Queueds\n");
    assert_eq!(a.next, SmtpNext::Store);
    assert!(!s.in_data());
    assert_eq!(s.mail().sender, "alice@example.org");
    assert_eq!(s.mail().reciever, "bob@example.net");
    assert_eq!(s.mail().body, "Subject: hi\r\n\r\nHELO is text here\r\n");
    let a = send(&mut s, "QUIT\r\n");
    assert_eq!(a.reply, "221 Goodbye\n");
    assert_eq!(a.next, SmtpNext::Close);
}

#[test]
fn end_of_stream_completes_a_mail() {
    let mut s = SmtpSession::new();
    send(&mut s, "data\n");
    send(&mut s, "partial");
    let a = s.handle(SmtpEvent::End).unwrap();
    assert_eq!(a.reply, "250 OK: Queueds\n");
    assert_eq!(a.next, SmtpNext::Store);
    assert_eq!(s.mail().body, "partial");
    let a = s.handle(SmtpEvent::End).unwrap();
    assert_eq!(a.reply, "");
    assert_eq!(a.next, SmtpNext::Close);
}

#[test]
fn dot_line_must_be_exact() {
    let mut s = SmtpSession::new();
    send(&mut s, "DATA\r\n");
    let a = send(&mut s, ".\n");
    assert_eq!(a.next, SmtpNext::Continue);
    let a = send(&mut s, "..\r\n");
    assert_eq!(a.next, SmtpNext::Continue);
    assert_eq!(s.mail().body, ".\n..\r\n");
}

#[test]
fn body_grows_across_data_commands() {
    let mut s = SmtpSession::new();
    send(&mut s, "DATA\r\n");
    send(&mut s, "one\r\n");
    send(&mut s, ".\r\n");
    send(&mut s, "DATA\r\n");
    send(&mut s, "two\r\n");
    send(&mut s, ".\r\n");
    assert_eq!(s.mail().body, "one\r\ntwo\r\n");
}

#[test]
fn reset_starts_a_new_mail() {
    let mut s = SmtpSession::new();
    let uid = s.mail().uid.clone();
    send(&mut s, "MAIL FROM:<a@b>\r\n");
    send(&mut s, "DATA\r\n");
    send(&mut s, "x\r\n");
    send(&mut s, ".\r\n");
    let a = send(&mut s, "RSET\r\n");
    assert_eq!(a.reply, "250 OK\n");
    assert_eq!(s.mail().sender, "");
    assert_eq!(s.mail().reciever, "");
    assert_eq!(s.mail().body, "");
    assert_ne!(s.mail().uid, uid);
    assert_eq!(s.mail().uid.len(), 36);
}

#[test]
fn address_needs_both_brackets() {
    let mut s = SmtpSession::new();
    let a = send(&mut s, "MAIL FROM:alice@example.org\r\n");
    assert_eq!(a.reply, "");
    assert_eq!(s.mail().sender, "");
    let a = send(&mut s, "MAIL FROM:<alice\r\n");
    assert_eq!(a.reply, "");
    let a = send(&mut s, "MAIL FROM:<>\r\n");
    assert_eq!(a.reply, "250 OK\n");
    assert_eq!(s.mail().sender, "");
    let a = send(&mut s, "MAIL <a> <b>\r\n");
    assert_eq!(a.reply, "250 OK\n");
    assert_eq!(s.mail().sender, "a");
}

#[test]
fn address_keeps_joined_spaces() {
    let mut s = SmtpSession::new();
    send(&mut s, "MAIL FROM:<a   b\tc>\r\n");
    assert_eq!(s.mail().sender, "a b c");
}

#[test]
fn unknown_command() {
    let mut s = SmtpSession::new();
    let a = send(&mut s, "VRFY bob\r\n");
    assert_eq!(a.reply, "500 Command not recognized\n");
    assert_eq!(a.next, SmtpNext::Continue);
    let a = send(&mut s, "HELLO x\r\n");
    assert_eq!(a.reply, "500 Command not recognized\n");
}

#[test]
fn smtp_fails_where_the_server_fails() {
    let mut s = SmtpSession::new();
    assert!(s.handle(line("\r\n")).is_none());
    assert!(s.handle(line("   ")).is_none());
    assert!(s.handle(line("HELO\r\n")).is_none());
    assert!(s.handle(line("MAIL FROM:>a<\r\n")).is_none());
    assert!(s.handle(line("RCPT >")).is_some());
    assert!(!s.accepts(&line("helo")));
    assert!(s.accepts(&line("helo x")));
    assert!(s.accepts(&SmtpEvent::End));
    assert_eq!(s.mail().sender, "");
}

#[test]
fn empty_line_is_mail_text_in_data() {
    let mut s = SmtpSession::new();
    send(&mut s, "DATA\r\n");
    assert!(s.handle(line("\r\n")).is_some());
    assert!(s.handle(line("")).is_some());
}
