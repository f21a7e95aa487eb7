//! The SMTP receiver: one session per connection, fed one line at a time.

use vstd::prelude::*;
use vstd::string::StringExecFns;
use crate::models::{Mail, MailView, is_uuid_v4_text};
use crate::text::{
    chars_of, eq_ignore_ascii_case, find, find_char, join_from, join_words,
    push_chars, split_words, string_of, sub_chars, views, word_is_ignoring_case, words,
};

verus! {

/// The protocol version announced in the greeting.
pub const VERSION: &'static str = "0.1";

/// The reply to an accepted `MAIL`, `RCPT` or `RSET`.
pub const SMTP_OK: &'static str = "250 OK\n";

/// The reply to `DATA`.
pub const SMTP_START_MAIL_INPUT: &'static str = "354 Start mail input; end with <CRLF>.<CRLF>\n";

/// The reply once a mail's text is complete.
pub const SMTP_OK_QUEUED: &'static str = "250 OK: Queueds\n";

/// The reply to a command the server does not know.
pub const SMTP_COMMAND_NOT_RECOGNIZED: &'static str = "500 Command not recognized\n";

/// The reply to `QUIT`.
pub const SMTP_GOODBYE: &'static str = "221 Goodbye\n";

/// The line that ends a mail's text.
pub const END_OF_DATA: &'static str = ".\r\n";

/// What the connection delivered: a line of text (with its line end, if it
/// had one), or the end of the stream.
pub enum SmtpEvent {
    Line(String),
    End,
}

impl View for SmtpEvent {
    type V = Option<Seq<char>>;

    open spec fn view(&self) -> Option<Seq<char>> {
        match self {
            SmtpEvent::Line(l) => Some(l@),
            SmtpEvent::End => None,
        }
    }
}

/// What the driver does after sending a reply.
#[derive(Debug, Clone, Copy, PartialEq, Eq)]
pub enum SmtpNext {
    /// Read the next line.
    Continue,
    /// Store the session's mail, then read the next line.
    Store,
    /// Shut the connection down.
    Close,
}

/// A reply to send (possibly empty) and what to do next.
pub struct SmtpAction {
    pub reply: String,
    pub next: SmtpNext,
}

impl View for SmtpAction {
    type V = (Seq<char>, SmtpNext);

    open spec fn view(&self) -> (Seq<char>, SmtpNext) {
        (self.reply@, self.next)
    }
}

/// The state of an SMTP session: the mail being assembled, and whether the
/// session is reading a mail's text.
pub struct SmtpSession {
    mail: Mail,
    in_data: bool,
}

/// The contents of an [`SmtpSession`].
pub struct SmtpState {
    pub mail: MailView,
    pub in_data: bool,
}

impl View for SmtpSession {
    type V = SmtpState;

    closed spec fn view(&self) -> SmtpState {
        SmtpState { mail: self.mail@, in_data: self.in_data }
    }
}

/// Whether the command word `w` is the keyword `k` (compared without regard
/// to ASCII case).
pub open spec fn is_keyword(w: Seq<char>, k: Seq<char>) -> bool {
    eq_ignore_ascii_case(w, k)
}

/// The arguments of a command line: its words after the first, joined by
/// single spaces.
pub open spec fn arguments(line: Seq<char>) -> Seq<char> {
    join_words(words(line).subrange(1, words(line).len() as int))
}

/// The text between the first `<` and the first `>` of `t`, when `t` holds
/// both.
pub open spec fn bracketed(t: Seq<char>) -> Option<Seq<char>> {
    match (find_char(t, '<'), find_char(t, '>')) {
        (Some(a), Some(b)) => Some(t.subrange(a + 1, b)),
        _ => None,
    }
}

/// `t` holds both brackets, but its first `>` comes before its first `<`.
pub open spec fn brackets_reversed(t: Seq<char>) -> bool {
    match (find_char(t, '<'), find_char(t, '>')) {
        (Some(a), Some(b)) => b < a + 1,
        _ => false,
    }
}

/// A copy of `m` with another sender.
pub open spec fn with_sender(m: MailView, sender: Seq<char>) -> MailView {
    MailView { uid: m.uid, sender: sender, reciever: m.reciever, body: m.body }
}

/// A copy of `m` with another receiver.
pub open spec fn with_reciever(m: MailView, reciever: Seq<char>) -> MailView {
    MailView { uid: m.uid, sender: m.sender, reciever: reciever, body: m.body }
}

/// A copy of `m` with more text.
pub open spec fn with_more_body(m: MailView, text: Seq<char>) -> MailView {
    MailView { uid: m.uid, sender: m.sender, reciever: m.reciever, body: m.body + text }
}

/// An empty mail with the identifier `uid`.
pub open spec fn empty_mail(uid: Seq<char>) -> MailView {
    MailView { uid: uid, sender: seq![], reciever: seq![], body: seq![] }
}

/// The session's answer to the command line `line` while it reads
/// commands; `fresh_uid` is the identifier a reset gives the new mail.
pub open spec fn command_step(s: SmtpState, line: Seq<char>, fresh_uid: Seq<char>) -> (
    SmtpState,
    Seq<char>,
    SmtpNext,
) {
    let ws = words(line);
    let cmd = ws[0];
    if is_keyword(cmd, "helo"@) || is_keyword(cmd, "ehlo"@) {
        (s, "250 Hello "@ + ws[1] + "\n"@, SmtpNext::Continue)
    } else if is_keyword(cmd, "mail"@) {
        match bracketed(arguments(line)) {
            Some(a) => (
                SmtpState { mail: with_sender(s.mail, a), in_data: false },
                SMTP_OK@,
                SmtpNext::Continue,
            ),
            None => (s, seq![], SmtpNext::Continue),
        }
    } else if is_keyword(cmd, "rcpt"@) {
        match bracketed(arguments(line)) {
            Some(a) => (
                SmtpState { mail: with_reciever(s.mail, a), in_data: false },
                SMTP_OK@,
                SmtpNext::Continue,
            ),
            None => (s, seq![], SmtpNext::Continue),
        }
    } else if is_keyword(cmd, "data"@) {
        (SmtpState { mail: s.mail, in_data: true }, SMTP_START_MAIL_INPUT@, SmtpNext::Continue)
    } else if is_keyword(cmd, "quit"@) {
        (s, SMTP_GOODBYE@, SmtpNext::Close)
    } else if is_keyword(cmd, "rset"@) {
        (SmtpState { mail: empty_mail(fresh_uid), in_data: false }, SMTP_OK@, SmtpNext::Continue)
    } else {
        (s, SMTP_COMMAND_NOT_RECOGNIZED@, SmtpNext::Continue)
    }
}

/// The session's answer to a line (or the end of the stream) while it
/// reads a mail's text: the text grows by each line until the line `.\r\n`
/// or the end of the stream, which completes the mail.
pub open spec fn data_step(s: SmtpState, ev: Option<Seq<char>>) -> (SmtpState, Seq<char>, SmtpNext) {
    match ev {
        Some(l) => if l == END_OF_DATA@ {
            (SmtpState { mail: s.mail, in_data: false }, SMTP_OK_QUEUED@, SmtpNext::Store)
        } else {
            (
                SmtpState { mail: with_more_body(s.mail, l), in_data: true },
                seq![],
                SmtpNext::Continue,
            )
        },
        None => (SmtpState { mail: s.mail, in_data: false }, SMTP_OK_QUEUED@, SmtpNext::Store),
    }
}

/// The session's answer to an event: its next state, its reply and what
/// the driver does next.
pub open spec fn smtp_step(s: SmtpState, ev: Option<Seq<char>>, fresh_uid: Seq<char>) -> (
    SmtpState,
    Seq<char>,
    SmtpNext,
) {
    if s.in_data {
        data_step(s, ev)
    } else {
        match ev {
            Some(line) => command_step(s, line, fresh_uid),
            None => (s, seq![], SmtpNext::Close),
        }
    }
}

/// The events on which the server fails instead of answering: a command
/// line without any word, `HELO`/`EHLO` without a domain, and `MAIL`/`RCPT`
/// whose first `>` comes before its first `<`.
pub open spec fn smtp_fails(s: SmtpState, ev: Option<Seq<char>>) -> bool {
    !s.in_data && match ev {
        Some(line) => {
            let ws = words(line);
            ||| ws.len() == 0
            ||| (is_keyword(ws[0], "helo"@) || is_keyword(ws[0], "ehlo"@)) && ws.len() < 2
            ||| (!(is_keyword(ws[0], "helo"@) || is_keyword(ws[0], "ehlo"@)) && (is_keyword(
                ws[0],
                "mail"@,
            ) || is_keyword(ws[0], "rcpt"@)) && brackets_reversed(arguments(line)))
        },
        None => false,
    }
}

/// Whether the event resets the session's mail.
pub open spec fn resets(s: SmtpState, ev: Option<Seq<char>>) -> bool {
    &&& !s.in_data
    &&& ev matches Some(line)
    &&& words(line).len() > 0
    &&& {
        let cmd = words(line)[0];
        &&& !(is_keyword(cmd, "helo"@) || is_keyword(cmd, "ehlo"@))
        &&& !is_keyword(cmd, "mail"@)
        &&& !is_keyword(cmd, "rcpt"@)
        &&& !is_keyword(cmd, "data"@)
        &&& !is_keyword(cmd, "quit"@)
        &&& is_keyword(cmd, "rset"@)
    }
}


/// The text between the first `<` and the first `>` of `t`, when `t` holds
/// both in that order.
fn bracketed_text(t: &Vec<char>) -> (r: Option<String>)
    requires
        !brackets_reversed(t@),
    ensures
        match r {
            Some(a) => bracketed(t@) == Some(a@),
            None => bracketed(t@) is None,
        },
{
    match find(t, '<') {
        Some(a) => match find(t, '>') {
            Some(b) => {
                proof {
                    crate::text::lemma_find_char(t@, '>');
                }
                let inner = sub_chars(t, a + 1, b);
                Some(string_of(&inner))
            },
            None => None,
        },
        None => None,
    }
}

/// Whether the brackets of `t` come in the wrong order.
fn reversed_brackets(t: &Vec<char>) -> (r: bool)
    ensures
        r == brackets_reversed(t@),
{
    match find(t, '<') {
        Some(a) => match find(t, '>') {
            Some(b) => b <= a,
            None => false,
        },
        None => false,
    }
}

impl SmtpSession {
    /// A new session, assembling an empty mail with a fresh identifier.
    pub fn new() -> (s: SmtpSession)
        ensures
            !s@.in_data,
            is_uuid_v4_text(s@.mail.uid),
            s@.mail.sender == Seq::<char>::empty(),
            s@.mail.reciever == Seq::<char>::empty(),
            s@.mail.body == Seq::<char>::empty(),
    {
        SmtpSession { mail: Mail::new(), in_data: false }
    }

    /// The greeting sent when a connection opens.
    pub fn greeting() -> (g: String)
        ensures
            g@ == "220 SMTP/"@ + VERSION@ + " READY\n"@,
    {
        let mut g = String::new();
        g.append("220 SMTP/");
        g.append(VERSION);
        g.append(" READY\n");
        assert(g@ =~= "220 SMTP/"@ + VERSION@ + " READY\n"@);
        g
    }

    /// Answers a command line while the session reads commands.
    fn command(&mut self, line: String) -> (act: SmtpAction)
        requires
            !old(self)@.in_data,
            !smtp_fails(old(self)@, Some(line@)),
        ensures
            command_step(old(self)@, line@, final(self)@.mail.uid) == (final(self)@, act@.0, act@.1),
            resets(old(self)@, Some(line@)) ==> is_uuid_v4_text(final(self)@.mail.uid),
    {
        let chars = chars_of(line.as_str());
        let ws = split_words(&chars);
        proof {
            assert(views(ws@).len() == ws@.len());
            assert(views(ws@)[0] == ws@[0]@);
        }
        let ghost old_s = self@;
        let cmd = &ws[0];
        let mut reply = String::new();
        if word_is_ignoring_case(cmd, "helo") || word_is_ignoring_case(cmd, "ehlo") {
            proof {
                assert(views(ws@)[1] == ws@[1]@);
            }
            reply.append("250 Hello ");
            push_chars(&mut reply, &ws[1]);
            reply.append("\n");
            assert(reply@ =~= "250 Hello "@ + words(line@)[1] + "\n"@);
            assert(self@ == old_s);
            SmtpAction { reply, next: SmtpNext::Continue }
        } else if word_is_ignoring_case(cmd, "mail") || word_is_ignoring_case(cmd, "rcpt") {
            let is_mail = word_is_ignoring_case(cmd, "mail");
            let args = join_from(&ws, 1);
            proof {
                assert(views(ws@).subrange(1, ws@.len() as int) =~= words(line@).subrange(
                    1,
                    words(line@).len() as int,
                ));
            }
            match bracketed_text(&args) {
                Some(a) => {
                    if is_mail {
                        self.mail.sender = a;
                    } else {
                        self.mail.reciever = a;
                    }
                    reply.append(SMTP_OK);
                    assert(reply@ =~= SMTP_OK@);
                },
                None => {
                    assert(reply@ =~= Seq::<char>::empty());
                },
            }
            SmtpAction { reply, next: SmtpNext::Continue }
        } else if word_is_ignoring_case(cmd, "data") {
            self.in_data = true;
            reply.append(SMTP_START_MAIL_INPUT);
            assert(reply@ =~= SMTP_START_MAIL_INPUT@);
            SmtpAction { reply, next: SmtpNext::Continue }
        } else if word_is_ignoring_case(cmd, "quit") {
            reply.append(SMTP_GOODBYE);
            assert(reply@ =~= SMTP_GOODBYE@);
            SmtpAction { reply, next: SmtpNext::Close }
        } else if word_is_ignoring_case(cmd, "rset") {
            self.mail = Mail::new();
            reply.append(SMTP_OK);
            assert(reply@ =~= SMTP_OK@);
            assert(self@.mail == empty_mail(self@.mail.uid));
            SmtpAction { reply, next: SmtpNext::Continue }
        } else {
            reply.append(SMTP_COMMAND_NOT_RECOGNIZED);
            assert(reply@ =~= SMTP_COMMAND_NOT_RECOGNIZED@);
            SmtpAction { reply, next: SmtpNext::Continue }
        }
    }

    /// Answers an event while the session reads a mail's text.
    fn data(&mut self, ev: SmtpEvent) -> (act: SmtpAction)
        requires
            old(self)@.in_data,
        ensures
            data_step(old(self)@, ev@) == (final(self)@, act@.0, act@.1),
    {
        let mut reply = String::new();
        match ev {
            SmtpEvent::Line(l) => {
                let chars = chars_of(l.as_str());
                let end = chars_of(END_OF_DATA);
                if crate::text::same_chars(&chars, &end) {
                    self.in_data = false;
                    reply.append(SMTP_OK_QUEUED);
                    assert(reply@ =~= SMTP_OK_QUEUED@);
                    SmtpAction { reply, next: SmtpNext::Store }
                } else {
                    self.mail.body.append(l.as_str());
                    assert(reply@ =~= Seq::<char>::empty());
                    SmtpAction { reply, next: SmtpNext::Continue }
                }
            },
            SmtpEvent::End => {
                self.in_data = false;
                reply.append(SMTP_OK_QUEUED);
                assert(reply@ =~= SMTP_OK_QUEUED@);
                SmtpAction { reply, next: SmtpNext::Store }
            },
        }
    }

    /// Answers an event the server does not fail on: the session's next
    /// state, its reply and what the driver does next are those of
    /// `smtp_step`, where a reset gives the new mail a fresh random
    /// identifier.
    pub fn step(&mut self, ev: SmtpEvent) -> (act: SmtpAction)
        requires
            !smtp_fails(old(self)@, ev@),
        ensures
            smtp_step(old(self)@, ev@, final(self)@.mail.uid) == (final(self)@, act@.0, act@.1),
            resets(old(self)@, ev@) ==> is_uuid_v4_text(final(self)@.mail.uid),
    {
        if self.in_data {
            self.data(ev)
        } else {
            match ev {
                SmtpEvent::Line(line) => self.command(line),
                SmtpEvent::End => {
                    let reply = String::new();
                    assert(reply@ =~= Seq::<char>::empty());
                    SmtpAction { reply, next: SmtpNext::Close }
                },
            }
        }
    }

    /// Answers `ev` as `step` does when the server answers it; returns
    /// `None`, leaving the session unchanged, on the events on which the
    /// server fails (see `smtp_fails`).
    pub fn handle(&mut self, ev: SmtpEvent) -> (act: Option<SmtpAction>)
        ensures
            match act {
                Some(a) => !smtp_fails(old(self)@, ev@) && smtp_step(
                    old(self)@,
                    ev@,
                    final(self)@.mail.uid,
                ) == (final(self)@, a@.0, a@.1) && (resets(old(self)@, ev@) ==> is_uuid_v4_text(
                    final(self)@.mail.uid,
                )),
                None => smtp_fails(old(self)@, ev@) && final(self)@ == old(self)@,
            },
    {
        if self.accepts(&ev) {
            Some(self.step(ev))
        } else {
            None
        }
    }

    /// The mail the session is assembling.
    pub fn mail(&self) -> (m: &Mail)
        ensures
            m@ == self@.mail,
    {
        &self.mail
    }

    /// Whether the session is reading a mail's text.
    pub fn in_data(&self) -> (b: bool)
        ensures
            b == self@.in_data,
    {
        self.in_data
    }

    /// Whether the server answers `ev` in this state (rather than failing).
    pub fn accepts(&self, ev: &SmtpEvent) -> (ok: bool)
        ensures
            ok == !smtp_fails(self@, ev@),
    {
        if self.in_data {
            return true;
        }
        match ev {
            SmtpEvent::End => true,
            SmtpEvent::Line(line) => {
                let chars = chars_of(line.as_str());
                let ws = split_words(&chars);
                proof {
                    assert(views(ws@).len() == ws@.len());
                }
                if ws.len() == 0 {
                    return false;
                }
                proof {
                    assert(views(ws@)[0] == ws@[0]@);
                }
                let cmd = &ws[0];
                if word_is_ignoring_case(cmd, "helo") || word_is_ignoring_case(cmd, "ehlo") {
                    ws.len() >= 2
                } else if word_is_ignoring_case(cmd, "mail") || word_is_ignoring_case(cmd, "rcpt") {
                    let args = join_from(&ws, 1);
                    proof {
                        assert(views(ws@).subrange(1, ws@.len() as int) =~= words(line@).subrange(
                            1,
                            words(line@).len() as int,
                        ));
                    }
                    !reversed_brackets(&args)
                } else {
                    true
                }
            },
        }
    }
}


/// The lines `lines`, one after the other.
pub open spec fn concat_lines(lines: Seq<Seq<char>>) -> Seq<char>
    decreases lines.len(),
{
    if lines.len() == 0 {
        seq![]
    } else {
        lines[0] + concat_lines(lines.drop_first())
    }
}

/// The state after the session is given the lines `lines` in turn.
pub open spec fn feed(s: SmtpState, lines: Seq<Seq<char>>) -> SmtpState
    decreases lines.len(),
{
    if lines.len() == 0 {
        s
    } else {
        feed(smtp_step(s, Some(lines[0]), s.mail.uid).0, lines.drop_first())
    }
}

/// A mail's text is exactly the lines sent after `DATA`, in order and
/// unchanged, up to the line `.\r\n`; that line completes the mail, which
/// is then stored, and is not part of its text.
pub proof fn lemma_data_collects_lines(s: SmtpState, lines: Seq<Seq<char>>)
    requires
        s.in_data,
        forall|i: int| 0 <= i < lines.len() ==> #[trigger] lines[i] != ".\r\n"@,
    ensures
        feed(s, lines) == (SmtpState {
            mail: MailView {
                uid: s.mail.uid,
                sender: s.mail.sender,
                reciever: s.mail.reciever,
                body: s.mail.body + concat_lines(lines),
            },
            in_data: true,
        }),
        smtp_step(feed(s, lines), Some(".\r\n"@), s.mail.uid) == (
            SmtpState {
                mail: MailView {
                    uid: s.mail.uid,
                    sender: s.mail.sender,
                    reciever: s.mail.reciever,
                    body: s.mail.body + concat_lines(lines),
                },
                in_data: false,
            },
            "250 OK: Queueds\n"@,
            SmtpNext::Store,
        ),
    decreases lines.len(),
{
    if lines.len() == 0 {
        assert(s.mail.body + concat_lines(lines) =~= s.mail.body);
        assert(with_more_body(s.mail, concat_lines(lines)) == s.mail);
    } else {
        let next = smtp_step(s, Some(lines[0]), s.mail.uid).0;
        assert(lines[0] != ".\r\n"@);
        let rest = lines.drop_first();
        assert forall|i: int| 0 <= i < rest.len() implies #[trigger] rest[i] != ".\r\n"@ by {
            assert(rest[i] == lines[i + 1]);
        }
        lemma_data_collects_lines(next, rest);
        assert(next.mail.body + concat_lines(rest) =~= s.mail.body + concat_lines(lines));
    }
}

proof fn lemma_keywords_distinct(w: Seq<char>)
    requires
        is_keyword(w, "quit"@),
    ensures
        !is_keyword(w, "helo"@),
        !is_keyword(w, "ehlo"@),
        !is_keyword(w, "mail"@),
        !is_keyword(w, "rcpt"@),
        !is_keyword(w, "data"@),
{
    reveal_strlit("quit");
    reveal_strlit("helo");
    reveal_strlit("ehlo");
    reveal_strlit("mail");
    reveal_strlit("rcpt");
    reveal_strlit("data");
    assert(crate::text::ascii_lower(w[0]) == 'q');
}

/// `QUIT`, in any letter case, is answered with the farewell and closes the
/// connection, leaving the mail as it was.
pub proof fn lemma_quit_closes(s: SmtpState, line: Seq<char>, fresh_uid: Seq<char>)
    requires
        !s.in_data,
        words(line).len() > 0,
        is_keyword(words(line)[0], "quit"@),
    ensures
        !smtp_fails(s, Some(line)),
        smtp_step(s, Some(line), fresh_uid) == (s, "221 Goodbye\n"@, SmtpNext::Close),
{
    lemma_keywords_distinct(words(line)[0]);
}


/// An address written as `<address>` is what `MAIL` and `RCPT` take, when
/// neither the address nor the text before it holds a bracket.
pub proof fn lemma_bracketed_address(before: Seq<char>, address: Seq<char>, after: Seq<char>)
    requires
        forall|k: int| 0 <= k < before.len() ==> #[trigger] before[k] != '<' && before[k] != '>',
        forall|k: int| 0 <= k < address.len() ==> #[trigger] address[k] != '<' && address[k] != '>',
    ensures
        bracketed(before + seq!['<'] + address + seq!['>'] + after) == Some(address),
        !brackets_reversed(before + seq!['<'] + address + seq!['>'] + after),
{
    let t = before + seq!['<'] + address + seq!['>'] + after;
    let a = before.len() as int;
    let b = (before.len() + 1 + address.len()) as int;
    crate::text::lemma_find_char(t, '<');
    crate::text::lemma_find_char(t, '>');
    assert(t[a] == '<');
    assert(t[b] == '>');
    assert forall|j: int| 0 <= j < a implies t[j] != '<' && t[j] != '>' by {
        assert(t[j] == before[j]);
    }
    assert forall|j: int| a < j < b implies t[j] != '>' by {
        assert(t[j] == address[j - a - 1]);
    }
    if find_char(t, '<') != Some(a) {
        let i = find_char(t, '<')->0;
        assert(i < a || i > a);
    }
    if find_char(t, '>') != Some(b) {
        let i = find_char(t, '>')->0;
        assert(i < b || i > b);
    }
    assert(t.subrange(a + 1, b) =~= address);
}


/// Each part of the mail changes only through its own command or `RSET`:
/// the sender through `MAIL`, the receiver through `RCPT`, the text while
/// it is being read after `DATA`, and the identifier only through `RSET`.
pub proof fn lemma_mail_changes_only_by_its_command(
    s: SmtpState,
    ev: Option<Seq<char>>,
    fresh_uid: Seq<char>,
)
    requires
        !smtp_fails(s, ev),
    ensures
        ({
            let m = smtp_step(s, ev, fresh_uid).0.mail;
            &&& m.sender != s.mail.sender ==> resets(s, ev) || !s.in_data && (ev matches Some(
                line,
            ) && is_keyword(words(line)[0], "mail"@))
            &&& m.reciever != s.mail.reciever ==> resets(s, ev) || !s.in_data && (
            ev matches Some(line) && is_keyword(words(line)[0], "rcpt"@))
            &&& m.body != s.mail.body ==> (s.in_data || resets(s, ev))
            &&& m.uid != s.mail.uid ==> resets(s, ev)
        }),
{
}


/// The arguments `before`, `<address>`, `after`, read back after splitting
/// at white space and joining with single spaces, still hold `address` as
/// the text in the first brackets.
proof fn lemma_address_in_arguments(before: Seq<char>, address: Seq<char>, after: Seq<char>)
    requires
        forall|k: int| 0 <= k < before.len() ==> #[trigger] before[k] != '<' && before[k] != '>',
        forall|k: int| 0 <= k < address.len() ==> #[trigger] address[k] != '<' && address[k] != '>',
        forall|k: int| 0 <= k < address.len() ==> !crate::text::is_ws(#[trigger] address[k]),
    ensures
        ({
            let joined = join_words(words(before + seq!['<'] + address + seq!['>'] + after));
            bracketed(joined) == Some(address) && !brackets_reversed(joined)
        }),
{
    let x = before + seq!['<'];
    let m = address + seq!['>'];
    let y = x + m;
    let rest = y + after;
    assert(rest =~= before + seq!['<'] + address + seq!['>'] + after);
    crate::text::lemma_joined_words(rest);
    crate::text::lemma_squeezed_keeps_out(before, '<');
    crate::text::lemma_squeezed_keeps_out(before, '>');
    let j = crate::text::squeezed(before);
    assert(x.drop_last() =~= before);
    assert(x.last() == '<');
    assert(!crate::text::is_ws('<'));
    assert(!crate::text::is_ws('>'));
    let p = if j.len() > 0 && crate::text::is_ws(before.last()) {
        j + seq![' ']
    } else {
        j
    };
    assert(crate::text::squeezed(x) =~= p + seq!['<']);
    assert forall|k: int| 0 <= k < p.len() implies #[trigger] p[k] != '<' && p[k] != '>' by {
        if k < j.len() {
            assert(p[k] == j[k]);
        }
    }
    assert forall|k: int| 0 <= k < m.len() implies !crate::text::is_ws(#[trigger] m[k]) by {
        if k < address.len() {
            assert(m[k] == address[k]);
        }
    }
    crate::text::lemma_squeezed_run(x, m);
    crate::text::lemma_squeezed_prefix(y, after);
    let sy = crate::text::squeezed(y);
    let sr = crate::text::squeezed(rest);
    let q = sr.subrange(sy.len() as int, sr.len() as int);
    assert(sr =~= sr.subrange(0, sy.len() as int) + q);
    assert(sr =~= p + seq!['<'] + address + seq!['>'] + q);
    lemma_bracketed_address(p, address, q);
}

/// A word that is `k` up to case, where `k` is a lower-case letter word,
/// holds no white space.
proof fn lemma_keyword_is_a_word(w: Seq<char>, k: Seq<char>)
    requires
        is_keyword(w, k),
        forall|i: int| 0 <= i < k.len() ==> 'a' <= #[trigger] k[i] <= 'z',
    ensures
        forall|i: int| 0 <= i < w.len() ==> !crate::text::is_ws(#[trigger] w[i]),
{
    assert forall|i: int| 0 <= i < w.len() implies !crate::text::is_ws(#[trigger] w[i]) by {
        assert(crate::text::ascii_lower(w[i]) == k[i]);
        assert('a' <= k[i] <= 'z');
    }
}

/// The words of a command line made of the command word, a space and the
/// rest are the command word followed by the words of the rest.
proof fn lemma_command_line_words(kw: Seq<char>, rest: Seq<char>)
    requires
        kw.len() > 0,
        forall|i: int| 0 <= i < kw.len() ==> !crate::text::is_ws(#[trigger] kw[i]),
    ensures
        words(kw + seq![' '] + rest).len() >= 1,
        words(kw + seq![' '] + rest)[0] == kw,
        words(kw + seq![' '] + rest).subrange(1, words(kw + seq![' '] + rest).len() as int)
            == words(rest),
{
    crate::text::lemma_words_concat(kw, rest);
    crate::text::lemma_single_word(kw);
    let ws = words(kw + seq![' '] + rest);
    assert(ws =~= seq![kw] + words(rest));
    assert(ws.subrange(1, ws.len() as int) =~= words(rest));
}

/// `RCPT` (in any letter case), a space, any text without brackets, then
/// `<address>` with an address without brackets or white space, then
/// anything: the session answers `250 OK` and takes `address` as the mail's
/// receiver, leaving the rest of the mail as it was.
pub proof fn lemma_rcpt_sets_receiver(
    s: SmtpState,
    kw: Seq<char>,
    before: Seq<char>,
    address: Seq<char>,
    after: Seq<char>,
    fresh_uid: Seq<char>,
)
    requires
        !s.in_data,
        is_keyword(kw, "rcpt"@),
        forall|k: int| 0 <= k < before.len() ==> #[trigger] before[k] != '<' && before[k] != '>',
        forall|k: int| 0 <= k < address.len() ==> #[trigger] address[k] != '<' && address[k] != '>',
        forall|k: int| 0 <= k < address.len() ==> !crate::text::is_ws(#[trigger] address[k]),
    ensures
        ({
            let line = kw + seq![' '] + before + seq!['<'] + address + seq!['>'] + after;
            &&& !smtp_fails(s, Some(line))
            &&& smtp_step(s, Some(line), fresh_uid) == (
                SmtpState {
                    mail: MailView {
                        uid: s.mail.uid,
                        sender: s.mail.sender,
                        reciever: address,
                        body: s.mail.body,
                    },
                    in_data: false,
                },
                "250 OK\n"@,
                SmtpNext::Continue,
            )
        }),
{
    reveal_strlit("rcpt");
    reveal_strlit("helo");
    reveal_strlit("ehlo");
    reveal_strlit("mail");
    let rest = before + seq!['<'] + address + seq!['>'] + after;
    let line = kw + seq![' '] + before + seq!['<'] + address + seq!['>'] + after;
    assert(line =~= kw + seq![' '] + rest);
    lemma_keyword_is_a_word(kw, "rcpt"@);
    lemma_command_line_words(kw, rest);
    lemma_address_in_arguments(before, address, after);
    assert(crate::text::ascii_lower(kw[0]) == 'r');
}

/// `MAIL` (in any letter case), a space, any text without brackets, then
/// `<address>` with an address without brackets or white space, then
/// anything: the session answers `250 OK` and takes `address` as the mail's
/// sender, leaving the rest of the mail as it was.
pub proof fn lemma_mail_sets_sender(
    s: SmtpState,
    kw: Seq<char>,
    before: Seq<char>,
    address: Seq<char>,
    after: Seq<char>,
    fresh_uid: Seq<char>,
)
    requires
        !s.in_data,
        is_keyword(kw, "mail"@),
        forall|k: int| 0 <= k < before.len() ==> #[trigger] before[k] != '<' && before[k] != '>',
        forall|k: int| 0 <= k < address.len() ==> #[trigger] address[k] != '<' && address[k] != '>',
        forall|k: int| 0 <= k < address.len() ==> !crate::text::is_ws(#[trigger] address[k]),
    ensures
        ({
            let line = kw + seq![' '] + before + seq!['<'] + address + seq!['>'] + after;
            &&& !smtp_fails(s, Some(line))
            &&& smtp_step(s, Some(line), fresh_uid) == (
                SmtpState {
                    mail: MailView {
                        uid: s.mail.uid,
                        sender: address,
                        reciever: s.mail.reciever,
                        body: s.mail.body,
                    },
                    in_data: false,
                },
                "250 OK\n"@,
                SmtpNext::Continue,
            )
        }),
{
    reveal_strlit("helo");
    reveal_strlit("ehlo");
    reveal_strlit("mail");
    let rest = before + seq!['<'] + address + seq!['>'] + after;
    let line = kw + seq![' '] + before + seq!['<'] + address + seq!['>'] + after;
    assert(line =~= kw + seq![' '] + rest);
    lemma_keyword_is_a_word(kw, "mail"@);
    lemma_command_line_words(kw, rest);
    lemma_address_in_arguments(before, address, after);
    assert(crate::text::ascii_lower(kw[0]) == 'm');
}


/// The command keywords, revealed: lower-case letters only.
proof fn lemma_keywords_letters()
    ensures
        forall|i: int| 0 <= i < "helo"@.len() ==> 'a' <= #[trigger] "helo"@[i] <= 'z',
        forall|i: int| 0 <= i < "ehlo"@.len() ==> 'a' <= #[trigger] "ehlo"@[i] <= 'z',
        forall|i: int| 0 <= i < "data"@.len() ==> 'a' <= #[trigger] "data"@[i] <= 'z',
        forall|i: int| 0 <= i < "rset"@.len() ==> 'a' <= #[trigger] "rset"@[i] <= 'z',
        "helo"@ == seq!['h', 'e', 'l', 'o'],
        "ehlo"@ == seq!['e', 'h', 'l', 'o'],
        "mail"@ == seq!['m', 'a', 'i', 'l'],
        "rcpt"@ == seq!['r', 'c', 'p', 't'],
        "data"@ == seq!['d', 'a', 't', 'a'],
        "quit"@ == seq!['q', 'u', 'i', 't'],
        "rset"@ == seq!['r', 's', 'e', 't'],
{
    reveal_strlit("helo");
    reveal_strlit("ehlo");
    reveal_strlit("mail");
    reveal_strlit("rcpt");
    reveal_strlit("data");
    reveal_strlit("quit");
    reveal_strlit("rset");
    assert("helo"@ =~= seq!['h', 'e', 'l', 'o']);
    assert("ehlo"@ =~= seq!['e', 'h', 'l', 'o']);
    assert("mail"@ =~= seq!['m', 'a', 'i', 'l']);
    assert("rcpt"@ =~= seq!['r', 'c', 'p', 't']);
    assert("data"@ =~= seq!['d', 'a', 't', 'a']);
    assert("quit"@ =~= seq!['q', 'u', 'i', 't']);
    assert("rset"@ =~= seq!['r', 's', 'e', 't']);
}

/// `HELO` or `EHLO` (in any letter case) and a domain are answered with
/// `250 Hello` and that domain, leaving the session as it was.
pub proof fn lemma_helo_greets_the_domain(
    s: SmtpState,
    kw: Seq<char>,
    domain: Seq<char>,
    fresh_uid: Seq<char>,
)
    requires
        !s.in_data,
        is_keyword(kw, "helo"@) || is_keyword(kw, "ehlo"@),
        domain.len() > 0,
        forall|k: int| 0 <= k < domain.len() ==> !crate::text::is_ws(#[trigger] domain[k]),
    ensures
        ({
            let line = kw + seq![' '] + domain + seq!['\r', '\n'];
            &&& !smtp_fails(s, Some(line))
            &&& smtp_step(s, Some(line), fresh_uid) == (
                s,
                "250 Hello "@ + domain + "\n"@,
                SmtpNext::Continue,
            )
        }),
{
    lemma_keywords_letters();
    if is_keyword(kw, "helo"@) {
        lemma_keyword_is_a_word(kw, "helo"@);
    } else {
        lemma_keyword_is_a_word(kw, "ehlo"@);
    }
    crate::text::lemma_two_words_line(kw, domain);
}

/// `DATA` (in any letter case) is answered with `354` and starts reading
/// the mail's text, leaving the mail as it was.
pub proof fn lemma_data_starts_the_text(s: SmtpState, kw: Seq<char>, fresh_uid: Seq<char>)
    requires
        !s.in_data,
        is_keyword(kw, "data"@),
    ensures
        ({
            let line = kw + seq!['\r', '\n'];
            &&& !smtp_fails(s, Some(line))
            &&& smtp_step(s, Some(line), fresh_uid) == (
                SmtpState { mail: s.mail, in_data: true },
                "354 Start mail input; end with <CRLF>.<CRLF>\n"@,
                SmtpNext::Continue,
            )
        }),
{
    lemma_keywords_letters();
    lemma_keyword_is_a_word(kw, "data"@);
    crate::text::lemma_word_then_line_end(kw);
    assert(crate::text::ascii_lower(kw[0]) == 'd');
}

/// `RSET` (in any letter case) is answered with `250 OK` and starts a new,
/// empty mail under the fresh identifier.
pub proof fn lemma_rset_starts_a_new_mail(s: SmtpState, kw: Seq<char>, fresh_uid: Seq<char>)
    requires
        !s.in_data,
        is_keyword(kw, "rset"@),
    ensures
        ({
            let line = kw + seq!['\r', '\n'];
            &&& !smtp_fails(s, Some(line))
            &&& resets(s, Some(line))
            &&& smtp_step(s, Some(line), fresh_uid) == (
                SmtpState {
                    mail: MailView {
                        uid: fresh_uid,
                        sender: Seq::<char>::empty(),
                        reciever: Seq::<char>::empty(),
                        body: Seq::<char>::empty(),
                    },
                    in_data: false,
                },
                "250 OK\n"@,
                SmtpNext::Continue,
            )
        }),
{
    lemma_keywords_letters();
    lemma_keyword_is_a_word(kw, "rset"@);
    crate::text::lemma_word_then_line_end(kw);
    assert(crate::text::ascii_lower(kw[0]) == 'r');
    assert(crate::text::ascii_lower(kw[1]) == 's');
}


/// A command word that is none of the keywords is answered with `500`,
/// leaving the session as it was.
pub proof fn lemma_unknown_command_is_refused(s: SmtpState, line: Seq<char>, fresh_uid: Seq<char>)
    requires
        !s.in_data,
        words(line).len() > 0,
        ({
            let w = words(line)[0];
            &&& !is_keyword(w, "helo"@)
            &&& !is_keyword(w, "ehlo"@)
            &&& !is_keyword(w, "mail"@)
            &&& !is_keyword(w, "rcpt"@)
            &&& !is_keyword(w, "data"@)
            &&& !is_keyword(w, "quit"@)
            &&& !is_keyword(w, "rset"@)
        }),
    ensures
        !smtp_fails(s, Some(line)),
        smtp_step(s, Some(line), fresh_uid) == (
            s,
            "500 Command not recognized\n"@,
            SmtpNext::Continue,
        ),
{
}

/// The end of the stream closes the connection while commands are read,
/// and completes (and stores) the mail while its text is read.
pub proof fn lemma_end_of_stream(s: SmtpState, fresh_uid: Seq<char>)
    ensures
        !smtp_fails(s, None),
        !s.in_data ==> smtp_step(s, None, fresh_uid) == (s, Seq::<char>::empty(), SmtpNext::Close),
        s.in_data ==> smtp_step(s, None, fresh_uid) == (
            SmtpState { mail: s.mail, in_data: false },
            "250 OK: Queueds\n"@,
            SmtpNext::Store,
        ),
{
}

} // verus!
