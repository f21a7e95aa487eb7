//! The POP3 mailbox service: one session per connection.
//!
//! The session answers what the connection and the mail store deliver. A
//! command that needs the store (or the clock) is answered in two steps:
//! the session first names the lookup it needs, then answers once the
//! driver hands back the lookup's result.

use vstd::prelude::*;
use vstd::string::StringExecFns;
use vstd::utf8::{decode_utf8, encode_utf8, valid_utf8};
use crate::auth::{answer_accepted, validate_auth};
use crate::models::{Mail, MailView, User, UserView, mail_views};
use crate::text::{
    chars_of, decimal, parse_i32, parse_int, push_decimal, push_signed_decimal,
    signed_decimal, split_words, string_of, trim, trimmed, utf8_text, views, word_is, words,
};

verus! {

/// The name this server puts into its CRAM-MD5 challenges.
pub const KEY: &'static str = "mx24.144";

/// The greeting sent when a connection opens.
pub const GREETING: &'static str = "+OK POP3 server ready\r\n";

/// The reply to `CAPA`.
pub const CAPABILITIES: &'static str = "+OK Capability list follows\r\nSASL CRAM-MD5 PLAIN\r\nUSER\r\nPASS\r\nAUTH\r\nSTAT\r\nLIST\r\nQUIT\r\n.\r\n";

/// The reply to `AUTH` without a mechanism.
pub const AUTH_MECHANISMS: &'static str = "+ Ok.";

/// The reply to `AUTH` with a mechanism other than CRAM-MD5.
pub const UNSUPPORTED_AUTH: &'static str = "-ERR unsupported auth method\r\n";

/// The reply to an empty CRAM-MD5 answer.
pub const AUTH_FAILED: &'static str = "-ERR Authentication failed\r\n";

/// The reply to a CRAM-MD5 answer that the account accepts.
pub const AUTH_OK: &'static str = "+OK mailbox locked and ready\r\n";

/// The reply to a CRAM-MD5 answer that no account accepts; the connection
/// closes after it.
pub const INVALID_CREDENTIALS: &'static str = "-ERR Invalid Credentials";

/// The reply to `USER`.
pub const USER_ACCEPTED: &'static str = "+OK User accepted\r\n";

/// The reply to `PASS`.
pub const PASSWORD_ACCEPTED: &'static str = "+OK Password accepted\r\n";

/// The reply when the mail store cannot be read.
pub const MAILBOX_UNAVAILABLE: &'static str = "-ERR Could not retrieve mailbox size\r\n";

/// The first line of the reply to `LIST`.
pub const LISTING_FOLLOWS: &'static str = "+OK Mailbox listing follows\r\n";

/// The first line of the reply to `UIDL`.
pub const UNIQUE_IDS_FOLLOW: &'static str = "+OK Unique ID listing follows\r\n";

/// The first line of the reply to `RETR`.
pub const MAIL_FOLLOWS: &'static str = "+OK Mail follows\r\n";

/// The line that ends a multi-line reply.
pub const END_OF_LIST: &'static str = ".\r\n";

/// The reply to a `DELE` that the store carried out.
pub const DELETED: &'static str = "+OK msg deleted\r\n";

/// The reply to a `DELE` that the store refused.
pub const NOT_DELETED: &'static str = "-ERR Could not delete message\r\n";

/// The reply to `QUIT`.
pub const SIGNING_OFF: &'static str = "+OK POP3 server signing off\r\n";

/// The reply to a command the server does not know.
pub const NOT_RECOGNIZED: &'static str = "-ERR Command not recognized\r\n";

/// The standard Base64 encoding (RFC 4648 alphabet, with padding) of `data`.
pub uninterp spec fn base64_encode(data: Seq<u8>) -> Seq<char>;

/// The bytes that `text` encodes in standard Base64, if it is valid
/// standard Base64.
pub uninterp spec fn base64_decode(text: Seq<u8>) -> Option<Seq<u8>>;

/// `base64::Engine::encode` with `base64::engine::general_purpose::STANDARD`
/// (the engine `BASE64_STANDARD` names); the text is named by
/// `base64_encode`.
#[verifier::external_body]
fn encode_base64(data: &[u8]) -> (s: String)
    ensures
        s@ == base64_encode(data@),
{
    base64::Engine::encode(&base64::engine::general_purpose::STANDARD, data)
}

/// `base64::Engine::decode` with `base64::engine::general_purpose::STANDARD`;
/// `None` stands for its `DecodeError`. The result is named by
/// `base64_decode`.
#[verifier::external_body]
fn decode_base64(text: &[u8]) -> (r: Option<Vec<u8>>)
    ensures
        match r {
            Some(v) => base64_decode(text@) == Some(v@),
            None => base64_decode(text@) is None,
        },
{
    base64::Engine::decode(&base64::engine::general_purpose::STANDARD, text).ok()
}

/// What a session waits for.
pub enum Pending {
    /// The next command.
    Command,
    /// The time, to build a CRAM-MD5 challenge.
    Clock,
    /// The client's answer to `challenge`.
    CramResponse { challenge: String },
    /// The account stored under `username`, to check `digest`.
    Account { username: String, digest: String, challenge: String },
    /// The number of mails in the mailbox (`STAT`).
    Count,
    /// The mailbox, to list sizes (`LIST`).
    Listing,
    /// The mailbox, to list identifiers (`UIDL`).
    UniqueIds,
    /// The mailbox, to send mail `number` (`RETR`).
    Message { number: i32 },
    /// The outcome of a deletion (`DELE`).
    Deletion,
}

/// The contents of a [`Pending`].
pub enum PendingView {
    Command,
    Clock,
    CramResponse { challenge: Seq<char> },
    Account { username: Seq<char>, digest: Seq<char>, challenge: Seq<char> },
    Count,
    Listing,
    UniqueIds,
    Message { number: i32 },
    Deletion,
}

impl View for Pending {
    type V = PendingView;

    open spec fn view(&self) -> PendingView {
        match self {
            Pending::Command => PendingView::Command,
            Pending::Clock => PendingView::Clock,
            Pending::CramResponse { challenge } => PendingView::CramResponse {
                challenge: challenge@,
            },
            Pending::Account { username, digest, challenge } => PendingView::Account {
                username: username@,
                digest: digest@,
                challenge: challenge@,
            },
            Pending::Count => PendingView::Count,
            Pending::Listing => PendingView::Listing,
            Pending::UniqueIds => PendingView::UniqueIds,
            Pending::Message { number } => PendingView::Message { number: *number },
            Pending::Deletion => PendingView::Deletion,
        }
    }
}

/// The view of an optional string.
pub open spec fn opt_view(o: Option<String>) -> Option<Seq<char>> {
    match o {
        Some(s) => Some(s@),
        None => None,
    }
}

/// The state of a POP3 session: the user and password the client gave, and
/// what the session waits for.
pub struct Pop3Session {
    user: Option<String>,
    password: Option<String>,
    pending: Pending,
}

/// The contents of a [`Pop3Session`].
pub struct Pop3State {
    pub user: Option<Seq<char>>,
    pub password: Option<Seq<char>>,
    pub pending: PendingView,
}

impl View for Pop3Session {
    type V = Pop3State;

    closed spec fn view(&self) -> Pop3State {
        Pop3State {
            user: opt_view(self.user),
            password: opt_view(self.password),
            pending: self.pending@,
        }
    }
}

/// What the connection, the clock or the mail store delivered.
pub enum Pop3Event {
    /// The bytes of one read from the connection (none at its end).
    Received(Vec<u8>),
    /// The current time, in seconds since the Unix epoch.
    Clock(u64),
    /// The line the client sent after a challenge (empty at the end of the
    /// stream).
    CramResponse(String),
    /// The account stored under the address the client named, if any could
    /// be read.
    Account(Option<User>),
    /// The number of mails in the mailbox, if it could be counted.
    MailboxSize(Option<i32>),
    /// The mails of the mailbox, if they could be read.
    Mailbox(Option<Vec<Mail>>),
    /// Whether the deletion succeeded.
    Deleted(bool),
}

/// The contents of a [`Pop3Event`].
pub enum Pop3EventView {
    Received(Seq<u8>),
    Clock(u64),
    CramResponse(Seq<char>),
    Account(Option<UserView>),
    MailboxSize(Option<i32>),
    Mailbox(Option<Seq<MailView>>),
    Deleted(bool),
}

impl View for Pop3Event {
    type V = Pop3EventView;

    open spec fn view(&self) -> Pop3EventView {
        match self {
            Pop3Event::Received(b) => Pop3EventView::Received(b@),
            Pop3Event::Clock(t) => Pop3EventView::Clock(*t),
            Pop3Event::CramResponse(l) => Pop3EventView::CramResponse(l@),
            Pop3Event::Account(a) => Pop3EventView::Account(
                match a {
                    Some(u) => Some(u@),
                    None => None,
                },
            ),
            Pop3Event::MailboxSize(n) => Pop3EventView::MailboxSize(*n),
            Pop3Event::Mailbox(m) => Pop3EventView::Mailbox(
                match m {
                    Some(ms) => Some(mail_views(ms@)),
                    None => None,
                },
            ),
            Pop3Event::Deleted(b) => Pop3EventView::Deleted(*b),
        }
    }
}

/// What the driver does after sending a reply.
#[derive(Debug, PartialEq, Eq)]
pub enum Pop3Next {
    /// Read from the connection and deliver `Received`.
    ReadCommand,
    /// Deliver the time as `Clock`.
    ReadClock,
    /// Read a line from the connection and deliver `CramResponse`.
    ReadCramResponse,
    /// Look up the account stored under this address; deliver `Account`.
    LookUpAccount(String),
    /// Count the mails of this user; deliver `MailboxSize`.
    CountMail(String),
    /// Read the mails of this user; deliver `Mailbox`.
    FetchMail(String),
    /// Delete the mail with this identifier; deliver `Deleted`.
    DeleteMail(i32),
    /// Close the connection.
    Close,
}

/// The contents of a [`Pop3Next`].
pub enum Pop3NextView {
    ReadCommand,
    ReadClock,
    ReadCramResponse,
    LookUpAccount(Seq<char>),
    CountMail(Seq<char>),
    FetchMail(Seq<char>),
    DeleteMail(i32),
    Close,
}

impl View for Pop3Next {
    type V = Pop3NextView;

    open spec fn view(&self) -> Pop3NextView {
        match self {
            Pop3Next::ReadCommand => Pop3NextView::ReadCommand,
            Pop3Next::ReadClock => Pop3NextView::ReadClock,
            Pop3Next::ReadCramResponse => Pop3NextView::ReadCramResponse,
            Pop3Next::LookUpAccount(a) => Pop3NextView::LookUpAccount(a@),
            Pop3Next::CountMail(u) => Pop3NextView::CountMail(u@),
            Pop3Next::FetchMail(u) => Pop3NextView::FetchMail(u@),
            Pop3Next::DeleteMail(id) => Pop3NextView::DeleteMail(*id),
            Pop3Next::Close => Pop3NextView::Close,
        }
    }
}

/// A reply to send (possibly empty) and what to do next.
pub struct Pop3Action {
    pub reply: String,
    pub next: Pop3Next,
}

impl View for Pop3Action {
    type V = (Seq<char>, Pop3NextView);

    open spec fn view(&self) -> (Seq<char>, Pop3NextView) {
        (self.reply@, self.next@)
    }
}

/// `s` waiting for `p`, with the same user and password.
pub open spec fn waiting(s: Pop3State, p: PendingView) -> Pop3State {
    Pop3State { user: s.user, password: s.password, pending: p }
}

/// The answer to the command text `text`.
pub open spec fn command_step(s: Pop3State, text: Seq<char>) -> (Pop3State, Seq<char>, Pop3NextView) {
    let ws = words(text);
    let idle = waiting(s, PendingView::Command);
    if ws.len() == 0 {
        (idle, NOT_RECOGNIZED@, Pop3NextView::ReadCommand)
    } else if ws[0] == "CAPA"@ {
        (idle, CAPABILITIES@, Pop3NextView::ReadCommand)
    } else if ws[0] == "AUTH"@ {
        if ws.len() < 2 {
            (idle, AUTH_MECHANISMS@, Pop3NextView::ReadCommand)
        } else if ws[1] == "CRAM-MD5"@ {
            (waiting(s, PendingView::Clock), seq![], Pop3NextView::ReadClock)
        } else {
            (idle, UNSUPPORTED_AUTH@, Pop3NextView::ReadCommand)
        }
    } else if ws[0] == "USER"@ {
        (
            Pop3State { user: Some(ws[1]), password: s.password, pending: PendingView::Command },
            USER_ACCEPTED@,
            Pop3NextView::ReadCommand,
        )
    } else if ws[0] == "PASS"@ {
        (
            Pop3State { user: s.user, password: Some(ws[1]), pending: PendingView::Command },
            PASSWORD_ACCEPTED@,
            Pop3NextView::ReadCommand,
        )
    } else if ws[0] == "STAT"@ {
        (waiting(s, PendingView::Count), seq![], Pop3NextView::CountMail(s.user->0))
    } else if ws[0] == "LIST"@ {
        (waiting(s, PendingView::Listing), seq![], Pop3NextView::FetchMail(s.user->0))
    } else if ws[0] == "RETR"@ {
        (
            waiting(s, PendingView::Message { number: parse_i32(ws[1])->0 }),
            seq![],
            Pop3NextView::FetchMail(s.user->0),
        )
    } else if ws[0] == "UIDL"@ {
        (waiting(s, PendingView::UniqueIds), seq![], Pop3NextView::FetchMail(s.user->0))
    } else if ws[0] == "DELE"@ {
        (waiting(s, PendingView::Deletion), seq![], Pop3NextView::DeleteMail(parse_i32(ws[1])->0))
    } else if ws[0] == "QUIT"@ {
        (idle, SIGNING_OFF@, Pop3NextView::Close)
    } else {
        (idle, NOT_RECOGNIZED@, Pop3NextView::ReadCommand)
    }
}

/// The command texts on which the server fails instead of answering: `USER`
/// or `PASS` without an argument, `STAT`, `LIST`, `RETR` or `UIDL` before a
/// user is known, and `RETR` or `DELE` without an argument that is an
/// `i32`.
pub open spec fn command_fails(s: Pop3State, text: Seq<char>) -> bool {
    let ws = words(text);
    if ws.len() == 0 || ws[0] == "CAPA"@ || ws[0] == "AUTH"@ {
        false
    } else if ws[0] == "USER"@ || ws[0] == "PASS"@ {
        ws.len() < 2
    } else if ws[0] == "STAT"@ || ws[0] == "LIST"@ {
        s.user is None
    } else if ws[0] == "RETR"@ {
        ws.len() < 2 || parse_i32(ws[1]) is None || s.user is None
    } else if ws[0] == "UIDL"@ {
        s.user is None
    } else if ws[0] == "DELE"@ {
        ws.len() < 2 || parse_i32(ws[1]) is None
    } else {
        false
    }
}

/// The answer to the bytes of one read: the end of the stream closes the
/// session, bytes that are not UTF-8 are ignored, and text is a command.
pub open spec fn received_step(s: Pop3State, bytes: Seq<u8>) -> (Pop3State, Seq<char>, Pop3NextView) {
    if bytes.len() == 0 {
        (s, seq![], Pop3NextView::Close)
    } else if !valid_utf8(bytes) {
        (s, seq![], Pop3NextView::ReadCommand)
    } else {
        command_step(s, decode_utf8(bytes))
    }
}

/// The CRAM-MD5 challenge issued at time `t`.
pub open spec fn challenge_text(t: u64) -> Seq<char> {
    "<"@ + decimal(t as nat) + "."@ + KEY@ + "@example.net>\r\n"@
}

/// The answer to the time `t`: the challenge, in Base64.
pub open spec fn clock_step(s: Pop3State, t: u64) -> (Pop3State, Seq<char>, Pop3NextView) {
    (
        waiting(s, PendingView::CramResponse { challenge: challenge_text(t) }),
        "+ "@ + base64_encode(encode_utf8(challenge_text(t))) + "\r\n"@,
        Pop3NextView::ReadCramResponse,
    )
}

/// The words of a CRAM-MD5 answer: the Base64 text, trimmed and decoded,
/// read as UTF-8 and split at white space.
pub open spec fn answer_words(line: Seq<char>) -> Seq<Seq<char>> {
    words(decode_utf8(base64_decode(encode_utf8(trim(line)))->0))
}

/// The answers on which the server fails: not Base64, not UTF-8 once
/// decoded, or fewer than two words.
pub open spec fn answer_fails(line: Seq<char>) -> bool {
    let decoded = base64_decode(encode_utf8(trim(line)));
    &&& line.len() > 0
    &&& {
        ||| decoded is None
        ||| !valid_utf8(decoded->0)
        ||| answer_words(line).len() < 2
    }
}

/// The answer to the client's line after a challenge: an empty line fails
/// the authentication; otherwise the first word names the account and the
/// second is the digest to check.
pub open spec fn cram_step(s: Pop3State, challenge: Seq<char>, line: Seq<char>) -> (
    Pop3State,
    Seq<char>,
    Pop3NextView,
) {
    if line.len() == 0 {
        (waiting(s, PendingView::Command), AUTH_FAILED@, Pop3NextView::ReadCommand)
    } else {
        let ws = answer_words(line);
        (
            waiting(
                s,
                PendingView::Account { username: ws[0], digest: ws[1], challenge: challenge },
            ),
            seq![],
            Pop3NextView::LookUpAccount(ws[0]),
        )
    }
}

/// The answer to the account lookup: an accepted digest makes `username`
/// the session's user; a refused one closes the connection.
pub open spec fn account_step(
    s: Pop3State,
    username: Seq<char>,
    digest: Seq<char>,
    challenge: Seq<char>,
    account: Option<UserView>,
) -> (Pop3State, Seq<char>, Pop3NextView) {
    if answer_accepted(account, digest, challenge) {
        (
            Pop3State { user: Some(username), password: s.password, pending: PendingView::Command },
            AUTH_OK@,
            Pop3NextView::ReadCommand,
        )
    } else {
        (waiting(s, PendingView::Command), INVALID_CREDENTIALS@, Pop3NextView::Close)
    }
}

/// The line of a `LIST` reply for mail number `k`: the number and the size
/// of the mail's text in bytes.
pub open spec fn size_line(k: nat, m: MailView) -> Seq<char> {
    decimal(k) + " "@ + decimal(encode_utf8(m.body).len()) + "\r\n"@
}

/// The lines of a `LIST` reply for the mails `ms`, numbered from 1.
pub open spec fn size_lines(ms: Seq<MailView>) -> Seq<char>
    decreases ms.len(),
{
    if ms.len() == 0 {
        seq![]
    } else {
        size_lines(ms.drop_last()) + size_line(ms.len(), ms.last())
    }
}

/// The line of a `UIDL` reply for mail number `k`: the number and the
/// mail's identifier.
pub open spec fn uid_line(k: nat, m: MailView) -> Seq<char> {
    decimal(k) + " "@ + m.uid + "\r\n"@
}

/// The lines of a `UIDL` reply for the mails `ms`, numbered from 1.
pub open spec fn uid_lines(ms: Seq<MailView>) -> Seq<char>
    decreases ms.len(),
{
    if ms.len() == 0 {
        seq![]
    } else {
        uid_lines(ms.drop_last()) + uid_line(ms.len(), ms.last())
    }
}

/// The reply to `RETR` for mail number `n` (counted from 1) of `ms`.
pub open spec fn retrieval(ms: Seq<MailView>, n: int) -> Seq<char> {
    MAIL_FOLLOWS@ + ms[n - 1].body + END_OF_LIST@
}

/// The answer to the mailbox's contents, for the listing, identifier
/// listing or retrieval the session waits for.
pub open spec fn mailbox_step(s: Pop3State, mails: Option<Seq<MailView>>) -> (
    Pop3State,
    Seq<char>,
    Pop3NextView,
) {
    let idle = waiting(s, PendingView::Command);
    match mails {
        None => (idle, MAILBOX_UNAVAILABLE@, Pop3NextView::ReadCommand),
        Some(ms) => match s.pending {
            PendingView::Listing => (
                idle,
                LISTING_FOLLOWS@ + size_lines(ms) + END_OF_LIST@,
                Pop3NextView::ReadCommand,
            ),
            PendingView::UniqueIds => (
                idle,
                UNIQUE_IDS_FOLLOW@ + uid_lines(ms) + END_OF_LIST@,
                Pop3NextView::ReadCommand,
            ),
            PendingView::Message { number } => (
                idle,
                retrieval(ms, number as int),
                Pop3NextView::ReadCommand,
            ),
            _ => (idle, seq![], Pop3NextView::ReadCommand),
        },
    }
}

/// The mailbox contents on which the server fails: a listing of more mails
/// than its `i32` counter reaches, or a message number outside the mailbox.
pub open spec fn mailbox_fails(s: Pop3State, mails: Option<Seq<MailView>>) -> bool {
    match mails {
        None => false,
        Some(ms) => match s.pending {
            PendingView::Listing => ms.len() >= i32::MAX,
            PendingView::UniqueIds => ms.len() >= i32::MAX,
            PendingView::Message { number } => !(1 <= number <= ms.len()),
            _ => false,
        },
    }
}

/// Whether `ev` is what the session waits for.
pub open spec fn expects(s: Pop3State, ev: Pop3EventView) -> bool {
    match (s.pending, ev) {
        (PendingView::Command, Pop3EventView::Received(_)) => true,
        (PendingView::Clock, Pop3EventView::Clock(_)) => true,
        (PendingView::CramResponse { .. }, Pop3EventView::CramResponse(_)) => true,
        (PendingView::Account { .. }, Pop3EventView::Account(_)) => true,
        (PendingView::Count, Pop3EventView::MailboxSize(_)) => true,
        (PendingView::Listing, Pop3EventView::Mailbox(_)) => true,
        (PendingView::UniqueIds, Pop3EventView::Mailbox(_)) => true,
        (PendingView::Message { .. }, Pop3EventView::Mailbox(_)) => true,
        (PendingView::Deletion, Pop3EventView::Deleted(_)) => true,
        _ => false,
    }
}

/// The events, among those the session waits for, on which the server
/// fails instead of answering.
pub open spec fn pop3_fails(s: Pop3State, ev: Pop3EventView) -> bool {
    match ev {
        Pop3EventView::Received(b) => b.len() > 0 && valid_utf8(b) && command_fails(
            s,
            decode_utf8(b),
        ),
        Pop3EventView::CramResponse(line) => answer_fails(line),
        Pop3EventView::Mailbox(m) => mailbox_fails(s, m),
        _ => false,
    }
}

/// The session's answer to an event it waits for: its next state, its
/// reply and what the driver does next.
pub open spec fn pop3_step(s: Pop3State, ev: Pop3EventView) -> (Pop3State, Seq<char>, Pop3NextView) {
    let idle = waiting(s, PendingView::Command);
    match ev {
        Pop3EventView::Received(b) => received_step(s, b),
        Pop3EventView::Clock(t) => clock_step(s, t),
        Pop3EventView::CramResponse(line) => cram_step(s, s.pending->CramResponse_challenge, line),
        Pop3EventView::Account(a) => account_step(
            s,
            s.pending->Account_username,
            s.pending->digest,
            s.pending->Account_challenge,
            a,
        ),
        Pop3EventView::MailboxSize(n) => match n {
            Some(k) => (idle, "+OK "@ + signed_decimal(k as int) + " 0\r\n"@, Pop3NextView::ReadCommand),
            None => (idle, MAILBOX_UNAVAILABLE@, Pop3NextView::ReadCommand),
        },
        Pop3EventView::Mailbox(m) => mailbox_step(s, m),
        Pop3EventView::Deleted(ok) => (
            idle,
            if ok {
                DELETED@
            } else {
                NOT_DELETED@
            },
            Pop3NextView::ReadCommand,
        ),
    }
}


/// A copy of the known user's name.
fn known_user(user: &Option<String>) -> (u: String)
    requires
        user is Some,
    ensures
        u@ == opt_view(*user)->0,
{
    match user {
        Some(u) => u.clone(),
        None => String::new(),
    }
}

/// A string holding the text `lit`.
fn text(lit: &str) -> (s: String)
    ensures
        s@ == lit@,
{
    let mut s = String::new();
    s.append(lit);
    assert(s@ =~= lit@);
    s
}

impl Pop3Session {
    /// A new session: no user, no password, waiting for a command.
    pub fn new() -> (s: Pop3Session)
        ensures
            s@.user is None,
            s@.password is None,
            s@.pending == PendingView::Command,
    {
        Pop3Session { user: None, password: None, pending: Pending::Command }
    }

    /// The greeting sent when a connection opens.
    pub fn greeting() -> (g: String)
        ensures
            g@ == GREETING@,
    {
        text(GREETING)
    }

    /// The user the session serves, if one is known.
    pub fn user(&self) -> (u: Option<String>)
        ensures
            opt_view(u) == self@.user,
    {
        match &self.user {
            Some(u) => Some(u.clone()),
            None => None,
        }
    }

    /// The password the client gave, if any.
    pub fn password(&self) -> (p: Option<String>)
        ensures
            opt_view(p) == self@.password,
    {
        match &self.password {
            Some(p) => Some(p.clone()),
            None => None,
        }
    }

    /// Answers the command text `t`.
    fn command(&mut self, t: &Vec<char>) -> (act: Pop3Action)
        requires
            old(self)@.pending == PendingView::Command,
            !command_fails(old(self)@, t@),
        ensures
            command_step(old(self)@, t@) == (final(self)@, act@.0, act@.1),
    {
        let ws = split_words(t);
        proof {
            assert(views(ws@).len() == ws@.len());
        }
        if ws.len() == 0 {
            return Pop3Action { reply: text(NOT_RECOGNIZED), next: Pop3Next::ReadCommand };
        }
        proof {
            assert(views(ws@)[0] == ws@[0]@);
            if ws@.len() >= 2 {
                assert(views(ws@)[1] == ws@[1]@);
            }
        }
        let cmd = &ws[0];
        if word_is(cmd, "CAPA") {
            Pop3Action { reply: text(CAPABILITIES), next: Pop3Next::ReadCommand }
        } else if word_is(cmd, "AUTH") {
            if ws.len() < 2 {
                Pop3Action { reply: text(AUTH_MECHANISMS), next: Pop3Next::ReadCommand }
            } else if word_is(&ws[1], "CRAM-MD5") {
                self.pending = Pending::Clock;
                Pop3Action { reply: String::new(), next: Pop3Next::ReadClock }
            } else {
                Pop3Action { reply: text(UNSUPPORTED_AUTH), next: Pop3Next::ReadCommand }
            }
        } else if word_is(cmd, "USER") {
            self.user = Some(string_of(&ws[1]));
            Pop3Action { reply: text(USER_ACCEPTED), next: Pop3Next::ReadCommand }
        } else if word_is(cmd, "PASS") {
            self.password = Some(string_of(&ws[1]));
            Pop3Action { reply: text(PASSWORD_ACCEPTED), next: Pop3Next::ReadCommand }
        } else if word_is(cmd, "STAT") {
            let u = known_user(&self.user);
            self.pending = Pending::Count;
            Pop3Action { reply: String::new(), next: Pop3Next::CountMail(u) }
        } else if word_is(cmd, "LIST") {
            let u = known_user(&self.user);
            self.pending = Pending::Listing;
            Pop3Action { reply: String::new(), next: Pop3Next::FetchMail(u) }
        } else if word_is(cmd, "RETR") {
            let n = parse_int(&ws[1]);
            let u = known_user(&self.user);
            match n {
                Some(number) => {
                    self.pending = Pending::Message { number };
                },
                None => {},
            }
            Pop3Action { reply: String::new(), next: Pop3Next::FetchMail(u) }
        } else if word_is(cmd, "UIDL") {
            let u = known_user(&self.user);
            self.pending = Pending::UniqueIds;
            Pop3Action { reply: String::new(), next: Pop3Next::FetchMail(u) }
        } else if word_is(cmd, "DELE") {
            let n = parse_int(&ws[1]);
            self.pending = Pending::Deletion;
            match n {
                Some(id) => Pop3Action { reply: String::new(), next: Pop3Next::DeleteMail(id) },
                None => Pop3Action { reply: String::new(), next: Pop3Next::DeleteMail(0) },
            }
        } else if word_is(cmd, "QUIT") {
            Pop3Action { reply: text(SIGNING_OFF), next: Pop3Next::Close }
        } else {
            Pop3Action { reply: text(NOT_RECOGNIZED), next: Pop3Next::ReadCommand }
        }
    }

    /// Whether the command text `t` is one the server fails on.
    fn command_would_fail(&self, t: &Vec<char>) -> (r: bool)
        ensures
            r == command_fails(self@, t@),
    {
        let ws = split_words(t);
        proof {
            assert(views(ws@).len() == ws@.len());
        }
        if ws.len() == 0 {
            return false;
        }
        proof {
            assert(views(ws@)[0] == ws@[0]@);
            if ws@.len() >= 2 {
                assert(views(ws@)[1] == ws@[1]@);
            }
        }
        let cmd = &ws[0];
        if word_is(cmd, "CAPA") || word_is(cmd, "AUTH") {
            false
        } else if word_is(cmd, "USER") || word_is(cmd, "PASS") {
            ws.len() < 2
        } else if word_is(cmd, "STAT") || word_is(cmd, "LIST") {
            self.user.is_none()
        } else if word_is(cmd, "RETR") {
            ws.len() < 2 || parse_int(&ws[1]).is_none() || self.user.is_none()
        } else if word_is(cmd, "UIDL") {
            self.user.is_none()
        } else if word_is(cmd, "DELE") {
            ws.len() < 2 || parse_int(&ws[1]).is_none()
        } else {
            false
        }
    }

    /// Answers the bytes of one read.
    fn received(&mut self, bytes: Vec<u8>) -> (act: Pop3Action)
        requires
            old(self)@.pending == PendingView::Command,
            !pop3_fails(old(self)@, Pop3EventView::Received(bytes@)),
        ensures
            received_step(old(self)@, bytes@) == (final(self)@, act@.0, act@.1),
    {
        if bytes.len() == 0 {
            return Pop3Action { reply: String::new(), next: Pop3Next::Close };
        }
        match utf8_text(bytes.as_slice()) {
            None => Pop3Action { reply: String::new(), next: Pop3Next::ReadCommand },
            Some(t) => {
                let chars = chars_of(t);
                self.command(&chars)
            },
        }
    }

    /// Answers the time `t` with a challenge.
    fn clock(&mut self, t: u64) -> (act: Pop3Action)
        ensures
            clock_step(old(self)@, t) == (final(self)@, act@.0, act@.1),
    {
        let mut challenge = String::new();
        challenge.append("<");
        push_decimal(&mut challenge, t);
        challenge.append(".");
        challenge.append(KEY);
        challenge.append("@example.net>\r\n");
        assert(challenge@ =~= challenge_text(t));
        let encoded = encode_base64(challenge.as_str().as_bytes());
        let mut reply = String::new();
        reply.append("+ ");
        reply.append(encoded.as_str());
        reply.append("\r\n");
        assert(reply@ =~= "+ "@ + base64_encode(encode_utf8(challenge_text(t))) + "\r\n"@);
        self.pending = Pending::CramResponse { challenge };
        Pop3Action { reply, next: Pop3Next::ReadCramResponse }
    }

    /// The words of the client's CRAM-MD5 answer `line`, or `None` when the
    /// server fails on it.
    fn answer(line: &String) -> (r: Option<Vec<Vec<char>>>)
        requires
            line@.len() > 0,
        ensures
            match r {
                Some(ws) => !answer_fails(line@) && views(ws@) == answer_words(line@),
                None => answer_fails(line@),
            },
    {
        let chars = chars_of(line.as_str());
        let t = trimmed(&chars);
        let ts = string_of(&t);
        match decode_base64(ts.as_str().as_bytes()) {
            None => None,
            Some(decoded) => match utf8_text(decoded.as_slice()) {
                None => None,
                Some(txt) => {
                    let dc = chars_of(txt);
                    let ws = split_words(&dc);
                    proof {
                        assert(views(ws@).len() == ws@.len());
                    }
                    if ws.len() < 2 {
                        None
                    } else {
                        Some(ws)
                    }
                },
            },
        }
    }

    /// Answers the client's line after a challenge.
    fn cram_response(&mut self, line: String) -> (act: Pop3Action)
        requires
            old(self)@.pending is CramResponse,
            !answer_fails(line@),
        ensures
            cram_step(old(self)@, old(self)@.pending->CramResponse_challenge, line@) == (
                final(self)@,
                act@.0,
                act@.1,
            ),
    {
        let mut pending = Pending::Command;
        std::mem::swap(&mut pending, &mut self.pending);
        let challenge = match pending {
            Pending::CramResponse { challenge } => challenge,
            _ => String::new(),
        };
        if line.as_str().is_empty() {
            return Pop3Action { reply: text(AUTH_FAILED), next: Pop3Next::ReadCommand };
        }
        match Self::answer(&line) {
            Some(ws) => {
                proof {
                    assert(views(ws@)[0] == ws@[0]@);
                    assert(views(ws@)[1] == ws@[1]@);
                }
                let username = string_of(&ws[0]);
                let digest = string_of(&ws[1]);
                let lookup = string_of(&ws[0]);
                self.pending = Pending::Account { username, digest, challenge };
                Pop3Action { reply: String::new(), next: Pop3Next::LookUpAccount(lookup) }
            },
            None => Pop3Action { reply: String::new(), next: Pop3Next::ReadCommand },
        }
    }

    /// Answers the account lookup.
    fn account(&mut self, account: Option<User>) -> (act: Pop3Action)
        requires
            old(self)@.pending is Account,
        ensures
            account_step(
                old(self)@,
                old(self)@.pending->Account_username,
                old(self)@.pending->digest,
                old(self)@.pending->Account_challenge,
                match account {
                    Some(u) => Some(u@),
                    None => None,
                },
            ) == (final(self)@, act@.0, act@.1),
    {
        let mut pending = Pending::Command;
        std::mem::swap(&mut pending, &mut self.pending);
        match pending {
            Pending::Account { username, digest, challenge } => {
                if validate_auth(account, digest, challenge) {
                    self.user = Some(username);
                    Pop3Action { reply: text(AUTH_OK), next: Pop3Next::ReadCommand }
                } else {
                    Pop3Action { reply: text(INVALID_CREDENTIALS), next: Pop3Next::Close }
                }
            },
            _ => Pop3Action { reply: String::new(), next: Pop3Next::ReadCommand },
        }
    }

    /// Answers the number of mails in the mailbox.
    fn mailbox_size(&mut self, n: Option<i32>) -> (act: Pop3Action)
        ensures
            pop3_step(old(self)@, Pop3EventView::MailboxSize(n)) == (final(self)@, act@.0, act@.1),
    {
        self.pending = Pending::Command;
        match n {
            Some(k) => {
                let mut reply = String::new();
                reply.append("+OK ");
                push_signed_decimal(&mut reply, k as i64);
                reply.append(" 0\r\n");
                assert(reply@ =~= "+OK "@ + signed_decimal(k as int) + " 0\r\n"@);
                Pop3Action { reply, next: Pop3Next::ReadCommand }
            },
            None => Pop3Action { reply: text(MAILBOX_UNAVAILABLE), next: Pop3Next::ReadCommand },
        }
    }

    /// Answers the outcome of a deletion.
    fn deleted(&mut self, ok: bool) -> (act: Pop3Action)
        ensures
            pop3_step(old(self)@, Pop3EventView::Deleted(ok)) == (final(self)@, act@.0, act@.1),
    {
        self.pending = Pending::Command;
        if ok {
            Pop3Action { reply: text(DELETED), next: Pop3Next::ReadCommand }
        } else {
            Pop3Action { reply: text(NOT_DELETED), next: Pop3Next::ReadCommand }
        }
    }

    /// Appends the lines of a `LIST` reply for `ms`.
    fn push_size_lines(reply: &mut String, ms: &Vec<Mail>)
        requires
            ms@.len() < i32::MAX,
        ensures
            final(reply)@ == old(reply)@ + size_lines(mail_views(ms@)),
    {
        let ghost mv = mail_views(ms@);
        let mut k: usize = 0;
        while k < ms.len()
            invariant
                k <= ms@.len() < i32::MAX,
                mv == mail_views(ms@),
                reply@ == old(reply)@ + size_lines(mv.take(k as int)),
            decreases ms@.len() - k,
        {
            let m = &ms[k];
            let size = m.body.as_str().as_bytes().len();
            push_decimal(reply, (k + 1) as u64);
            reply.append(" ");
            push_decimal(reply, size as u64);
            reply.append("\r\n");
            proof {
                let t = mv.take(k + 1);
                assert(t.drop_last() =~= mv.take(k as int));
                assert(t.last() == m@);
                assert(reply@ =~= old(reply)@ + size_lines(t));
            }
            k = k + 1;
        }
        assert(mv.take(ms@.len() as int) =~= mv);
    }

    /// Appends the lines of a `UIDL` reply for `ms`.
    fn push_uid_lines(reply: &mut String, ms: &Vec<Mail>)
        requires
            ms@.len() < i32::MAX,
        ensures
            final(reply)@ == old(reply)@ + uid_lines(mail_views(ms@)),
    {
        let ghost mv = mail_views(ms@);
        let mut k: usize = 0;
        while k < ms.len()
            invariant
                k <= ms@.len() < i32::MAX,
                mv == mail_views(ms@),
                reply@ == old(reply)@ + uid_lines(mv.take(k as int)),
            decreases ms@.len() - k,
        {
            let m = &ms[k];
            push_decimal(reply, (k + 1) as u64);
            reply.append(" ");
            reply.append(m.uid.as_str());
            reply.append("\r\n");
            proof {
                let t = mv.take(k + 1);
                assert(t.drop_last() =~= mv.take(k as int));
                assert(t.last() == m@);
                assert(reply@ =~= old(reply)@ + uid_lines(t));
            }
            k = k + 1;
        }
        assert(mv.take(ms@.len() as int) =~= mv);
    }

    /// Answers the mailbox's contents.
    fn mailbox(&mut self, mails: Option<Vec<Mail>>) -> (act: Pop3Action)
        requires
            !mailbox_fails(
                old(self)@,
                match mails {
                    Some(ms) => Some(mail_views(ms@)),
                    None => None,
                },
            ),
        ensures
            mailbox_step(
                old(self)@,
                match mails {
                    Some(ms) => Some(mail_views(ms@)),
                    None => None,
                },
            ) == (final(self)@, act@.0, act@.1),
    {
        let mut pending = Pending::Command;
        std::mem::swap(&mut pending, &mut self.pending);
        match mails {
            None => Pop3Action { reply: text(MAILBOX_UNAVAILABLE), next: Pop3Next::ReadCommand },
            Some(ms) => match pending {
                Pending::Listing => {
                    let mut reply = text(LISTING_FOLLOWS);
                    Self::push_size_lines(&mut reply, &ms);
                    reply.append(END_OF_LIST);
                    Pop3Action { reply, next: Pop3Next::ReadCommand }
                },
                Pending::UniqueIds => {
                    let mut reply = text(UNIQUE_IDS_FOLLOW);
                    Self::push_uid_lines(&mut reply, &ms);
                    reply.append(END_OF_LIST);
                    Pop3Action { reply, next: Pop3Next::ReadCommand }
                },
                Pending::Message { number } => {
                    let m = &ms[(number - 1) as usize];
                    let mut reply = text(MAIL_FOLLOWS);
                    reply.append(m.body.as_str());
                    reply.append(END_OF_LIST);
                    assert(reply@ =~= retrieval(mail_views(ms@), number as int));
                    Pop3Action { reply, next: Pop3Next::ReadCommand }
                },
                _ => Pop3Action { reply: String::new(), next: Pop3Next::ReadCommand },
            },
        }
    }

    /// Whether the session waits for `ev` and the server answers it (rather
    /// than failing).
    pub fn accepts(&self, ev: &Pop3Event) -> (ok: bool)
        ensures
            ok == (expects(self@, ev@) && !pop3_fails(self@, ev@)),
    {
        match (&self.pending, ev) {
            (Pending::Command, Pop3Event::Received(bytes)) => {
                if bytes.len() == 0 {
                    return true;
                }
                match utf8_text(bytes.as_slice()) {
                    None => true,
                    Some(t) => {
                        let chars = chars_of(t);
                        !self.command_would_fail(&chars)
                    },
                }
            },
            (Pending::Clock, Pop3Event::Clock(_)) => true,
            (Pending::CramResponse { .. }, Pop3Event::CramResponse(line)) => {
                if line.as_str().is_empty() {
                    true
                } else {
                    Self::answer(line).is_some()
                }
            },
            (Pending::Account { .. }, Pop3Event::Account(_)) => true,
            (Pending::Count, Pop3Event::MailboxSize(_)) => true,
            (Pending::Listing, Pop3Event::Mailbox(m)) => match m {
                Some(ms) => ms.len() < 2147483647,
                None => true,
            },
            (Pending::UniqueIds, Pop3Event::Mailbox(m)) => match m {
                Some(ms) => ms.len() < 2147483647,
                None => true,
            },
            (Pending::Message { number }, Pop3Event::Mailbox(m)) => match m {
                Some(ms) => 1 <= *number && (*number as usize) <= ms.len(),
                None => true,
            },
            (Pending::Deletion, Pop3Event::Deleted(_)) => true,
            _ => false,
        }
    }

    /// Answers an event the session waits for and the server does not fail
    /// on: the session's next state, its reply and what the driver does
    /// next are those of `pop3_step`.
    pub fn step(&mut self, ev: Pop3Event) -> (act: Pop3Action)
        requires
            expects(old(self)@, ev@),
            !pop3_fails(old(self)@, ev@),
        ensures
            pop3_step(old(self)@, ev@) == (final(self)@, act@.0, act@.1),
    {
        match ev {
            Pop3Event::Received(bytes) => self.received(bytes),
            Pop3Event::Clock(t) => self.clock(t),
            Pop3Event::CramResponse(line) => self.cram_response(line),
            Pop3Event::Account(a) => self.account(a),
            Pop3Event::MailboxSize(n) => self.mailbox_size(n),
            Pop3Event::Mailbox(m) => self.mailbox(m),
            Pop3Event::Deleted(ok) => self.deleted(ok),
        }
    }

    /// Answers `ev` as `step` does when the session waits for it and the
    /// server answers it; otherwise returns `None` and leaves the session
    /// unchanged.
    pub fn handle(&mut self, ev: Pop3Event) -> (act: Option<Pop3Action>)
        ensures
            match act {
                Some(a) => expects(old(self)@, ev@) && !pop3_fails(old(self)@, ev@) && pop3_step(
                    old(self)@,
                    ev@,
                ) == (final(self)@, a@.0, a@.1),
                None => !(expects(old(self)@, ev@) && !pop3_fails(old(self)@, ev@))
                    && final(self)@ == old(self)@,
            },
    {
        if self.accepts(&ev) {
            Some(self.step(ev))
        } else {
            None
        }
    }
}


/// `QUIT` is answered with the sign-off and closes the connection, whatever
/// the session knows and whatever follows the command word.
pub proof fn lemma_quit_signs_off(s: Pop3State, bytes: Seq<u8>)
    requires
        s.pending == PendingView::Command,
        valid_utf8(bytes),
        words(decode_utf8(bytes)).len() > 0,
        words(decode_utf8(bytes))[0] == "QUIT"@,
    ensures
        expects(s, Pop3EventView::Received(bytes)),
        !pop3_fails(s, Pop3EventView::Received(bytes)),
        pop3_step(s, Pop3EventView::Received(bytes)) == (
            s,
            "+OK POP3 server signing off\r\n"@,
            Pop3NextView::Close,
        ),
{
    lemma_command_words();
    assert(bytes.len() > 0) by {
        if bytes.len() == 0 {
            assert(decode_utf8(bytes) =~= Seq::<char>::empty());
            assert(words(Seq::<char>::empty()) =~= Seq::<Seq<char>>::empty());
        }
    }
}

proof fn lemma_size_lines_prefix(ms: Seq<MailView>, k: int)
    requires
        0 <= k <= ms.len(),
    ensures
        size_lines(ms.take(k)).len() <= size_lines(ms).len(),
        size_lines(ms).subrange(0, size_lines(ms.take(k)).len() as int) == size_lines(ms.take(k)),
    decreases ms.len(),
{
    if k == ms.len() {
        assert(ms.take(k) =~= ms);
        assert(size_lines(ms).subrange(0, size_lines(ms).len() as int) =~= size_lines(ms));
    } else {
        let d = ms.drop_last();
        lemma_size_lines_prefix(d, k);
        assert(d.take(k) =~= ms.take(k));
        let p = size_lines(ms.take(k));
        assert(size_lines(ms) == size_lines(d) + size_line(ms.len(), ms.last()));
        assert(size_lines(ms).subrange(0, p.len() as int) =~= size_lines(d).subrange(
            0,
            p.len() as int,
        ));
    }
}

proof fn lemma_uid_lines_prefix(ms: Seq<MailView>, k: int)
    requires
        0 <= k <= ms.len(),
    ensures
        uid_lines(ms.take(k)).len() <= uid_lines(ms).len(),
        uid_lines(ms).subrange(0, uid_lines(ms.take(k)).len() as int) == uid_lines(ms.take(k)),
    decreases ms.len(),
{
    if k == ms.len() {
        assert(ms.take(k) =~= ms);
        assert(uid_lines(ms).subrange(0, uid_lines(ms).len() as int) =~= uid_lines(ms));
    } else {
        let d = ms.drop_last();
        lemma_uid_lines_prefix(d, k);
        assert(d.take(k) =~= ms.take(k));
        let p = uid_lines(ms.take(k));
        assert(uid_lines(ms) == uid_lines(d) + uid_line(ms.len(), ms.last()));
        assert(uid_lines(ms).subrange(0, p.len() as int) =~= uid_lines(d).subrange(
            0,
            p.len() as int,
        ));
    }
}

/// The listings describe the mails that `RETR` sends: after the header
/// and the lines for mails `1..k-1`, the `LIST` reply holds the line `k`
/// followed by the size in bytes of the text that `RETR k` sends, and the
/// `UIDL` reply holds the line `k` followed by that mail's identifier. The
/// number printed for mail `k` reads back as `k`.
pub proof fn lemma_listings_describe_retrieval(s: Pop3State, ms: Seq<MailView>, k: int)
    requires
        1 <= k <= ms.len(),
        ms.len() < i32::MAX,
    ensures
        ({
            let listing = mailbox_step(waiting(s, PendingView::Listing), Some(ms)).1;
            let before = "+OK Mailbox listing follows\r\n"@ + size_lines(ms.take(k - 1));
            let line = decimal(k as nat) + " "@ + decimal(encode_utf8(ms[k - 1].body).len())
                + "\r\n"@;
            listing.subrange(before.len() as int, (before.len() + line.len()) as int) == line
        }),
        ({
            let listing = mailbox_step(waiting(s, PendingView::UniqueIds), Some(ms)).1;
            let before = "+OK Unique ID listing follows\r\n"@ + uid_lines(ms.take(k - 1));
            let line = decimal(k as nat) + " "@ + ms[k - 1].uid + "\r\n"@;
            listing.subrange(before.len() as int, (before.len() + line.len()) as int) == line
        }),
        mailbox_step(waiting(s, PendingView::Message { number: k as i32 }), Some(ms)).1
            == "+OK Mail follows\r\n"@ + ms[k - 1].body + ".\r\n"@,
        parse_i32(decimal(k as nat)) == Some(k as i32),
{
    crate::text::lemma_parse_decimal(k as nat);
    let t = ms.take(k);
    assert(t.drop_last() =~= ms.take(k - 1));
    assert(t.last() == ms[k - 1]);
    lemma_size_lines_prefix(ms, k);
    lemma_uid_lines_prefix(ms, k);
    let sl = size_lines(ms);
    let line = decimal(k as nat) + " "@ + decimal(encode_utf8(ms[k - 1].body).len()) + "\r\n"@;
    let pre = size_lines(ms.take(k - 1));
    assert(size_lines(t) == pre + line);
    let listing = "+OK Mailbox listing follows\r\n"@ + sl + ".\r\n"@;
    let before = "+OK Mailbox listing follows\r\n"@ + pre;
    assert(listing.subrange(before.len() as int, (before.len() + line.len()) as int) =~= sl.subrange(
        pre.len() as int,
        (pre.len() + line.len()) as int,
    ));
    assert(sl.subrange(0, size_lines(t).len() as int) == pre + line);
    assert(sl.subrange(pre.len() as int, (pre.len() + line.len()) as int) =~= (pre + line).subrange(
        pre.len() as int,
        (pre.len() + line.len()) as int,
    ));
    assert((pre + line).subrange(pre.len() as int, (pre.len() + line.len()) as int) =~= line);
    let ul = uid_lines(ms);
    let uline = decimal(k as nat) + " "@ + ms[k - 1].uid + "\r\n"@;
    let upre = uid_lines(ms.take(k - 1));
    assert(uid_lines(t) == upre + uline);
    let ulisting = "+OK Unique ID listing follows\r\n"@ + ul + ".\r\n"@;
    let ubefore = "+OK Unique ID listing follows\r\n"@ + upre;
    assert(ulisting.subrange(ubefore.len() as int, (ubefore.len() + uline.len()) as int) =~= ul.subrange(
        upre.len() as int,
        (upre.len() + uline.len()) as int,
    ));
    assert(ul.subrange(0, uid_lines(t).len() as int) == upre + uline);
    assert(ul.subrange(upre.len() as int, (upre.len() + uline.len()) as int) =~= (upre + uline).subrange(
        upre.len() as int,
        (upre.len() + uline.len()) as int,
    ));
    assert((upre + uline).subrange(upre.len() as int, (upre.len() + uline.len()) as int) =~= uline);
}


/// The account's answer to a CRAM-MD5 exchange, from the time the
/// challenge is issued to the account lookup.
pub open spec fn cram_exchange(s: Pop3State, t: u64, line: Seq<char>, account: Option<UserView>) -> (
    (Pop3State, Seq<char>, Pop3NextView),
    (Pop3State, Seq<char>, Pop3NextView),
    (Pop3State, Seq<char>, Pop3NextView),
) {
    let first = pop3_step(s, Pop3EventView::Clock(t));
    let second = pop3_step(first.0, Pop3EventView::CramResponse(line));
    let third = pop3_step(second.0, Pop3EventView::Account(account));
    (first, second, third)
}

/// CRAM-MD5: the session sends the challenge for the time `t` in Base64.
/// A client whose answer decodes to an address, a space and a digest is
/// looked up under that address. It is let in under that address exactly
/// when an account was found and the digest is the lower-case hexadecimal
/// HMAC-MD5 of the challenge under the account's password; otherwise the
/// connection closes.
pub proof fn lemma_cram_md5_exchange(
    s: Pop3State,
    t: u64,
    line: Seq<char>,
    address: Seq<char>,
    digest: Seq<char>,
    account: Option<UserView>,
)
    requires
        s.pending == PendingView::Clock,
        address.len() > 0,
        digest.len() > 0,
        forall|k: int| 0 <= k < address.len() ==> !crate::text::is_ws(#[trigger] address[k]),
        forall|k: int| 0 <= k < digest.len() ==> !crate::text::is_ws(#[trigger] digest[k]),
        line.len() > 0,
        base64_decode(encode_utf8(trim(line))) == Some(encode_utf8(address + seq![' '] + digest)),
    ensures
        ({
            let (first, second, third) = cram_exchange(s, t, line, account);
            &&& expects(s, Pop3EventView::Clock(t))
            &&& first.1 == "+ "@ + base64_encode(encode_utf8(challenge_text(t))) + "\r\n"@
            &&& first.2 == Pop3NextView::ReadCramResponse
            &&& expects(first.0, Pop3EventView::CramResponse(line))
            &&& !pop3_fails(first.0, Pop3EventView::CramResponse(line))
            &&& second.1 == Seq::<char>::empty()
            &&& second.2 == Pop3NextView::LookUpAccount(address)
            &&& expects(second.0, Pop3EventView::Account(account))
            &&& !pop3_fails(second.0, Pop3EventView::Account(account))
            &&& third.0.pending == PendingView::Command
            &&& third.0.password == s.password
            &&& if account is Some && digest == crate::auth::lower_hex(
                crate::auth::hmac_md5(
                    encode_utf8(account->0.password),
                    encode_utf8(challenge_text(t)),
                ),
            ) {
                &&& third.0.user == Some(address)
                &&& third.1 == AUTH_OK@
                &&& third.2 == Pop3NextView::ReadCommand
            } else {
                &&& third.0.user == s.user
                &&& third.1 == INVALID_CREDENTIALS@
                &&& third.2 == Pop3NextView::Close
            }
        }),
{
    let text = address + seq![' '] + digest;
    vstd::utf8::encode_utf8_valid_utf8(text);
    vstd::utf8::encode_utf8_decode_utf8(text);
    crate::text::lemma_two_words(address, digest);
    assert(answer_words(line) == seq![address, digest]);
    crate::auth::lemma_answer_accepted(account, digest, challenge_text(t));
}

/// Whether the bytes `b` are text whose first word is `w`.
pub open spec fn starts_with_word(b: Seq<u8>, w: Seq<char>) -> bool {
    &&& valid_utf8(b)
    &&& words(decode_utf8(b)).len() > 0
    &&& words(decode_utf8(b))[0] == w
}

/// The user a session serves changes only through `USER` or an accepted
/// CRAM-MD5 answer, and its password only through `PASS`.
pub proof fn lemma_credentials_change_only_on_request(s: Pop3State, ev: Pop3EventView)
    requires
        expects(s, ev),
        !pop3_fails(s, ev),
    ensures
        pop3_step(s, ev).0.user != s.user ==> {
            ||| (ev matches Pop3EventView::Received(b) && starts_with_word(b, "USER"@))
            ||| (ev matches Pop3EventView::Account(a) && answer_accepted(
                a,
                s.pending->digest,
                s.pending->Account_challenge,
            ))
        },
        pop3_step(s, ev).0.password != s.password ==> (ev matches Pop3EventView::Received(b)
            && starts_with_word(b, "PASS"@)),
{
}


/// What is sent after `DATA` is what `RETR` gives back: a mail whose text
/// was collected from the lines `lines` (none of them the line `.\r\n`),
/// once the store hands it back as mail number `k`, is retrieved as exactly
/// those lines, in order, between the reply header and the final `.` line.
pub proof fn lemma_delivered_text_is_retrieved(
    smtp: crate::smtp::SmtpState,
    lines: Seq<Seq<char>>,
    s: Pop3State,
    ms: Seq<MailView>,
    k: int,
)
    requires
        smtp.in_data,
        smtp.mail.body == Seq::<char>::empty(),
        forall|i: int| 0 <= i < lines.len() ==> #[trigger] lines[i] != ".\r\n"@,
        1 <= k <= ms.len(),
        k <= i32::MAX,
        ms[k - 1] == crate::smtp::smtp_step(
            crate::smtp::feed(smtp, lines),
            Some(".\r\n"@),
            smtp.mail.uid,
        ).0.mail,
    ensures
        !mailbox_fails(waiting(s, PendingView::Message { number: k as i32 }), Some(ms)),
        mailbox_step(waiting(s, PendingView::Message { number: k as i32 }), Some(ms)).1
            == "+OK Mail follows\r\n"@ + crate::smtp::concat_lines(lines) + ".\r\n"@,
{
    crate::smtp::lemma_data_collects_lines(smtp, lines);
    assert(Seq::<char>::empty() + crate::smtp::concat_lines(lines) =~= crate::smtp::concat_lines(
        lines,
    ));
}


/// Whether a session waiting for `p` takes the result of `next`: what the
/// driver delivers after carrying out `next` is what the session waits for.
pub open spec fn delivers_awaited(next: Pop3NextView, p: PendingView) -> bool {
    match next {
        Pop3NextView::ReadCommand => p == PendingView::Command,
        Pop3NextView::ReadClock => p == PendingView::Clock,
        Pop3NextView::ReadCramResponse => p is CramResponse,
        Pop3NextView::LookUpAccount(_) => p is Account,
        Pop3NextView::CountMail(_) => p == PendingView::Count,
        Pop3NextView::FetchMail(_) => p == PendingView::Listing || p == PendingView::UniqueIds
            || p is Message,
        Pop3NextView::DeleteMail(_) => p == PendingView::Deletion,
        Pop3NextView::Close => true,
    }
}

/// After every answer, the session waits for exactly the kind of result
/// that the driver obtains by doing what the answer asks.
pub proof fn lemma_session_awaits_what_it_asks(s: Pop3State, ev: Pop3EventView)
    requires
        expects(s, ev),
        !pop3_fails(s, ev),
    ensures
        delivers_awaited(pop3_step(s, ev).2, pop3_step(s, ev).0.pending),
{
}


/// The words of `command`, a space, `argument` and a line end, sent as
/// UTF-8.
proof fn lemma_command_with_argument(command: Seq<char>, argument: Seq<char>)
    requires
        command.len() > 0,
        argument.len() > 0,
        forall|k: int| 0 <= k < command.len() ==> !crate::text::is_ws(#[trigger] command[k]),
        forall|k: int| 0 <= k < argument.len() ==> !crate::text::is_ws(#[trigger] argument[k]),
    ensures
        ({
            let line = command + seq![' '] + argument + seq!['\r', '\n'];
            &&& valid_utf8(encode_utf8(line))
            &&& decode_utf8(encode_utf8(line)) == line
            &&& encode_utf8(line).len() > 0
            &&& words(line) == seq![command, argument]
        }),
{
    let line = command + seq![' '] + argument + seq!['\r', '\n'];
    vstd::utf8::encode_utf8_valid_utf8(line);
    vstd::utf8::encode_utf8_decode_utf8(line);
    crate::text::lemma_two_words_line(command, argument);
    assert(encode_utf8(line).len() > 0) by {
        if encode_utf8(line).len() == 0 {
            assert(decode_utf8(encode_utf8(line)) =~= Seq::<char>::empty());
        }
    }
}

/// The words of `command` and a line end, sent as UTF-8.
proof fn lemma_command_alone(command: Seq<char>)
    requires
        command.len() > 0,
        forall|k: int| 0 <= k < command.len() ==> !crate::text::is_ws(#[trigger] command[k]),
    ensures
        ({
            let line = command + seq!['\r', '\n'];
            &&& valid_utf8(encode_utf8(line))
            &&& decode_utf8(encode_utf8(line)) == line
            &&& encode_utf8(line).len() > 0
            &&& words(line) == seq![command]
        }),
{
    let line = command + seq!['\r', '\n'];
    vstd::utf8::encode_utf8_valid_utf8(line);
    vstd::utf8::encode_utf8_decode_utf8(line);
    crate::text::lemma_word_then_line_end(command);
    assert(encode_utf8(line).len() > 0) by {
        if encode_utf8(line).len() == 0 {
            assert(decode_utf8(encode_utf8(line)) =~= Seq::<char>::empty());
        }
    }
}

/// `RETR k`, for a mail number `k` of the mailbox, sends mail number `k`:
/// the session asks for the mailbox of its user and, given the mailbox,
/// replies with the header, the text of mail `k` (counted from 1) and the
/// final `.` line.
pub proof fn lemma_retr_sends_the_named_mail(s: Pop3State, k: int, ms: Seq<MailView>)
    requires
        s.pending == PendingView::Command,
        s.user is Some,
        1 <= k <= ms.len(),
        k <= i32::MAX,
    ensures
        ({
            let line = "RETR"@ + seq![' '] + decimal(k as nat) + seq!['\r', '\n'];
            let ev = Pop3EventView::Received(encode_utf8(line));
            let first = pop3_step(s, ev);
            let second = pop3_step(first.0, Pop3EventView::Mailbox(Some(ms)));
            &&& expects(s, ev)
            &&& !pop3_fails(s, ev)
            &&& first.1 == Seq::<char>::empty()
            &&& first.2 == Pop3NextView::FetchMail(s.user->0)
            &&& expects(first.0, Pop3EventView::Mailbox(Some(ms)))
            &&& !pop3_fails(first.0, Pop3EventView::Mailbox(Some(ms)))
            &&& second == (
                Pop3State { user: s.user, password: s.password, pending: PendingView::Command },
                "+OK Mail follows\r\n"@ + ms[k - 1].body + ".\r\n"@,
                Pop3NextView::ReadCommand,
            )
        }),
{
    lemma_command_words();
    crate::text::lemma_signed_decimal_reads_back(k);
    assert(signed_decimal(k) == decimal(k as nat));
    lemma_command_with_argument("RETR"@, decimal(k as nat));
}

/// `DELE n`, for any `n` in the `i32` range written in decimal, asks the
/// store to delete exactly the mail `n`, and waits for the outcome.
pub proof fn lemma_dele_deletes_the_named_mail(s: Pop3State, n: i32)
    requires
        s.pending == PendingView::Command,
    ensures
        ({
            let line = "DELE"@ + seq![' '] + signed_decimal(n as int) + seq!['\r', '\n'];
            let ev = Pop3EventView::Received(encode_utf8(line));
            &&& expects(s, ev)
            &&& !pop3_fails(s, ev)
            &&& pop3_step(s, ev) == (
                Pop3State { user: s.user, password: s.password, pending: PendingView::Deletion },
                Seq::<char>::empty(),
                Pop3NextView::DeleteMail(n),
            )
        }),
{
    lemma_command_words();
    crate::text::lemma_signed_decimal_reads_back(n as int);
    lemma_command_with_argument("DELE"@, signed_decimal(n as int));
}

/// `STAT` asks for the count of the user's mails, and the reply gives that
/// count: `+OK `, then the count in decimal (which reads back as the count),
/// then ` 0`; when the store cannot count, the reply is the error line.
pub proof fn lemma_stat_reports_count(s: Pop3State, count: Option<i32>)
    requires
        s.pending == PendingView::Command,
        s.user is Some,
    ensures
        ({
            let line = "STAT"@ + seq!['\r', '\n'];
            let ev = Pop3EventView::Received(encode_utf8(line));
            let first = pop3_step(s, ev);
            let second = pop3_step(first.0, Pop3EventView::MailboxSize(count));
            &&& expects(s, ev)
            &&& !pop3_fails(s, ev)
            &&& first.1 == Seq::<char>::empty()
            &&& first.2 == Pop3NextView::CountMail(s.user->0)
            &&& expects(first.0, Pop3EventView::MailboxSize(count))
            &&& second.0 == (Pop3State {
                user: s.user,
                password: s.password,
                pending: PendingView::Command,
            })
            &&& second.2 == Pop3NextView::ReadCommand
            &&& match count {
                Some(k) => {
                    &&& second.1 == "+OK "@ + signed_decimal(k as int) + " 0\r\n"@
                    &&& parse_i32(signed_decimal(k as int)) == Some(k)
                },
                None => second.1 == "-ERR Could not retrieve mailbox size\r\n"@,
            }
        }),
{
    lemma_command_words();
    lemma_command_alone("STAT"@);
    if let Some(k) = count {
        crate::text::lemma_signed_decimal_reads_back(k as int);
    }
}


/// The command words of the protocol: distinct texts of four characters
/// without white space.
proof fn lemma_command_words()
    ensures
        "CAPA"@ != "AUTH"@,
        "CAPA"@ != "USER"@,
        "CAPA"@ != "PASS"@,
        "CAPA"@ != "STAT"@,
        "CAPA"@ != "LIST"@,
        "CAPA"@ != "RETR"@,
        "CAPA"@ != "UIDL"@,
        "CAPA"@ != "DELE"@,
        "CAPA"@ != "QUIT"@,
        "AUTH"@ != "USER"@,
        "AUTH"@ != "PASS"@,
        "AUTH"@ != "STAT"@,
        "AUTH"@ != "LIST"@,
        "AUTH"@ != "RETR"@,
        "AUTH"@ != "UIDL"@,
        "AUTH"@ != "DELE"@,
        "AUTH"@ != "QUIT"@,
        "USER"@ != "PASS"@,
        "USER"@ != "STAT"@,
        "USER"@ != "LIST"@,
        "USER"@ != "RETR"@,
        "USER"@ != "UIDL"@,
        "USER"@ != "DELE"@,
        "USER"@ != "QUIT"@,
        "PASS"@ != "STAT"@,
        "PASS"@ != "LIST"@,
        "PASS"@ != "RETR"@,
        "PASS"@ != "UIDL"@,
        "PASS"@ != "DELE"@,
        "PASS"@ != "QUIT"@,
        "STAT"@ != "LIST"@,
        "STAT"@ != "RETR"@,
        "STAT"@ != "UIDL"@,
        "STAT"@ != "DELE"@,
        "STAT"@ != "QUIT"@,
        "LIST"@ != "RETR"@,
        "LIST"@ != "UIDL"@,
        "LIST"@ != "DELE"@,
        "LIST"@ != "QUIT"@,
        "RETR"@ != "UIDL"@,
        "RETR"@ != "DELE"@,
        "RETR"@ != "QUIT"@,
        "UIDL"@ != "DELE"@,
        "UIDL"@ != "QUIT"@,
        "DELE"@ != "QUIT"@,
        "CAPA"@.len() == 4,
        forall|i: int| 0 <= i < 4 ==> !crate::text::is_ws(#[trigger] "CAPA"@[i]),
        "AUTH"@.len() == 4,
        forall|i: int| 0 <= i < 4 ==> !crate::text::is_ws(#[trigger] "AUTH"@[i]),
        "USER"@.len() == 4,
        forall|i: int| 0 <= i < 4 ==> !crate::text::is_ws(#[trigger] "USER"@[i]),
        "PASS"@.len() == 4,
        forall|i: int| 0 <= i < 4 ==> !crate::text::is_ws(#[trigger] "PASS"@[i]),
        "STAT"@.len() == 4,
        forall|i: int| 0 <= i < 4 ==> !crate::text::is_ws(#[trigger] "STAT"@[i]),
        "LIST"@.len() == 4,
        forall|i: int| 0 <= i < 4 ==> !crate::text::is_ws(#[trigger] "LIST"@[i]),
        "RETR"@.len() == 4,
        forall|i: int| 0 <= i < 4 ==> !crate::text::is_ws(#[trigger] "RETR"@[i]),
        "UIDL"@.len() == 4,
        forall|i: int| 0 <= i < 4 ==> !crate::text::is_ws(#[trigger] "UIDL"@[i]),
        "DELE"@.len() == 4,
        forall|i: int| 0 <= i < 4 ==> !crate::text::is_ws(#[trigger] "DELE"@[i]),
        "QUIT"@.len() == 4,
        forall|i: int| 0 <= i < 4 ==> !crate::text::is_ws(#[trigger] "QUIT"@[i]),
{
    reveal_strlit("CAPA");
    reveal_strlit("AUTH");
    reveal_strlit("USER");
    reveal_strlit("PASS");
    reveal_strlit("STAT");
    reveal_strlit("LIST");
    reveal_strlit("RETR");
    reveal_strlit("UIDL");
    reveal_strlit("DELE");
    reveal_strlit("QUIT");
    assert("CAPA"@[0] != "AUTH"@[0]);
    assert("CAPA"@[0] != "USER"@[0]);
    assert("CAPA"@[0] != "PASS"@[0]);
    assert("CAPA"@[0] != "STAT"@[0]);
    assert("CAPA"@[0] != "LIST"@[0]);
    assert("CAPA"@[0] != "RETR"@[0]);
    assert("CAPA"@[0] != "UIDL"@[0]);
    assert("CAPA"@[0] != "DELE"@[0]);
    assert("CAPA"@[0] != "QUIT"@[0]);
    assert("AUTH"@[0] != "USER"@[0]);
    assert("AUTH"@[0] != "PASS"@[0]);
    assert("AUTH"@[0] != "STAT"@[0]);
    assert("AUTH"@[0] != "LIST"@[0]);
    assert("AUTH"@[0] != "RETR"@[0]);
    assert("AUTH"@[0] != "UIDL"@[0]);
    assert("AUTH"@[0] != "DELE"@[0]);
    assert("AUTH"@[0] != "QUIT"@[0]);
    assert("USER"@[0] != "PASS"@[0]);
    assert("USER"@[0] != "STAT"@[0]);
    assert("USER"@[0] != "LIST"@[0]);
    assert("USER"@[0] != "RETR"@[0]);
    assert("USER"@[1] != "UIDL"@[1]);
    assert("USER"@[0] != "DELE"@[0]);
    assert("USER"@[0] != "QUIT"@[0]);
    assert("PASS"@[0] != "STAT"@[0]);
    assert("PASS"@[0] != "LIST"@[0]);
    assert("PASS"@[0] != "RETR"@[0]);
    assert("PASS"@[0] != "UIDL"@[0]);
    assert("PASS"@[0] != "DELE"@[0]);
    assert("PASS"@[0] != "QUIT"@[0]);
    assert("STAT"@[0] != "LIST"@[0]);
    assert("STAT"@[0] != "RETR"@[0]);
    assert("STAT"@[0] != "UIDL"@[0]);
    assert("STAT"@[0] != "DELE"@[0]);
    assert("STAT"@[0] != "QUIT"@[0]);
    assert("LIST"@[0] != "RETR"@[0]);
    assert("LIST"@[0] != "UIDL"@[0]);
    assert("LIST"@[0] != "DELE"@[0]);
    assert("LIST"@[0] != "QUIT"@[0]);
    assert("RETR"@[0] != "UIDL"@[0]);
    assert("RETR"@[0] != "DELE"@[0]);
    assert("RETR"@[0] != "QUIT"@[0]);
    assert("UIDL"@[0] != "DELE"@[0]);
    assert("UIDL"@[0] != "QUIT"@[0]);
    assert("DELE"@[0] != "QUIT"@[0]);
}

/// `USER name` makes `name` the session's user and is accepted.
pub proof fn lemma_user_names_the_user(s: Pop3State, name: Seq<char>)
    requires
        s.pending == PendingView::Command,
        name.len() > 0,
        forall|k: int| 0 <= k < name.len() ==> !crate::text::is_ws(#[trigger] name[k]),
    ensures
        ({
            let ev = Pop3EventView::Received(encode_utf8("USER"@ + seq![' '] + name + seq!['\r', '\n']));
            &&& expects(s, ev)
            &&& !pop3_fails(s, ev)
            &&& pop3_step(s, ev) == (
                Pop3State { user: Some(name), password: s.password, pending: PendingView::Command },
                "+OK User accepted\r\n"@,
                Pop3NextView::ReadCommand,
            )
        }),
{
    lemma_command_words();
    lemma_command_with_argument("USER"@, name);
}

/// `PASS secret` records `secret` as the session's password and is
/// accepted.
pub proof fn lemma_pass_records_the_password(s: Pop3State, secret: Seq<char>)
    requires
        s.pending == PendingView::Command,
        secret.len() > 0,
        forall|k: int| 0 <= k < secret.len() ==> !crate::text::is_ws(#[trigger] secret[k]),
    ensures
        ({
            let ev = Pop3EventView::Received(encode_utf8("PASS"@ + seq![' '] + secret + seq!['\r', '\n']));
            &&& expects(s, ev)
            &&& !pop3_fails(s, ev)
            &&& pop3_step(s, ev) == (
                Pop3State { user: s.user, password: Some(secret), pending: PendingView::Command },
                "+OK Password accepted\r\n"@,
                Pop3NextView::ReadCommand,
            )
        }),
{
    lemma_command_words();
    lemma_command_with_argument("PASS"@, secret);
}

/// `CAPA` lists the capabilities.
pub proof fn lemma_capa_lists_capabilities(s: Pop3State)
    requires
        s.pending == PendingView::Command,
    ensures
        ({
            let ev = Pop3EventView::Received(encode_utf8("CAPA"@ + seq!['\r', '\n']));
            &&& expects(s, ev)
            &&& !pop3_fails(s, ev)
            &&& pop3_step(s, ev) == (
                s,
                "+OK Capability list follows\r\nSASL CRAM-MD5 PLAIN\r\nUSER\r\nPASS\r\nAUTH\r\nSTAT\r\nLIST\r\nQUIT\r\n.\r\n"@,
                Pop3NextView::ReadCommand,
            )
        }),
{
    lemma_command_words();
    lemma_command_alone("CAPA"@);
}

/// `AUTH CRAM-MD5` sends nothing yet and asks for the time, to build the
/// challenge.
pub proof fn lemma_auth_cram_md5_asks_for_the_time(s: Pop3State)
    requires
        s.pending == PendingView::Command,
    ensures
        ({
            let ev = Pop3EventView::Received(encode_utf8("AUTH"@ + seq![' '] + "CRAM-MD5"@ + seq!['\r', '\n']));
            &&& expects(s, ev)
            &&& !pop3_fails(s, ev)
            &&& pop3_step(s, ev) == (
                Pop3State { user: s.user, password: s.password, pending: PendingView::Clock },
                Seq::<char>::empty(),
                Pop3NextView::ReadClock,
            )
        }),
{
    lemma_command_words();
    reveal_strlit("CRAM-MD5");
    assert("CRAM-MD5"@.len() == 8);
    assert forall|k: int| 0 <= k < 8 implies !crate::text::is_ws(#[trigger] "CRAM-MD5"@[k]) by {}
    lemma_command_with_argument("AUTH"@, "CRAM-MD5"@);
}

/// `LIST` asks for the user's mailbox and then lists it: the header, one
/// line per mail (described by `lemma_listings_describe_retrieval`) and the
/// final `.` line.
pub proof fn lemma_list_lists_the_mailbox(s: Pop3State, ms: Seq<MailView>)
    requires
        s.pending == PendingView::Command,
        s.user is Some,
        ms.len() < i32::MAX,
    ensures
        ({
            let ev = Pop3EventView::Received(encode_utf8("LIST"@ + seq!['\r', '\n']));
            let first = pop3_step(s, ev);
            &&& expects(s, ev)
            &&& !pop3_fails(s, ev)
            &&& first.1 == Seq::<char>::empty()
            &&& first.2 == Pop3NextView::FetchMail(s.user->0)
            &&& first.0 == waiting(s, PendingView::Listing)
            &&& expects(first.0, Pop3EventView::Mailbox(Some(ms)))
            &&& !pop3_fails(first.0, Pop3EventView::Mailbox(Some(ms)))
            &&& pop3_step(first.0, Pop3EventView::Mailbox(Some(ms))) == (
                s,
                "+OK Mailbox listing follows\r\n"@ + size_lines(ms) + ".\r\n"@,
                Pop3NextView::ReadCommand,
            )
        }),
{
    lemma_command_words();
    lemma_command_alone("LIST"@);
}

/// `UIDL` asks for the user's mailbox and then lists the identifiers: the
/// header, one line per mail (described by
/// `lemma_listings_describe_retrieval`) and the final `.` line.
pub proof fn lemma_uidl_lists_the_identifiers(s: Pop3State, ms: Seq<MailView>)
    requires
        s.pending == PendingView::Command,
        s.user is Some,
        ms.len() < i32::MAX,
    ensures
        ({
            let ev = Pop3EventView::Received(encode_utf8("UIDL"@ + seq!['\r', '\n']));
            let first = pop3_step(s, ev);
            &&& expects(s, ev)
            &&& !pop3_fails(s, ev)
            &&& first.1 == Seq::<char>::empty()
            &&& first.2 == Pop3NextView::FetchMail(s.user->0)
            &&& first.0 == waiting(s, PendingView::UniqueIds)
            &&& expects(first.0, Pop3EventView::Mailbox(Some(ms)))
            &&& !pop3_fails(first.0, Pop3EventView::Mailbox(Some(ms)))
            &&& pop3_step(first.0, Pop3EventView::Mailbox(Some(ms))) == (
                s,
                "+OK Unique ID listing follows\r\n"@ + uid_lines(ms) + ".\r\n"@,
                Pop3NextView::ReadCommand,
            )
        }),
{
    lemma_command_words();
    lemma_command_alone("UIDL"@);
}


/// A command text whose first word is none of the protocol's commands (or
/// that has no word) is answered with the error line, leaving the session
/// as it was.
pub proof fn lemma_unknown_command_is_refused(s: Pop3State, bytes: Seq<u8>)
    requires
        s.pending == PendingView::Command,
        bytes.len() > 0,
        valid_utf8(bytes),
        ({
            let ws = words(decode_utf8(bytes));
            ws.len() == 0 || (ws[0] != "CAPA"@ && ws[0] != "AUTH"@ && ws[0] != "USER"@ && ws[0]
                != "PASS"@ && ws[0] != "STAT"@ && ws[0] != "LIST"@ && ws[0] != "RETR"@ && ws[0]
                != "UIDL"@ && ws[0] != "DELE"@ && ws[0] != "QUIT"@)
        }),
    ensures
        !pop3_fails(s, Pop3EventView::Received(bytes)),
        pop3_step(s, Pop3EventView::Received(bytes)) == (
            s,
            "-ERR Command not recognized\r\n"@,
            Pop3NextView::ReadCommand,
        ),
{
}

/// The end of the stream closes the session; bytes that are not UTF-8 are
/// ignored without a reply.
pub proof fn lemma_end_and_garbage(s: Pop3State, bytes: Seq<u8>)
    requires
        s.pending == PendingView::Command,
    ensures
        bytes.len() == 0 ==> pop3_step(s, Pop3EventView::Received(bytes)) == (
            s,
            Seq::<char>::empty(),
            Pop3NextView::Close,
        ),
        bytes.len() > 0 && !valid_utf8(bytes) ==> pop3_step(s, Pop3EventView::Received(bytes)) == (
            s,
            Seq::<char>::empty(),
            Pop3NextView::ReadCommand,
        ),
{
}

/// `AUTH` without a mechanism is answered `+ Ok.`; with a mechanism other
/// than `CRAM-MD5` it is refused.
pub proof fn lemma_auth_other_mechanisms(s: Pop3State, mechanism: Seq<char>)
    requires
        s.pending == PendingView::Command,
        mechanism.len() > 0,
        mechanism != "CRAM-MD5"@,
        forall|k: int| 0 <= k < mechanism.len() ==> !crate::text::is_ws(#[trigger] mechanism[k]),
    ensures
        pop3_step(s, Pop3EventView::Received(encode_utf8("AUTH"@ + seq!['\r', '\n']))) == (
            s,
            "+ Ok."@,
            Pop3NextView::ReadCommand,
        ),
        pop3_step(
            s,
            Pop3EventView::Received(encode_utf8("AUTH"@ + seq![' '] + mechanism + seq!['\r', '\n'])),
        ) == (s, "-ERR unsupported auth method\r\n"@, Pop3NextView::ReadCommand),
{
    lemma_command_words();
    lemma_command_alone("AUTH"@);
    lemma_command_with_argument("AUTH"@, mechanism);
}

/// An empty answer to the challenge fails the authentication without
/// closing the connection; the user stays as it was.
pub proof fn lemma_empty_answer_fails(s: Pop3State)
    requires
        s.pending is CramResponse,
    ensures
        !pop3_fails(s, Pop3EventView::CramResponse(Seq::<char>::empty())),
        pop3_step(s, Pop3EventView::CramResponse(Seq::<char>::empty())) == (
            Pop3State { user: s.user, password: s.password, pending: PendingView::Command },
            "-ERR Authentication failed\r\n"@,
            Pop3NextView::ReadCommand,
        ),
{
}

/// A mailbox the store cannot read is answered with the error line, for
/// `LIST`, `UIDL` and `RETR` alike; a deletion is confirmed or refused as
/// the store reports.
pub proof fn lemma_store_outcomes(s: Pop3State, ok: bool)
    ensures
        (s.pending == PendingView::Listing || s.pending == PendingView::UniqueIds
            || s.pending is Message) ==> pop3_step(s, Pop3EventView::Mailbox(None)) == (
            Pop3State { user: s.user, password: s.password, pending: PendingView::Command },
            "-ERR Could not retrieve mailbox size\r\n"@,
            Pop3NextView::ReadCommand,
        ),
        s.pending == PendingView::Deletion ==> pop3_step(s, Pop3EventView::Deleted(ok)) == (
            Pop3State { user: s.user, password: s.password, pending: PendingView::Command },
            if ok {
                "+OK msg deleted\r\n"@
            } else {
                "-ERR Could not delete message\r\n"@
            },
            Pop3NextView::ReadCommand,
        ),
{
}


/// The challenge for the time `t` is `<`, the time in decimal, `.`, the
/// server's name `mx24.144`, `@example.net>` and a line end.
pub proof fn lemma_challenge_text(t: u64)
    ensures
        challenge_text(t) == "<"@ + decimal(t as nat) + "."@ + "mx24.144"@ + "@example.net>\r\n"@,
{
}

} // verus!
