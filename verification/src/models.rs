//! The records the server keeps: mails and user accounts.

use vstd::prelude::*;

verus! {

/// A mail as the server stores it.
#[derive(Debug)]
pub struct Mail {
    pub uid: String,
    pub sender: String,
    pub reciever: String,
    pub body: String,
}

/// The contents of a [`Mail`].
pub struct MailView {
    pub uid: Seq<char>,
    pub sender: Seq<char>,
    pub reciever: Seq<char>,
    pub body: Seq<char>,
}

impl View for Mail {
    type V = MailView;

    open spec fn view(&self) -> MailView {
        MailView { uid: self.uid@, sender: self.sender@, reciever: self.reciever@, body: self.body@ }
    }
}

/// A user account.
pub struct User {
    pub name: String,
    pub address: String,
    pub password: String,
}

/// The contents of a [`User`].
pub struct UserView {
    pub name: Seq<char>,
    pub address: Seq<char>,
    pub password: Seq<char>,
}

impl View for User {
    type V = UserView;

    open spec fn view(&self) -> UserView {
        UserView { name: self.name@, address: self.address@, password: self.password@ }
    }
}

/// The views of a sequence of mails.
pub open spec fn mail_views(ms: Seq<Mail>) -> Seq<MailView> {
    ms.map_values(|m: Mail| m@)
}

/// Whether `c` is a lower-case hexadecimal digit.
pub open spec fn is_lower_hex_digit(c: char) -> bool {
    ('0' <= c <= '9') || ('a' <= c <= 'f')
}

/// The text form of a random (version 4) UUID: 36 characters, `-` at
/// positions 8, 13, 18 and 23, lower-case hexadecimal digits elsewhere, the
/// version digit `4` at position 14 and one of `8`, `9`, `a`, `b` at
/// position 19.
pub open spec fn is_uuid_v4_text(s: Seq<char>) -> bool {
    &&& s.len() == 36
    &&& forall|i: int|
        0 <= i < 36 ==> (if i == 8 || i == 13 || i == 18 || i == 23 {
            s[i] == '-'
        } else {
            is_lower_hex_digit(#[trigger] s[i])
        })
    &&& s[14] == '4'
    &&& (s[19] == '8' || s[19] == '9' || s[19] == 'a' || s[19] == 'b')
}

/// A fresh random identifier: `uuid::Uuid::new_v4()` in its `Display` form.
/// The bits are random; the text always has the layout of a version 4 UUID
/// (the version and variant bits are fixed by `new_v4`, and `Display` writes
/// the hyphenated lower-case form). `new_v4` panics only when the operating
/// system's random source fails.
#[verifier::external_body]
fn random_uid() -> (s: String)
    ensures
        is_uuid_v4_text(s@),
{
    uuid::Uuid::new_v4().to_string()
}

impl Mail {
    /// An empty mail with the identifier `uid`.
    pub fn with_uid(uid: String) -> (m: Mail)
        ensures
            m@.uid == uid@,
            m@.sender == Seq::<char>::empty(),
            m@.reciever == Seq::<char>::empty(),
            m@.body == Seq::<char>::empty(),
    {
        Mail { uid, sender: String::new(), reciever: String::new(), body: String::new() }
    }

    /// An empty mail with a fresh random identifier.
    pub fn new() -> (m: Mail)
        ensures
            is_uuid_v4_text(m@.uid),
            m@.sender == Seq::<char>::empty(),
            m@.reciever == Seq::<char>::empty(),
            m@.body == Seq::<char>::empty(),
    {
        Mail::with_uid(random_uid())
    }
}

} // verus!
