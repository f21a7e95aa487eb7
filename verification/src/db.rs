//! The layout of the mail store.

use vstd::prelude::*;

verus! {

/// The statement that creates the table of mails.
pub const MAIL_TABLE: &'static str = "
    CREATE TABLE IF NOT EXISTS mail (
        id INTEGER PRIMARY KEY,
        uid TEXT NOT NULL,
        sender TEXT NOT NULL,
        reciever TEXT NOT NULL,
        body TEXT NOT NULL
    )";

/// The statement that creates the table of user accounts.
pub const USERS_TABLE: &'static str = "CREATE TABLE IF NOT EXISTS users (
        id INTEGER PRIMARY KEY,
        name TEXT NOT NULL,
        address TEXT NOT NULL,
        password TEXT NOT NULL
    )";

/// The statements that prepare an empty store, in the order in which they
/// are run: the mail table, then the user table.
pub fn init() -> (stmts: Vec<&'static str>)
    ensures
        stmts@ == seq![MAIL_TABLE, USERS_TABLE],
{
    let mut stmts: Vec<&'static str> = Vec::new();
    stmts.push(MAIL_TABLE);
    stmts.push(USERS_TABLE);
    stmts
}

} // verus!
