use mailserver::db::{init, MAIL_TABLE, USERS_TABLE};
use mailserver::models::Mail;

#[test]
fn new_mail_is_empty_with_a_v4_uid() {
    let m = Mail::new();
    assert!(m.sender.is_empty() && m.reciever.is_empty() && m.body.is_empty());
    let u: Vec<char> = m.uid.chars().collect();
    assert_eq!(u.len(), 36);
    for (i, c) in u.iter().enumerate() {
        if [8, 13, 18, 23].contains(&i) {
            assert_eq!(*c, '-');
        } else {
            assert!(c.is_ascii_hexdigit() && !c.is_ascii_uppercase());
        }
    }
    assert_eq!(u[14], '4');
    assert!("89ab".contains(u[19]));
    assert_ne!(Mail::new().uid, m.uid);
}

#[test]
fn mail_with_given_uid() {
    let m = Mail::with_uid(String::from("abc"));
    assert_eq!(m.uid, "abc");
    assert_eq!(m.body, "");
}

#[test]
fn schema_creates_both_tables() {
    let s = init();
    assert_eq!(s, vec![MAIL_TABLE, USERS_TABLE]);
    assert!(s[0].contains("CREATE TABLE IF NOT EXISTS mail ("));
    assert!(s[0].contains("reciever TEXT NOT NULL"));
    assert!(s[1].contains("CREATE TABLE IF NOT EXISTS users ("));
    assert!(s[1].contains("password TEXT NOT NULL"));
}
