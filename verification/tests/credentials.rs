use mailserver::auth::validate_auth;
use mailserver::models::User;

fn user(password: &str) -> User {
    User { name: String::from("Tim"), address: String::from("tim"), password: String::from(password) }
}

#[test]
fn accepts_the_rfc2195_example() {
    let challenge = String::from("<1896.697170952@postoffice.reston.mci.net>");
    assert!(validate_auth(
        Some(user("tanstaaftanstaaf")),
        String::from("b913a602c7eda7a495b4e6e7334d3890"),
        challenge,
    ));
}

#[test]
fn accepts_the_rfc2104_example() {
    assert!(validate_auth(
        Some(user("Jefe")),
        String::from("750c783e6ab0b503eaa86e310a5db738"),
        String::from("what do ya want for nothing?"),
    ));
}

#[test]
fn refuses_a_wrong_digest() {
    let challenge = String::from("<1896.697170952@postoffice.reston.mci.net>");
    assert!(!validate_auth(
        Some(user("tanstaaftanstaaf")),
        String::from("B913A602C7EDA7A495B4E6E7334D3890"),
        challenge.clone(),
    ));
    assert!(!validate_auth(Some(user("other")), String::from("b913a602c7eda7a495b4e6e7334d3890"), challenge));
}

#[test]
fn refuses_without_an_account() {
    assert!(!validate_auth(None, String::from("b913a602c7eda7a495b4e6e7334d3890"), String::from("x")));
}
