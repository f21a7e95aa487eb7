//! CRAM-MD5 credential checking.

use vstd::prelude::*;
use vstd::utf8::encode_utf8;
use crate::models::{User, UserView};

verus! {

/// The HMAC-MD5 tag (RFC 2104 with MD5) of `message` under `key`.
pub uninterp spec fn hmac_md5(key: Seq<u8>, message: Seq<u8>) -> Seq<u8>;

/// `hmac::Hmac<md5::Md5>`: `Mac::new_from_slice(key)`, `Mac::update(message)`,
/// `Mac::finalize().into_bytes()`. The tag is named by `hmac_md5`; MD5's
/// output, and so the tag, is 16 bytes. `new_from_slice` accepts keys of any
/// length for HMAC (longer keys are hashed first), so the `expect` never
/// fails.
#[verifier::external_body]
fn hmac_md5_tag(key: &[u8], message: &[u8]) -> (tag: Vec<u8>)
    ensures
        tag@ == hmac_md5(key@, message@),
        tag@.len() == 16,
{
    let mut mac = <hmac::Hmac<md5::Md5> as hmac::Mac>::new_from_slice(key).expect("hmac key");
    hmac::Mac::update(&mut mac, message);
    hmac::Mac::finalize(mac).into_bytes().to_vec()
}

/// The lower-case hexadecimal digit for `d` (`0 <= d < 16`).
pub open spec fn hex_digit(d: int) -> char {
    seq!['0', '1', '2', '3', '4', '5', '6', '7', '8', '9', 'a', 'b', 'c', 'd', 'e', 'f'][d]
}

/// `data` in lower-case hexadecimal, two digits per byte, high half first.
pub open spec fn lower_hex(data: Seq<u8>) -> Seq<char>
    decreases data.len(),
{
    if data.len() == 0 {
        seq![]
    } else {
        seq![hex_digit(data[0] as int / 16), hex_digit(data[0] as int % 16)] + lower_hex(data.drop_first())
    }
}

/// `hex::encode`: each byte as two lower-case hexadecimal digits, high half
/// first.
#[verifier::external_body]
fn hex_encode(data: &[u8]) -> (s: String)
    ensures
        s@ == lower_hex(data@),
{
    hex::encode(data)
}

/// The answer a client owes to `challenge` when its password is `password`:
/// the HMAC-MD5 tag of the challenge's UTF-8 bytes under the password's UTF-8
/// bytes, in lower-case hexadecimal.
pub open spec fn expected_digest(password: Seq<char>, challenge: Seq<char>) -> Seq<char> {
    lower_hex(hmac_md5(encode_utf8(password), encode_utf8(challenge)))
}

/// Whether the account found for a client (if any) accepts `digest` as the
/// answer to `challenge`.
pub open spec fn answer_accepted(account: Option<UserView>, digest: Seq<char>, challenge: Seq<char>) -> bool {
    match account {
        Some(u) => digest == expected_digest(u.password, challenge),
        None => false,
    }
}

/// Checks a CRAM-MD5 answer: `account` is the account stored under the
/// address the client named (`None` when there is none, or the store could
/// not be read), `password_hash` the digest the client sent and `challenge`
/// the challenge it answered.
pub fn validate_auth(account: Option<User>, password_hash: String, challenge: String) -> (ok: bool)
    ensures
        ok == answer_accepted(
            match account {
                Some(u) => Some(u@),
                None => None,
            },
            password_hash@,
            challenge@,
        ),
{
    match account {
        Some(user) => {
            let tag = hmac_md5_tag(user.password.as_str().as_bytes(), challenge.as_str().as_bytes());
            let computed = hex_encode(tag.as_slice());
            password_hash == computed
        },
        None => false,
    }
}


/// `lower_hex` writes each byte as two digits, high half first, from the
/// digits `0`-`9`, `a`-`f`.
pub proof fn lemma_lower_hex_digits(data: Seq<u8>)
    ensures
        lower_hex(data).len() == 2 * data.len(),
        forall|i: int|
            0 <= i < data.len() ==> lower_hex(data)[2 * i] == hex_digit(#[trigger] data[i] as int / 16)
                && lower_hex(data)[2 * i + 1] == hex_digit(data[i] as int % 16),
    decreases data.len(),
{
    if data.len() > 0 {
        let t = data.drop_first();
        lemma_lower_hex_digits(t);
        let h = seq![hex_digit(data[0] as int / 16), hex_digit(data[0] as int % 16)];
        assert forall|i: int| 0 <= i < data.len() implies lower_hex(data)[2 * i] == hex_digit(
            #[trigger] data[i] as int / 16,
        ) && lower_hex(data)[2 * i + 1] == hex_digit(data[i] as int % 16) by {
            if i > 0 {
                assert(data[i] == t[i - 1]);
                assert(lower_hex(data)[2 * i] == lower_hex(t)[2 * (i - 1)]);
                assert(lower_hex(data)[2 * i + 1] == lower_hex(t)[2 * (i - 1) + 1]);
            }
        }
    }
}

/// An answer is accepted exactly when an account was found and the digest
/// is the lower-case hexadecimal HMAC-MD5 of the whole challenge's UTF-8
/// bytes, keyed with the whole stored password's UTF-8 bytes; without an
/// account no answer is accepted.
pub proof fn lemma_answer_accepted(account: Option<UserView>, digest: Seq<char>, challenge: Seq<char>)
    ensures
        answer_accepted(account, digest, challenge) <==> (account is Some && digest == lower_hex(
            hmac_md5(encode_utf8(account->0.password), encode_utf8(challenge)),
        )),
{
}

} // verus!
