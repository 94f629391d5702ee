//! Salted, memory-hard password hashing.
use vstd::prelude::*;

use argon2::password_hash::rand_core::OsRng;
use argon2::password_hash::{PasswordHash, PasswordHasher, PasswordVerifier, SaltString};
use argon2::Argon2;

verus! {

/// The longest password, in characters, that can be hashed: argon2 takes
/// passwords of at most `u32::MAX` bytes, and a character takes at most four.
pub const MAX_PASSWORD_CHARS: usize = 0x3FFF_FFFF;

/// Whether argon2 accepts `password` against the PHC hash record `record`.
pub uninterp spec fn argon2_accepts(password: Seq<char>, record: Seq<char>) -> bool;

/// How every record made here begins: algorithm Argon2id, version 19,
/// 4096 KiB of memory, 3 passes, 1 lane.
pub open spec fn phc_prefix() -> Seq<char> {
    seq![
        '$', 'a', 'r', 'g', 'o', 'n', '2', 'i', 'd', '$', 'v', '=', '1', '9', '$', 'm', '=', '4',
        '0', '9', '6', ',', 't', '=', '3', ',', 'p', '=', '1', '$',
    ]
}

/// Whether `c` is in the standard Base64 alphabet.
pub open spec fn is_b64_char(c: char) -> bool {
    ('A' <= c && c <= 'Z') || ('a' <= c && c <= 'z') || ('0' <= c && c <= '9') || c == '+' || c
        == '/'
}

/// The text of a 16-byte salt in unpadded Base64: 22 characters, the last of
/// which carries two bits only, so it is `A`, `Q`, `g` or `w`.
pub open spec fn is_salt_text(s: Seq<char>) -> bool {
    &&& s.len() == 22
    &&& forall|i: int| 0 <= i < 22 ==> #[trigger] is_b64_char(s[i])
    &&& (s[21] == 'A' || s[21] == 'Q' || s[21] == 'g' || s[21] == 'w')
}

/// Relies on password-hash's `SaltString::generate(OsRng)`: 16 random bytes
/// from the operating system, in unpadded Base64.
#[verifier::external_body]
fn generate_salt() -> (r: String)
    ensures
        is_salt_text(r@),
{
    SaltString::generate(&mut OsRng).as_str().to_string()
}

/// Relies on argon2's `PasswordHasher::hash_password_simple` (Argon2id with
/// default parameters), written as a PHC string: the prefix above, the salt as
/// given, `$`, and the 43-character digest (32 bytes). The record is accepted
/// by `verify_password` for the same password. It succeeds for every salt text
/// of 16 bytes and every password of at most `u32::MAX` bytes.
#[verifier::external_body]
fn hash_with_salt(password: &str, salt: &str) -> (r: String)
    requires
        password@.len() <= MAX_PASSWORD_CHARS,
        is_salt_text(salt@),
    ensures
        argon2_accepts(password@, r@),
        r@.len() == 96,
        r@.subrange(0, 30) == phc_prefix(),
        r@.subrange(30, 52) == salt@,
        r@[52] == '$',
{
    Argon2::default().hash_password_simple(password.as_bytes(), salt).unwrap().to_string()
}

/// Hashes `password` under a freshly drawn random salt into a self-describing
/// PHC record: algorithm and parameters, then the salt at positions 30 to 51,
/// then the digest. The record is accepted by `verify_password` for the same
/// password.
pub fn hash_password(password: &str) -> (r: String)
    requires
        password@.len() <= MAX_PASSWORD_CHARS,
    ensures
        argon2_accepts(password@, r@),
        r@.len() == 96,
        r@.subrange(0, 30) == phc_prefix(),
        is_salt_text(r@.subrange(30, 52)),
        r@[52] == '$',
{
    let salt = generate_salt();
    hash_with_salt(password, salt.as_str())
}

/// Relies on argon2's `PasswordHash::new` and `PasswordVerifier::verify_password`:
/// whether the record parses and the password hashes to its digest under its
/// salt and parameters. A record that does not parse is refused; among those
/// are the empty record and every record that does not start with `$`.
#[verifier::external_body]
pub fn verify_password(password: &str, hash: &str) -> (r: bool)
    ensures
        r == argon2_accepts(password@, hash@),
        hash@.len() == 0 || hash@[0] != '$' ==> !r,
{
    match PasswordHash::new(hash) {
        Ok(parsed) => Argon2::default().verify_password(password.as_bytes(), &parsed).is_ok(),
        Err(_) => false,
    }
}

} // verus!
