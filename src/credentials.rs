//! Password hashing through bcrypt.
use vstd::prelude::*;

verus! {

#[verifier::external_type_specification]
#[verifier::external_body]
pub struct ExHashError(pwhash::error::Error);

/// Whether bcrypt accepts `password` against the stored `hash`.
pub uninterp spec fn bcrypt_accepts(password: Seq<char>, hash: Seq<char>) -> bool;

/// Every character is printable ASCII (space to tilde).
pub open spec fn printable_ascii(s: Seq<char>) -> bool {
    forall|i: int| 0 <= i < s.len() ==> ' ' <= #[trigger] s[i] && s[i] <= '~'
}

/// Relies on `pwhash::bcrypt::hash`: hashes with a fresh random salt (drawn
/// from the OS, which panics rather than fail) at the default cost, and always
/// returns `Ok`. The result is `$2b$10$` followed by the salt and the hash in
/// bcrypt's base64 alphabet (`./A-Za-z0-9`), and `verify` accepts the password
/// against it, since it recomputes with the same salt, cost and variant.
#[verifier::external_body]
pub(crate) fn hash_password(password: &str) -> (r: Result<String, pwhash::error::Error>)
    ensures
        r is Ok,
        r matches Ok(h) ==> bcrypt_accepts(password@, h@) && printable_ascii(h@),
{
    pwhash::bcrypt::hash(password)
}

/// Relies on `pwhash::bcrypt::verify`: recomputes the hash of `password` with
/// the salt and cost read from `hash` and compares; the answer depends on the
/// two strings alone. Its salt decoder subtracts 0x20 from each character and
/// indexes a 96-entry table, so a character outside printable ASCII could
/// panic; `requires` excludes those.
#[verifier::external_body]
pub(crate) fn verify_password(password: &str, hash: &str) -> (r: bool)
    requires
        printable_ascii(hash@),
    ensures
        r == bcrypt_accepts(password@, hash@),
{
    pwhash::bcrypt::verify(password, hash)
}

} // verus!
