//! Trusted interface to outside crates and to std functions that vstd
//! gives no specification.  Every function here is believed, not proved:
//! each doc comment names the outside function relied on.

use vstd::prelude::*;

verus! {

/// The result of Unicode upper-casing; a function of the characters alone.
pub uninterp spec fn upper_of(s: Seq<char>) -> Seq<char>;

/// Relies on str::to_uppercase: the Unicode upper-case form of the text,
/// which depends on the characters alone.
#[verifier::external_body]
pub(crate) fn to_uppercase_string(s: &str) -> (r: String)
    ensures
        r@ == upper_of(s@),
{
    s.to_uppercase()
}

/// Whether a character is alphanumeric; a property of the character alone.
pub uninterp spec fn alnum_of(c: char) -> bool;

/// Relies on char::is_alphanumeric: a Unicode character property.
#[verifier::external_body]
pub(crate) fn char_is_alphanumeric(c: char) -> (r: bool)
    ensures
        r == alnum_of(c),
{
    c.is_alphanumeric()
}

/// Whether a character is whitespace; a property of the character alone.
pub uninterp spec fn space_of(c: char) -> bool;

/// Relies on char::is_whitespace: a Unicode character property.
#[verifier::external_body]
pub(crate) fn char_is_whitespace(c: char) -> (r: bool)
    ensures
        r == space_of(c),
{
    c.is_whitespace()
}

/// Relies on String's FromIterator over chars: collecting characters
/// yields the string of exactly those characters.
#[verifier::external_body]
pub(crate) fn string_from_chars(v: &Vec<char>) -> (r: String)
    ensures
        r@ == v@,
{
    v.iter().collect()
}

/// Relies on uuid::Uuid::new_v4 and its Display form: a random
/// version-4 UUID rendered as 36 hyphenated characters.  The value is
/// random: nothing more is assumed of it.
#[verifier::external_body]
pub(crate) fn new_uuid_string() -> (r: String)
    ensures
        r@.len() == 36,
{
    uuid::Uuid::new_v4().to_string()
}

/// Relies on chrono::Utc::now and NaiveDateTime formatting: the wall
/// clock as text.  The value depends on the clock: nothing is assumed
/// of it, and callers validate it like any other input.
#[verifier::external_body]
pub(crate) fn current_timestamp() -> String {
    chrono::Utc::now().naive_utc().format("%Y-%m-%d %H:%M:%S%.f").to_string()
}

/// Relies on bcrypt::hash with the crate's default cost: a salted hash
/// of the password.  The salt is drawn from OS randomness, so the value
/// itself is not pinned; what holds of every outcome is that
/// bcrypt::verify recomputes the hash from the cost and salt embedded
/// in it and compares, so a fresh hash always verifies against its own
/// password.  `None` reports the crate's error.
#[verifier::external_body]
pub(crate) fn bcrypt_hash(password: &str) -> (r: Option<String>)
    ensures
        r matches Some(h) ==> bcrypt_verdict(password@, h@) == Some(true),
{
    bcrypt::hash(password, bcrypt::DEFAULT_COST).ok()
}

/// The verdict of bcrypt's verify for a password against a stored hash;
/// the salt is part of the hash, so this is a function of the two texts
/// alone.  `None` stands for a malformed stored hash.
pub uninterp spec fn bcrypt_verdict(password: Seq<char>, hashed: Seq<char>) -> Option<bool>;

/// Relies on bcrypt::verify: recomputes the hash with the salt taken
/// from `hashed` and compares.
#[verifier::external_body]
pub(crate) fn bcrypt_verify(password: &str, hashed: &str) -> (r: Option<bool>)
    ensures
        r == bcrypt_verdict(password@, hashed@),
{
    bcrypt::verify(password, hashed).ok()
}

/// Relies on rand's Alphanumeric distribution: exactly `len` characters,
/// each drawn from the sixty-two ASCII letters and digits.
#[verifier::external_body]
pub(crate) fn random_alphanumeric(len: usize) -> (r: String)
    ensures
        r@.len() == len,
        forall|k: int| 0 <= k < r@.len() ==> crate::text::ascii_alnum(#[trigger] r@[k]),
{
    rand::Rng::sample_iter(rand::rng(), &rand::distr::Alphanumeric).take(len).map(
        char::from,
    ).collect()
}

} // verus!
