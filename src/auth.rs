use vstd::prelude::*;
use vstd::string::*;

use argon2::PasswordVerifier;
use sha3::Digest;

use crate::domain::{is_ascii_alphanumeric, random_alphanumeric};
use crate::errors::AuthError;
use crate::search::{first_index, hex_digit, hex_digit_str, lemma_first_index, str_eq};

verus! {

/// Decoding of `s` as standard base64 (with padding), or `None` when `s` is
/// not valid base64.
pub uninterp spec fn base64_decoded(s: Seq<char>) -> Option<Seq<u8>>;

/// Relies on base64's `decode_config` with the `STANDARD` configuration.
#[verifier::external_body]
fn decode_base64(s: &str) -> (r: Option<Vec<u8>>)
    ensures
        match r {
            Some(b) => base64_decoded(s@) == Some(b@),
            None => base64_decoded(s@) is None,
        },
{
    base64::decode_config(s, base64::STANDARD).ok()
}

/// The text that `bytes` encode in UTF-8, or `None` when they are not
/// valid UTF-8.
pub uninterp spec fn utf8_decoded(bytes: Seq<u8>) -> Option<Seq<char>>;

/// Relies on `String::from_utf8`.
#[verifier::external_body]
fn decode_utf8(bytes: Vec<u8>) -> (r: Option<String>)
    ensures
        match r {
            Some(s) => utf8_decoded(bytes@) == Some(s@),
            None => utf8_decoded(bytes@) is None,
        },
{
    String::from_utf8(bytes).ok()
}

/// A user name and password as the client sent them.
#[derive(Clone, Debug)]
pub struct Credentials {
    pub username: String,
    pub password: String,
}

/// Why an `Authorization` header could not be read as basic credentials.
#[derive(Clone, Copy, Debug, PartialEq, Eq, Structural)]
pub enum BasicAuthError {
    /// The scheme is not `Basic`.
    NotBasicScheme,
    /// The credentials are not valid base64.
    InvalidBase64,
    /// The decoded credentials are not valid UTF-8.
    InvalidUtf8,
    /// The decoded credentials hold no `:` before the password.
    MissingPassword,
}

pub open spec fn colon() -> spec_fn(char) -> bool {
    |c: char| c == ':'
}

/// `user:password` split at its first colon.
pub open spec fn split_credentials(t: Seq<char>) -> Option<(Seq<char>, Seq<char>)> {
    let i = first_index(t, colon());
    if i < 0 {
        None
    } else {
        Some((t.take(i), t.skip(i + 1)))
    }
}

pub open spec fn credentials_of(decoded: Option<Seq<u8>>) -> Result<(Seq<char>, Seq<char>), BasicAuthError> {
    match decoded {
        None => Err(BasicAuthError::InvalidBase64),
        Some(b) => match utf8_decoded(b) {
            None => Err(BasicAuthError::InvalidUtf8),
            Some(t) => match split_credentials(t) {
                None => Err(BasicAuthError::MissingPassword),
                Some(p) => Ok(p),
            },
        },
    }
}

pub open spec fn basic_credentials_of(header: Seq<char>) -> Result<(Seq<char>, Seq<char>), BasicAuthError> {
    if header.len() >= 6 && header.take(6) == "Basic "@ {
        credentials_of(base64_decoded(header.skip(6)))
    } else {
        Err(BasicAuthError::NotBasicScheme)
    }
}

pub open spec fn credentials_view(r: Result<Credentials, BasicAuthError>) -> Result<(Seq<char>, Seq<char>), BasicAuthError> {
    match r {
        Ok(c) => Ok((c.username@, c.password@)),
        Err(e) => Err(e),
    }
}

/// Splits decoded `user:password` credentials at the first colon.
pub fn credentials_from_decoded(decoded: Option<Vec<u8>>) -> (r: Result<Credentials, BasicAuthError>)
    ensures
        credentials_view(r) == credentials_of(
            match decoded {
                Some(b) => Some(b@),
                None => None,
            },
        ),
{
    let bytes = match decoded {
        Some(b) => b,
        None => return Err(BasicAuthError::InvalidBase64),
    };
    let ghost b = bytes@;
    let text = match decode_utf8(bytes) {
        Some(t) => t,
        None => return Err(BasicAuthError::InvalidUtf8),
    };
    let t = text.as_str();
    let n = t.unicode_len();
    proof {
        lemma_first_index(t@, colon());
    }
    let mut i: usize = 0;
    while i < n
        invariant
            n == t@.len(),
            i <= n,
            forall|j: int| 0 <= j < i ==> !(#[trigger] colon()(t@[j])),
            decoded is Some && decoded->0@ == b,
            utf8_decoded(b) == Some(t@),
        decreases n - i,
    {
        if t.get_char(i) == ':' {
            proof {
                lemma_first_index(t@, colon());
                let k = first_index(t@, colon());
                assert(colon()(t@[i as int]));
                if k != -1 && k < i {
                    assert(colon()(t@[k]));
                }
            }
            let username = String::from_str(t.substring_char(0, i));
            let password = String::from_str(t.substring_char(i + 1, n));
            assert(t@.skip(i + 1) =~= t@.subrange(i + 1, n as int));
            assert(t@.take(i as int) =~= t@.subrange(0, i as int));
            return Ok(Credentials { username, password });
        }
        i = i + 1;
    }
    Err(BasicAuthError::MissingPassword)
}

/// Reads the value of an `Authorization: Basic ...` header.
pub fn basic_authentication(header_value: &str) -> (r: Result<Credentials, BasicAuthError>)
    ensures
        credentials_view(r) == basic_credentials_of(header_value@),
{
    let n = header_value.unicode_len();
    let scheme = "Basic ";
    proof {
        reveal_strlit("Basic ");
    }
    if n < 6 || !str_eq(header_value.substring_char(0, 6), scheme) {
        return Err(BasicAuthError::NotBasicScheme);
    }
    assert(header_value@.subrange(0, 6) =~= header_value@.take(6));
    let encoded = header_value.substring_char(6, n);
    assert(encoded@ =~= header_value@.skip(6));
    credentials_from_decoded(decode_base64(encoded))
}

/// Why a new password was refused.
#[derive(Clone, Copy, Debug, PartialEq, Eq, Structural)]
pub enum PasswordChangeError {
    /// Shorter than 12 bytes, or 128 bytes or longer.
    BadLength,
    /// The confirmation differs from the new password.
    Mismatch,
}

impl PasswordChangeError {
    /// The message shown to the user.
    pub fn message(&self) -> (r: &'static str)
        ensures
            r@ == match self {
                PasswordChangeError::BadLength => "Password must be longer than 12 characters and less than 128 characters"@,
                PasswordChangeError::Mismatch => "You entered two different new passwords - the fieid values must match"@,
            },
    {
        match self {
            PasswordChangeError::BadLength => "Password must be longer than 12 characters and less than 128 characters",
            PasswordChangeError::Mismatch => "You entered two different new passwords - the fieid values must match",
        }
    }
}

pub open spec fn password_change_error(new_password: &str, new_password_check: &str) -> Option<PasswordChangeError> {
    let n = new_password.spec_bytes().len() as usize;
    if n < 12 || n >= 128 {
        Some(PasswordChangeError::BadLength)
    } else if new_password@ != new_password_check@ {
        Some(PasswordChangeError::Mismatch)
    } else {
        None
    }
}

/// Checks a new password and its confirmation before anything is stored:
/// first its length in bytes, then that both fields agree.
pub fn check_new_password(new_password: &str, new_password_check: &str) -> (r: Result<(), PasswordChangeError>)
    ensures
        match r {
            Ok(()) => password_change_error(new_password, new_password_check) is None,
            Err(e) => password_change_error(new_password, new_password_check) == Some(e),
        },
{
    let n = new_password.len();
    if n < 12 || n >= 128 {
        return Err(PasswordChangeError::BadLength);
    }
    if !str_eq(new_password, new_password_check) {
        return Err(PasswordChangeError::Mismatch);
    }
    Ok(())
}

/// Whether `hash` parses as a PHC string.
pub uninterp spec fn is_phc_hash(hash: Seq<char>) -> bool;

/// Relies on password-hash's `PasswordHash::new`: whether the text parses
/// as a PHC string.
#[verifier::external_body]
fn parses_as_phc(hash: &str) -> (r: bool)
    ensures
        r == is_phc_hash(hash@),
{
    argon2::PasswordHash::new(hash).is_ok()
}

/// Whether Argon2 with the parameters written in the PHC string `hash`
/// turns `password` into the digest that `hash` holds.
pub uninterp spec fn argon2_accepts(password: Seq<char>, hash: Seq<char>) -> bool;

/// Relies on argon2's `verify_password` (with `Argon2::default()`) against
/// the parsed PHC string.
#[verifier::external_body]
fn argon2_verifies(password: &str, hash: &str) -> (r: bool)
    requires
        is_phc_hash(hash@),
    ensures
        r == argon2_accepts(password@, hash@),
{
    match argon2::PasswordHash::new(hash) {
        Ok(parsed) => argon2::Argon2::default().verify_password(password.as_bytes(), &parsed).is_ok(),
        Err(_) => false,
    }
}

pub open spec fn is_invalid_credential(r: Result<(), AuthError>) -> bool {
    r matches Err(AuthError::InvalidCredential(_))
}

pub open spec fn is_unexpected(r: Result<(), AuthError>) -> bool {
    r matches Err(AuthError::UnexpectedError(_))
}

/// How a password check ends, given whether the stored hash parsed and
/// whether it accepted the password.
pub fn verification_outcome(parsed: bool, accepted: bool) -> (r: Result<(), AuthError>)
    ensures
        !parsed ==> is_unexpected(r),
        parsed && !accepted ==> is_invalid_credential(r),
        parsed && accepted ==> r is Ok,
{
    if !parsed {
        Err(AuthError::UnexpectedError(String::from_str("Failed to parse hash in PHC")))
    } else if !accepted {
        Err(AuthError::InvalidCredential(String::from_str("Invalid password")))
    } else {
        Ok(())
    }
}

/// Checks `password` against a stored Argon2 hash in PHC form.
pub fn verify_password_hash(expected_password_hash: &str, password: &str) -> (r: Result<(), AuthError>)
    ensures
        !is_phc_hash(expected_password_hash@) ==> is_unexpected(r),
        is_phc_hash(expected_password_hash@) && !argon2_accepts(password@, expected_password_hash@)
            ==> is_invalid_credential(r),
        is_phc_hash(expected_password_hash@) && argon2_accepts(password@, expected_password_hash@) ==> r is Ok,
{
    if !parses_as_phc(expected_password_hash) {
        return verification_outcome(false, false);
    }
    let accepted = argon2_verifies(password, expected_password_hash);
    verification_outcome(true, accepted)
}

/// A well-formed hash that matches no password in use: checked for unknown
/// users so that they take as long to reject as known ones.
pub const FALLBACK_PASSWORD_HASH: &'static str =
    "$argon2id$v=19$m=15000,t=2,p=1$gZiV/M1gPc22ElAH/Jh1Hw$CWOrkoo7oJBQ/iyh7uJ0LO2aLEfrHwTWllSAxT0zRno";

pub open spec fn hash_to_check(stored: Option<(u128, Seq<char>)>) -> Seq<char> {
    match stored {
        Some((_, h)) => h,
        None => FALLBACK_PASSWORD_HASH@,
    }
}

pub open spec fn login_denied(r: Result<u128, AuthError>) -> bool {
    r matches Err(AuthError::InvalidCredential(_))
}

pub open spec fn login_failed(r: Result<u128, AuthError>) -> bool {
    r matches Err(AuthError::UnexpectedError(_))
}

pub open spec fn stored_view(stored: Option<(u128, String)>) -> Option<(u128, Seq<char>)> {
    match stored {
        Some((id, h)) => Some((id, h@)),
        None => None,
    }
}

/// Decides a login from what the user table holds for the user name (its
/// id and password hash, or nothing) and the password given: the password
/// is checked in both cases, and only a known user whose hash accepts it
/// is let in.
pub fn validate_credentials(stored: Option<(u128, String)>, password: &str) -> (r: Result<u128, AuthError>)
    ensures
        ({
            let h = hash_to_check(stored_view(stored));
            &&& !is_phc_hash(h) ==> login_failed(r)
            &&& is_phc_hash(h) && !argon2_accepts(password@, h) ==> login_denied(r)
            &&& is_phc_hash(h) && argon2_accepts(password@, h) ==> match stored {
                Some((id, _)) => r == Ok::<u128, AuthError>(id),
                None => login_denied(r),
            }
        }),
{
    let (user_id, expected) = match stored {
        Some((id, h)) => (Some(id), h),
        None => (None, String::from_str(FALLBACK_PASSWORD_HASH)),
    };
    match verify_password_hash(expected.as_str(), password) {
        Ok(()) => {},
        Err(e) => return Err(e),
    }
    match user_id {
        Some(id) => Ok(id),
        None => Err(AuthError::InvalidCredential(String::from_str("Unknown username."))),
    }
}

/// The Keccak-256 digest of the UTF-8 bytes of `s`.
pub uninterp spec fn keccak256_of(s: Seq<char>) -> Seq<u8>;

/// Relies on sha3's `Keccak256::digest`, whose output is 32 bytes.
#[verifier::external_body]
fn keccak_digest(s: &str) -> (r: Vec<u8>)
    ensures
        r@ == keccak256_of(s@),
        r@.len() == 32,
{
    sha3::Keccak256::digest(s.as_bytes()).to_vec()
}

/// Two lower-case hex digits per byte, high nibble first.
pub open spec fn hex_of(bytes: Seq<u8>) -> Seq<char>
    decreases bytes.len(),
{
    if bytes.len() == 0 {
        Seq::empty()
    } else {
        hex_of(bytes.drop_last()) + seq![hex_digit(bytes.last() / 16), hex_digit(bytes.last() % 16)]
    }
}

proof fn lemma_hex_len(bytes: Seq<u8>)
    ensures
        hex_of(bytes).len() == 2 * bytes.len(),
    decreases bytes.len(),
{
    if bytes.len() > 0 {
        lemma_hex_len(bytes.drop_last());
    }
}

/// `bytes` written out in lower-case hex.
pub fn to_hex(bytes: &Vec<u8>) -> (r: String)
    ensures
        r@ == hex_of(bytes@),
{
    let mut out = String::new();
    let mut i: usize = 0;
    while i < bytes.len()
        invariant
            i <= bytes@.len(),
            out@ == hex_of(bytes@.take(i as int)),
        decreases bytes@.len() - i,
    {
        let b = bytes[i];
        out.append(hex_digit_str(b / 16));
        out.append(hex_digit_str(b % 16));
        assert(bytes@.take(i + 1).drop_last() =~= bytes@.take(i as int));
        assert(bytes@.take(i + 1).last() == b);
        assert(out@ =~= hex_of(bytes@.take(i + 1)));
        i = i + 1;
    }
    assert(bytes@.take(i as int) =~= bytes@);
    out
}

/// The session token for a user: the Keccak-256 digest of the user id's
/// text followed by `salt`.
pub fn session_token(user_id_text: &str, salt: &str) -> (r: String)
    ensures
        r@ == hex_of(keccak256_of(user_id_text@ + salt@)),
        r@.len() == 64,
{
    let mut seed = String::from_str(user_id_text);
    seed.append(salt);
    let digest = keccak_digest(seed.as_str());
    proof {
        lemma_hex_len(digest@);
    }
    to_hex(&digest)
}

/// Length of the random salt of a session token.
pub const TOKEN_SALT_LEN: usize = 10;

/// A fresh session token for `user_id_text`, salted with ten random ASCII
/// letters and digits.
pub fn new_session_token(user_id_text: &str) -> (r: String)
    ensures
        exists|salt: Seq<char>|
            salt.len() == TOKEN_SALT_LEN && (forall|i: int| 0 <= i < salt.len() ==> is_ascii_alphanumeric(
                #[trigger] salt[i],
            )) && r@ == #[trigger] hex_of(keccak256_of(user_id_text@ + salt)),
        r@.len() == 64,
{
    let mut salt = String::new();
    let mut i: usize = 0;
    while i < TOKEN_SALT_LEN
        invariant
            i <= TOKEN_SALT_LEN,
            salt@.len() == i,
            forall|j: int| 0 <= j < salt@.len() ==> is_ascii_alphanumeric(#[trigger] salt@[j]),
        decreases TOKEN_SALT_LEN - i,
    {
        let piece = random_alphanumeric();
        let ghost prev = salt@;
        salt.append(piece.as_str());
        assert(salt@ == prev + piece@);
        assert(salt@[i as int] == piece@[0]);
        i = i + 1;
    }
    session_token(user_id_text, salt.as_str())
}

} // verus!
