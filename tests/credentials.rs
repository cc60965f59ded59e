use argon2::password_hash::rand_core::OsRng;
use argon2::password_hash::{PasswordHasher, SaltString};
use argon2::Argon2;
use sha3::Digest;

use emale::auth::{
    new_session_token, session_token, validate_credentials, verification_outcome, verify_password_hash,
};
use emale::errors::{registration_error, AppErrorType, AuthError};

fn hash_of(password: &str) -> String {
    let salt = SaltString::generate(&mut OsRng);
    Argon2::default().hash_password(password.as_bytes(), &salt).unwrap().to_string()
}

#[test]
fn a_matching_password_is_accepted() {
    let hash = hash_of("correct horse");
    assert!(verify_password_hash(&hash, "correct horse").is_ok());
    assert!(matches!(verify_password_hash(&hash, "wrong"), Err(AuthError::InvalidCredential(_))));
    assert!(matches!(verify_password_hash("not a hash", "x"), Err(AuthError::UnexpectedError(_))));
}

#[test]
fn verification_outcomes_by_case() {
    assert!(verification_outcome(true, true).is_ok());
    assert!(matches!(verification_outcome(true, false), Err(AuthError::InvalidCredential(_))));
    assert!(matches!(verification_outcome(false, true), Err(AuthError::UnexpectedError(_))));
}

#[test]
fn only_known_users_with_the_right_password_log_in() {
    let hash = hash_of("secret-pw");
    assert_eq!(validate_credentials(Some((42, hash.clone())), "secret-pw").unwrap(), 42);
    assert!(matches!(validate_credentials(Some((42, hash)), "other"), Err(AuthError::InvalidCredential(_))));
    assert!(matches!(validate_credentials(None, "secret-pw"), Err(AuthError::InvalidCredential(_))));
    assert!(matches!(validate_credentials(Some((1, "garbage".to_string())), "x"), Err(AuthError::UnexpectedError(_))));
}

#[test]
fn session_tokens_are_keccak_digests() {
    assert_eq!(session_token("", ""), "c5d2460186f7233c927e7db2dcc703c0e500b653ca82273b7bfad8045d85a470");
    let expected = format!("{:x}", sha3::Keccak256::digest(b"7abcdefghij"));
    assert_eq!(session_token("7", "abcdefghij"), expected);
    assert_eq!(session_token("7", "abcdefghij").len(), 64);
    let a = new_session_token("7");
    let b = new_session_token("7");
    assert_eq!(a.len(), 64);
    assert_ne!(a, b);
}

#[test]
fn login_and_registration_errors() {
    let e = AuthError::InvalidCredential("x".to_string()).login_error();
    assert_eq!(e.error_type, AppErrorType::UnauthorizedErorr);
    assert_eq!(e.message(), "User not found");
    let e = AuthError::UnexpectedError("x".to_string()).login_error();
    assert_eq!(e.status_code(), 500);
    let e = registration_error(true, "dup".to_string());
    assert_eq!(e.message(), "email is already registered");
    assert_eq!(e.status_code(), 500);
    let e = registration_error(false, "pool timed out".to_string());
    assert_eq!(e.message(), "pool timed out");
}

#[test]
fn bytes_are_written_in_lower_case_hex() {
    assert_eq!(emale::auth::to_hex(&vec![0x00, 0x0f, 0xa5, 0xff]), "000fa5ff");
    assert_eq!(emale::auth::to_hex(&vec![]), "");
}
