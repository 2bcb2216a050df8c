use hmac::Mac;
use minimamemosa::auth::{
    create_captcha_token, create_note_auth_token, create_session_token, hash_password,
    verify_captcha_token, verify_note_auth_token, verify_password, verify_session_token,
};

const SECRET: &str = "test-secret-key-for-testing-only";

fn now() -> i64 {
    chrono::Utc::now().timestamp()
}

#[test]
fn test_create_and_verify_session_token() {
    let token = create_session_token(SECRET, 42);
    let user_id = verify_session_token(SECRET, &token);
    assert_eq!(user_id, Some(42));
}

#[test]
fn test_verify_session_token_invalid_format() {
    assert_eq!(verify_session_token(SECRET, "invalid"), None);
    assert_eq!(verify_session_token(SECRET, "a:b"), None);
    assert_eq!(verify_session_token(SECRET, "a:b:c:d"), None);
}

#[test]
fn test_verify_session_token_non_numeric_user_id() {
    let token = format!("abc:{}:somesig", now() + 3600);
    assert_eq!(verify_session_token(SECRET, &token), None);
}

#[test]
fn test_verify_session_token_expired() {
    let past = now() - 1;
    let payload = format!("1:{}", past);
    let mut mac = hmac::Hmac::<sha2::Sha256>::new_from_slice(SECRET.as_bytes()).unwrap();
    mac.update(payload.as_bytes());
    let sig = hex::encode(mac.finalize().into_bytes());
    let token = format!("{}:{}", payload, sig);
    assert_eq!(verify_session_token(SECRET, &token), None);
}

#[test]
fn test_verify_session_token_tampered() {
    let token = create_session_token(SECRET, 42);
    let tampered = token.replace("42", "99");
    assert_eq!(verify_session_token(SECRET, &tampered), None);
}

#[test]
fn test_session_token_user_id_zero() {
    let token = create_session_token(SECRET, 0);
    let user_id = verify_session_token(SECRET, &token);
    assert_eq!(user_id, Some(0));
}

#[test]
fn test_session_token_user_id_negative() {
    let token = create_session_token(SECRET, -1);
    let user_id = verify_session_token(SECRET, &token);
    assert_eq!(user_id, Some(-1));
}

#[test]
fn test_hash_and_verify_password() {
    let hash = hash_password("my_password123").unwrap();
    assert!(verify_password("my_password123", &hash).unwrap());
}

#[test]
fn test_verify_wrong_password() {
    let hash = hash_password("correct_password").unwrap();
    assert!(!verify_password("wrong_password", &hash).unwrap());
}

#[test]
fn test_verify_password_empty() {
    let hash = hash_password("pwd").unwrap();
    assert!(!verify_password("", &hash).unwrap());
}

#[test]
fn test_verify_password_against_invalid_hash() {
    let result = verify_password("pwd", "not-a-valid-bcrypt-hash");
    assert!(result.is_err());
}

#[test]
fn test_hash_and_verify_unicode() {
    let hash = hash_password("pässwörd🦀").unwrap();
    assert!(verify_password("pässwörd🦀", &hash).unwrap());
}

#[test]
fn test_create_and_verify_captcha_token() {
    let token = create_captcha_token(SECRET, "AbCdE");
    assert!(verify_captcha_token(SECRET, &token, "AbCdE"));
}

#[test]
fn test_captcha_case_insensitive() {
    let token = create_captcha_token(SECRET, "AbCdE");
    assert!(verify_captcha_token(SECRET, &token, "abcde"));
    assert!(verify_captcha_token(SECRET, &token, "ABCDE"));
}

#[test]
fn test_captcha_wrong_answer() {
    let token = create_captcha_token(SECRET, "AbCdE");
    assert!(!verify_captcha_token(SECRET, &token, "Wrong"));
}

#[test]
fn test_captcha_empty_answer() {
    let token = create_captcha_token(SECRET, "AbCdE");
    assert!(!verify_captcha_token(SECRET, &token, ""));
}

#[test]
fn test_captcha_invalid_token_format() {
    assert!(!verify_captcha_token(SECRET, "invalid", "a"));
    assert!(!verify_captcha_token(SECRET, "a:b", "a"));
    assert!(!verify_captcha_token(SECRET, "a:b:c:d", "a"));
}

#[test]
fn test_captcha_non_numeric_expiry() {
    let token = format!("answer:notanumber:sig");
    assert!(!verify_captcha_token(SECRET, &token, "answer"));
}

#[test]
fn test_captcha_tampered() {
    let token = create_captcha_token(SECRET, "AbCdE");
    let tampered = token.replace("AbCdE", "XxXxX");
    assert!(!verify_captcha_token(SECRET, &tampered, "XxXxX"));
}

#[test]
fn test_captcha_different_secret_fails() {
    let token = create_captcha_token("first-secret", "abc");
    assert!(!verify_captcha_token("second-secret", &token, "abc"));
}

#[test]
fn test_create_and_verify_note_auth_token() {
    let token = create_note_auth_token(SECRET, 123);
    assert!(verify_note_auth_token(SECRET, &token, 123));
}

#[test]
fn test_note_auth_wrong_memo_id() {
    let token = create_note_auth_token(SECRET, 123);
    assert!(!verify_note_auth_token(SECRET, &token, 456));
}

#[test]
fn test_note_auth_invalid_format() {
    assert!(!verify_note_auth_token(SECRET, "invalid", 1));
    assert!(!verify_note_auth_token(SECRET, "a:b", 1));
}

#[test]
fn test_note_auth_non_numeric() {
    let token = format!("abc:{}:sig", now() + 3600);
    assert!(!verify_note_auth_token(SECRET, &token, 1));
}

#[test]
fn test_note_auth_tampered() {
    let token = create_note_auth_token(SECRET, 123);
    let tampered = token.replace("123", "999");
    assert!(!verify_note_auth_token(SECRET, &tampered, 123));
    assert!(!verify_note_auth_token(SECRET, &tampered, 999));
}
