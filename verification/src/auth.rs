//! Signed tokens (session, captcha, shared-note access) and password hashes.
//!
//! A token is `payload:signature`, where the signature is the lower-case hex
//! HMAC-SHA256 of the payload under the server secret, and the payload ends
//! with the expiry time in Unix seconds.
use vstd::prelude::*;
use hmac::Mac;
use vstd::utf8::encode_utf8;
use crate::chars::{
    append_chars, chars_eq, chars_of, find_char, lemma_find_char, lowercase, split_char,
    split_chars, string_of, to_lowercase_chars,
};
use crate::num::{dec, dec_chars, hex_lower, lemma_hex_lower_no_colon, lemma_parse_dec, parse_i64, parse_i64_spec};

verus! {

// ---------------------------------------------------------------------------
// Outside calls
// ---------------------------------------------------------------------------

/// What HMAC-SHA256 gives for `msg` under `key`.
pub uninterp spec fn hmac_sha256(key: Seq<u8>, msg: Seq<u8>) -> Seq<u8>;

/// `Hmac<Sha256>` (crates hmac and sha2): keyed with `key`, fed `msg`,
/// finalized.  The result is the 32-byte MAC, a function of key and message;
/// any key length is accepted.
#[verifier::external_body]
fn hmac_sha256_exec(key: &[u8], msg: &[u8]) -> (res: Vec<u8>)
    ensures
        res@ == hmac_sha256(key@, msg@),
{
    let mut mac = hmac::Hmac::<sha2::Sha256>::new_from_slice(key).expect("HMAC key");
    mac.update(msg);
    mac.finalize().into_bytes().to_vec()
}

/// `hex::encode`: two lower-case hexadecimal digits per byte.
#[verifier::external_body]
fn hex_encode(bytes: &[u8]) -> (res: Vec<char>)
    ensures
        res@ == hex_lower(bytes@),
{
    hex::encode(bytes).chars().collect()
}

/// `chrono::Utc::now().timestamp()`: the current Unix time in seconds.  It
/// lies in the range of `chrono`'s dates (years -262143 to 262142).
#[verifier::external_body]
fn unix_now() -> (res: i64)
    ensures
        -8_400_000_000_000 <= res <= 8_400_000_000_000,
{
    chrono::Utc::now().timestamp()
}

/// The current Unix time in seconds (in `chrono`'s range of dates).
pub fn now_timestamp() -> (res: i64)
    ensures
        -8_400_000_000_000 <= res <= 8_400_000_000_000,
{
    unix_now()
}

/// `bcrypt::BcryptError`.
#[verifier::external_type_specification]
#[verifier::external_body]
pub struct ExBcryptError(bcrypt::BcryptError);

/// What `bcrypt::verify` gives for `password` against `hash`: whether they
/// match, or `None` when `hash` is not a valid bcrypt hash.
pub uninterp spec fn bcrypt_verdict(password: Seq<char>, hash: Seq<char>) -> Option<bool>;

/// `bcrypt::hash` at `bcrypt::DEFAULT_COST` with a random salt.  The salt is
/// random, so the hash is not a function of the password; a hash it returns
/// verifies against the password it was made from.
#[verifier::external_body]
fn bcrypt_hash(password: &str) -> (res: Result<String, bcrypt::BcryptError>)
    ensures
        res matches Ok(h) ==> bcrypt_verdict(password@, h@) == Some(true),
{
    bcrypt::hash(password, bcrypt::DEFAULT_COST)
}

/// `bcrypt::verify`: a function of the password and the hash.  A hash
/// without `$` does not split into prefix, cost and salted hash, and is
/// refused.
#[verifier::external_body]
fn bcrypt_verify(password: &str, hash: &str) -> (res: Result<bool, bcrypt::BcryptError>)
    ensures
        res matches Ok(b) ==> bcrypt_verdict(password@, hash@) == Some(b),
        res is Err ==> bcrypt_verdict(password@, hash@) is None,
        !hash@.contains('$') ==> res is Err,
{
    bcrypt::verify(password, hash)
}

// ---------------------------------------------------------------------------
// Passwords
// ---------------------------------------------------------------------------

/// A password could not be hashed, or a stored hash is not a bcrypt hash.
#[derive(Debug)]
pub struct PasswordError;

/// Hashes a password with bcrypt (default cost, random salt).  A hash it
/// returns verifies against the same password.
pub fn hash_password(password: &str) -> (res: Result<String, PasswordError>)
    ensures
        res matches Ok(h) ==> bcrypt_verdict(password@, h@) == Some(true),
{
    match bcrypt_hash(password) {
        Ok(h) => Ok(h),
        Err(_) => Err(PasswordError),
    }
}

/// Whether `password` matches the bcrypt `hash`; an error when `hash` is not
/// a valid bcrypt hash (for one, when it has no `$`).
pub fn verify_password(password: &str, hash: &str) -> (res: Result<bool, PasswordError>)
    ensures
        res matches Ok(b) ==> bcrypt_verdict(password@, hash@) == Some(b),
        res is Err <==> bcrypt_verdict(password@, hash@) is None,
        !hash@.contains('$') ==> res is Err,
{
    match bcrypt_verify(password, hash) {
        Ok(b) => Ok(b),
        Err(_) => Err(PasswordError),
    }
}

// ---------------------------------------------------------------------------
// Token format
// ---------------------------------------------------------------------------

/// Seven days, in seconds: how long session and note-access tokens last.
pub open spec fn week_secs() -> int {
    604800
}

/// Five minutes, in seconds: how long a captcha token lasts.
pub open spec fn captcha_secs() -> int {
    300
}

/// The signature of `payload` under `secret`: lower-case hex HMAC-SHA256 of
/// the UTF-8 bytes.
pub open spec fn signature(secret: Seq<char>, payload: Seq<char>) -> Seq<char> {
    hex_lower(hmac_sha256(encode_utf8(secret), encode_utf8(payload)))
}

/// `expiry` is a time `lifetime` seconds after some clock reading.
pub open spec fn issued_until(expiry: int, lifetime: int) -> bool {
    -8_400_000_000_000 + lifetime <= expiry <= 8_400_000_000_000 + lifetime
}

/// `payload:signature`.
pub open spec fn signed(secret: Seq<char>, payload: Seq<char>) -> Seq<char> {
    payload + seq![':'] + signature(secret, payload)
}

/// `a:b` for two integers.
pub open spec fn int_pair(a: int, b: int) -> Seq<char> {
    dec(a) + seq![':'] + dec(b)
}

/// The session token for `user_id`, valid until `expiry`.
pub open spec fn session_token(secret: Seq<char>, user_id: int, expiry: int) -> Seq<char> {
    signed(secret, int_pair(user_id, expiry))
}

/// The captcha token for `answer`, valid until `expiry`.
pub open spec fn captcha_token(secret: Seq<char>, answer: Seq<char>, expiry: int) -> Seq<char> {
    signed(secret, answer + seq![':'] + dec(expiry))
}

/// The access token for shared note `memo_id`, valid until `expiry`.
pub open spec fn note_token(secret: Seq<char>, memo_id: int, expiry: int) -> Seq<char> {
    signed(secret, int_pair(memo_id, expiry))
}

/// The user a session token stands for at time `now`: the token must be
/// `user:expiry:signature` with both numbers parsing, not expired, and the
/// signature that of `user:expiry` (the numbers written back).
pub open spec fn session_check(secret: Seq<char>, token: Seq<char>, now: int) -> Option<int> {
    let parts = split_char(token, ':');
    if parts.len() != 3 {
        None
    } else {
        match (parse_i64_spec(parts[0]), parse_i64_spec(parts[1])) {
            (Some(user_id), Some(expiry)) => {
                if now > expiry {
                    None
                } else if parts[2] == signature(secret, int_pair(user_id, expiry)) {
                    Some(user_id)
                } else {
                    None
                }
            },
            _ => None,
        }
    }
}

/// Whether a captcha token accepts `user_answer` at time `now`: the token
/// must be `answer:expiry:signature`, not expired, the answers equal ignoring
/// case, and the signature that of `answer:expiry`.
pub open spec fn captcha_check(
    secret: Seq<char>,
    token: Seq<char>,
    user_answer: Seq<char>,
    now: int,
) -> bool {
    let parts = split_char(token, ':');
    if parts.len() != 3 {
        false
    } else {
        match parse_i64_spec(parts[1]) {
            Some(expiry) => {
                &&& now <= expiry
                &&& lowercase(parts[0]) == lowercase(user_answer)
                &&& parts[2] == signature(secret, parts[0] + seq![':'] + dec(expiry))
            },
            None => false,
        }
    }
}

/// Whether a note-access token grants access to note `expected` at `now`.
pub open spec fn note_check(secret: Seq<char>, token: Seq<char>, expected: int, now: int) -> bool {
    let parts = split_char(token, ':');
    if parts.len() != 3 {
        false
    } else {
        match (parse_i64_spec(parts[0]), parse_i64_spec(parts[1])) {
            (Some(memo_id), Some(expiry)) => {
                &&& memo_id == expected
                &&& now <= expiry
                &&& parts[2] == signature(secret, int_pair(memo_id, expiry))
            },
            _ => false,
        }
    }
}

// ---------------------------------------------------------------------------
// Building and reading tokens
// ---------------------------------------------------------------------------

/// The signature of `payload` under `secret`.
fn sign(secret: &str, payload: &Vec<char>) -> (res: Vec<char>)
    ensures
        res@ == signature(secret@, payload@),
{
    let p = string_of(payload.as_slice());
    let mac = hmac_sha256_exec(secret.as_bytes(), p.as_str().as_bytes());
    hex_encode(mac.as_slice())
}

/// `payload:signature` as a string.
fn sign_payload(secret: &str, payload: Vec<char>) -> (res: String)
    ensures
        res@ == signed(secret@, payload@),
{
    let sig = sign(secret, &payload);
    let mut t = payload;
    t.push(':');
    append_chars(&mut t, sig.as_slice());
    string_of(t.as_slice())
}

/// `a:b` for two integers.
fn int_pair_chars(a: i64, b: i64) -> (res: Vec<char>)
    ensures
        res@ == int_pair(a as int, b as int),
{
    let mut v = dec_chars(a);
    v.push(':');
    let w = dec_chars(b);
    append_chars(&mut v, w.as_slice());
    v
}

/// The session token for `user_id` valid until `expiry`.
pub fn session_token_with_expiry(secret: &str, user_id: i64, expiry: i64) -> (res: String)
    ensures
        res@ == session_token(secret@, user_id as int, expiry as int),
{
    sign_payload(secret, int_pair_chars(user_id, expiry))
}

/// A session token for `user_id`, valid for seven days from now.
pub fn create_session_token(secret: &str, user_id: i64) -> (res: String)
    ensures
        exists|expiry: int|
            issued_until(expiry, week_secs()) && res@ == #[trigger] session_token(
                secret@,
                user_id as int,
                expiry,
            ),
{
    let now = unix_now();
    session_token_with_expiry(secret, user_id, now + 604800)
}

/// The user a session token stands for at time `now`, if it is well formed,
/// unexpired and correctly signed.
pub fn verify_session_token_at(secret: &str, token: &str, now: i64) -> (res: Option<i64>)
    ensures
        res matches Some(u) ==> session_check(secret@, token@, now as int) == Some(u as int),
        res is None ==> session_check(secret@, token@, now as int) is None,
{
    let v = chars_of(token);
    let parts = split_chars(&v, ':');
    if parts.len() != 3 {
        return None;
    }
    let user_id = match parse_i64(parts[0].as_slice()) {
        Some(x) => x,
        None => return None,
    };
    let expiry = match parse_i64(parts[1].as_slice()) {
        Some(x) => x,
        None => return None,
    };
    if now > expiry {
        return None;
    }
    let expected = sign(secret, &int_pair_chars(user_id, expiry));
    if chars_eq(parts[2].as_slice(), expected.as_slice()) {
        Some(user_id)
    } else {
        None
    }
}

/// The user a session token stands for now, if it is well formed, unexpired
/// and correctly signed.
pub fn verify_session_token(secret: &str, token: &str) -> (res: Option<i64>)
    ensures
        exists|now: int|
            -8_400_000_000_000 <= now <= 8_400_000_000_000 && (match res {
                Some(u) => session_check(secret@, token@, now) == Some(u as int),
                None => session_check(secret@, token@, now) is None,
            }),
{
    let now = unix_now();
    verify_session_token_at(secret, token, now)
}

/// The captcha token for `answer` valid until `expiry`.
pub fn captcha_token_with_expiry(secret: &str, answer: &str, expiry: i64) -> (res: String)
    ensures
        res@ == captcha_token(secret@, answer@, expiry as int),
{
    let mut p = chars_of(answer);
    p.push(':');
    let e = dec_chars(expiry);
    append_chars(&mut p, e.as_slice());
    assert(p@ =~= answer@ + seq![':'] + dec(expiry as int));
    sign_payload(secret, p)
}

/// A captcha token for `answer`, valid for five minutes from now.
pub fn create_captcha_token(secret: &str, answer: &str) -> (res: String)
    ensures
        exists|expiry: int|
            issued_until(expiry, captcha_secs()) && res@ == #[trigger] captcha_token(
                secret@,
                answer@,
                expiry,
            ),
{
    let now = unix_now();
    captcha_token_with_expiry(secret, answer, now + 300)
}

/// Whether a captcha token accepts `user_answer` at time `now`.
pub fn verify_captcha_token_at(secret: &str, token: &str, user_answer: &str, now: i64) -> (res:
    bool)
    ensures
        res == captcha_check(secret@, token@, user_answer@, now as int),
{
    let v = chars_of(token);
    let parts = split_chars(&v, ':');
    if parts.len() != 3 {
        return false;
    }
    let expiry = match parse_i64(parts[1].as_slice()) {
        Some(x) => x,
        None => return false,
    };
    if now > expiry {
        return false;
    }
    let a = to_lowercase_chars(parts[0].as_slice());
    let ua = chars_of(user_answer);
    let b = to_lowercase_chars(ua.as_slice());
    if !chars_eq(a.as_slice(), b.as_slice()) {
        return false;
    }
    let mut p = parts[0].clone();
    assert(p@ == parts@[0]@);
    p.push(':');
    let e = dec_chars(expiry);
    append_chars(&mut p, e.as_slice());
    assert(p@ =~= parts@[0]@ + seq![':'] + dec(expiry as int));
    let expected = sign(secret, &p);
    chars_eq(parts[2].as_slice(), expected.as_slice())
}

/// Whether a captcha token accepts `user_answer` now.
pub fn verify_captcha_token(secret: &str, token: &str, user_answer: &str) -> (res: bool)
    ensures
        exists|now: int|
            -8_400_000_000_000 <= now <= 8_400_000_000_000 && res == captcha_check(
                secret@,
                token@,
                user_answer@,
                now,
            ),
{
    let now = unix_now();
    verify_captcha_token_at(secret, token, user_answer, now)
}

/// The access token for note `memo_id` valid until `expiry`.
pub fn note_auth_token_with_expiry(secret: &str, memo_id: i64, expiry: i64) -> (res: String)
    ensures
        res@ == note_token(secret@, memo_id as int, expiry as int),
{
    sign_payload(secret, int_pair_chars(memo_id, expiry))
}

/// An access token for the protected note `memo_id`, valid for seven days.
pub fn create_note_auth_token(secret: &str, memo_id: i64) -> (res: String)
    ensures
        exists|expiry: int|
            issued_until(expiry, week_secs()) && res@ == #[trigger] note_token(
                secret@,
                memo_id as int,
                expiry,
            ),
{
    let now = unix_now();
    note_auth_token_with_expiry(secret, memo_id, now + 604800)
}

/// Whether a note-access token grants access to note `expected_memo_id` at
/// time `now`.
pub fn verify_note_auth_token_at(secret: &str, token: &str, expected_memo_id: i64, now: i64) -> (res:
    bool)
    ensures
        res == note_check(secret@, token@, expected_memo_id as int, now as int),
{
    let v = chars_of(token);
    let parts = split_chars(&v, ':');
    if parts.len() != 3 {
        return false;
    }
    let memo_id = match parse_i64(parts[0].as_slice()) {
        Some(x) => x,
        None => return false,
    };
    if memo_id != expected_memo_id {
        return false;
    }
    let expiry = match parse_i64(parts[1].as_slice()) {
        Some(x) => x,
        None => return false,
    };
    if now > expiry {
        return false;
    }
    let expected = sign(secret, &int_pair_chars(memo_id, expiry));
    chars_eq(parts[2].as_slice(), expected.as_slice())
}

/// Whether a note-access token grants access to note `expected_memo_id` now.
pub fn verify_note_auth_token(secret: &str, token: &str, expected_memo_id: i64) -> (res: bool)
    ensures
        exists|now: int|
            -8_400_000_000_000 <= now <= 8_400_000_000_000 && res == note_check(
                secret@,
                token@,
                expected_memo_id as int,
                now,
            ),
{
    let now = unix_now();
    verify_note_auth_token_at(secret, token, expected_memo_id, now)
}

// ---------------------------------------------------------------------------
// Laws
// ---------------------------------------------------------------------------

proof fn lemma_split_head(a: Seq<char>, rest: Seq<char>)
    requires
        !a.contains(':'),
    ensures
        split_char(a + seq![':'] + rest, ':') == seq![a] + split_char(rest, ':'),
{
    let s = a + seq![':'] + rest;
    lemma_find_char(s, ':');
    assert(s[a.len() as int] == ':');
    assert forall|j: int| 0 <= j < a.len() implies s[j] != ':' by {
        assert(s[j] == a[j]);
        if a[j] == ':' {
            assert(a.contains(':'));
        }
    }
    if find_char(s, ':') is None {
    } else {
        let i = find_char(s, ':').unwrap();
        assert(i == a.len());
    }
    assert(s.take(a.len() as int) =~= a);
    assert(s.skip(a.len() as int + 1) =~= rest);
}

proof fn lemma_split_last(a: Seq<char>)
    requires
        !a.contains(':'),
    ensures
        split_char(a, ':') == seq![a],
{
    lemma_find_char(a, ':');
    if find_char(a, ':') is Some {
        let i = find_char(a, ':').unwrap();
        assert(a[i] == ':');
    }
}

proof fn lemma_split_three(a: Seq<char>, b: Seq<char>, c: Seq<char>)
    requires
        !a.contains(':'),
        !b.contains(':'),
        !c.contains(':'),
    ensures
        split_char(a + seq![':'] + b + seq![':'] + c, ':') =~= seq![a, b, c],
{
    lemma_split_last(c);
    lemma_split_head(b, c);
    assert(a + seq![':'] + b + seq![':'] + c =~= a + seq![':'] + (b + seq![':'] + c));
    lemma_split_head(a, b + seq![':'] + c);
}

/// A session token made with expiry `expiry` reads back as its user at any
/// time up to `expiry`, and as nothing after it.
pub proof fn lemma_session_token_roundtrip(secret: Seq<char>, user_id: i64, expiry: i64, now: int)
    ensures
        session_check(secret, session_token(secret, user_id as int, expiry as int), now) == (if now
            > expiry {
            None
        } else {
            Some(user_id as int)
        }),
{
    lemma_parse_dec(user_id);
    lemma_parse_dec(expiry);
    let p = int_pair(user_id as int, expiry as int);
    lemma_hex_lower_no_colon(hmac_sha256(encode_utf8(secret), encode_utf8(p)));
    lemma_split_three(dec(user_id as int), dec(expiry as int), signature(secret, p));
}

/// A captcha token made for `answer` accepts exactly the answers equal to it
/// ignoring case, up to its expiry, when `answer` holds no `:`.
pub proof fn lemma_captcha_token_roundtrip(
    secret: Seq<char>,
    answer: Seq<char>,
    expiry: i64,
    user_answer: Seq<char>,
    now: int,
)
    requires
        !answer.contains(':'),
    ensures
        captcha_check(secret, captcha_token(secret, answer, expiry as int), user_answer, now) == (
        now <= expiry && lowercase(answer) == lowercase(user_answer)),
{
    lemma_parse_dec(expiry);
    let p = answer + seq![':'] + dec(expiry as int);
    lemma_hex_lower_no_colon(hmac_sha256(encode_utf8(secret), encode_utf8(p)));
    lemma_split_three(answer, dec(expiry as int), signature(secret, p));
}

/// A note-access token made for note `memo_id` grants access to exactly that
/// note, up to its expiry.
pub proof fn lemma_note_token_roundtrip(
    secret: Seq<char>,
    memo_id: i64,
    expiry: i64,
    expected: int,
    now: int,
)
    ensures
        note_check(secret, note_token(secret, memo_id as int, expiry as int), expected, now) == (
        memo_id == expected && now <= expiry),
{
    lemma_parse_dec(memo_id);
    lemma_parse_dec(expiry);
    let p = int_pair(memo_id as int, expiry as int);
    lemma_hex_lower_no_colon(hmac_sha256(encode_utf8(secret), encode_utf8(p)));
    lemma_split_three(dec(memo_id as int), dec(expiry as int), signature(secret, p));
}

} // verus!
