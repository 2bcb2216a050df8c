//! Reading a request: the client's address, the cookies the server sets and
//! reads back, and who may see a shared note or an uploaded file.
use vstd::prelude::*;
use vstd::utf8::encode_utf8;
use crate::auth::{
    captcha_check, captcha_secs, captcha_token, create_captcha_token, create_note_auth_token,
    create_session_token, hmac_sha256, int_pair, issued_until, lemma_captcha_token_roundtrip,
    lemma_note_token_roundtrip, lemma_session_token_roundtrip, note_check, note_token,
    now_timestamp, session_check, session_token, signature, signed, verify_captcha_token_at,
    verify_note_auth_token_at, verify_session_token_at, week_secs,
};
use crate::calendar::opt_text;
use crate::chars::{
    append_chars, chars_eq, chars_of, find_char, find_char_from, is_ws, lemma_find_char,
    lemma_split_none, lemma_trim_plain, lowercase, split_char, split_chars, string_of, sub_chars,
    trim, trim_chars,
};
use crate::content::{starts_with, starts_with_chars};
use crate::num::{dec, dec_chars, is_hex_char, lemma_dec_chars, lemma_hex_lower_chars};

verus! {

// ---------------------------------------------------------------------------
// Client address
// ---------------------------------------------------------------------------

/// The address a request comes from: the first entry of `X-Forwarded-For`,
/// else `X-Real-IP`, each trimmed and taken only when it is not empty, else
/// the address of the socket.
pub open spec fn client_ip(
    forwarded_for: Option<Seq<char>>,
    real_ip: Option<Seq<char>>,
    socket_ip: Seq<char>,
) -> Seq<char> {
    let f = match forwarded_for {
        Some(x) => trim(split_char(x, ',')[0]),
        None => Seq::empty(),
    };
    let r = match real_ip {
        Some(x) => trim(x),
        None => Seq::empty(),
    };
    if f.len() > 0 {
        f
    } else if r.len() > 0 {
        r
    } else {
        socket_ip
    }
}

/// The text of `v` before its first `c` (all of it when there is none): the
/// first piece of `str::split`.
fn first_piece(v: &Vec<char>, c: char) -> (res: Vec<char>)
    ensures
        res@ == split_char(v@, c)[0],
{
    assert(v@.skip(0) =~= v@);
    match find_char_from(v, 0, c) {
        Some(i) => sub_chars(v, 0, i),
        None => v.clone(),
    }
}

/// The client's address from the `X-Forwarded-For` and `X-Real-IP` headers
/// (when present and readable) and the socket's address.
pub fn get_client_ip(forwarded_for: Option<&str>, real_ip: Option<&str>, socket_ip: &str) -> (res:
    String)
    ensures
        res@ == client_ip(opt_text(forwarded_for), opt_text(real_ip), socket_ip@),
{
    if let Some(x) = forwarded_for {
        let v = chars_of(x);
        let first = first_piece(&v, ',');
        let t = trim_chars(&first);
        if t.len() > 0 {
            return string_of(t.as_slice());
        }
    }
    if let Some(r) = real_ip {
        let v = chars_of(r);
        let t = trim_chars(&v);
        if t.len() > 0 {
            return string_of(t.as_slice());
        }
    }
    let s = chars_of(socket_ip);
    string_of(s.as_slice())
}

// ---------------------------------------------------------------------------
// Cookies
// ---------------------------------------------------------------------------

/// The value of the first cookie named `name` among the `;`-parts of a
/// `Cookie` header, from part `k` on: each part is trimmed and split at its
/// first `=`, and the name and the value are trimmed.  Parts without `=` are
/// passed over.
pub open spec fn cookie_named(parts: Seq<Seq<char>>, name: Seq<char>, k: int) -> Option<Seq<char>>
    decreases parts.len() - k,
{
    if 0 <= k < parts.len() {
        let t = trim(parts[k]);
        match find_char(t, '=') {
            Some(e) => {
                if trim(t.take(e)) == name {
                    Some(trim(t.skip(e + 1)))
                } else {
                    cookie_named(parts, name, k + 1)
                }
            },
            None => cookie_named(parts, name, k + 1),
        }
    } else {
        None
    }
}

/// The rest of the first trimmed `;`-part of a `Cookie` header, from part
/// `k` on, that begins with `prefix`.
pub open spec fn cookie_with_prefix(parts: Seq<Seq<char>>, prefix: Seq<char>, k: int) -> Option<
    Seq<char>,
>
    decreases parts.len() - k,
{
    if 0 <= k < parts.len() {
        let t = trim(parts[k]);
        if starts_with(t, prefix) {
            Some(t.skip(prefix.len() as int))
        } else {
            cookie_with_prefix(parts, prefix, k + 1)
        }
    } else {
        None
    }
}

/// The value of the first cookie named `name` in a `Cookie` header.
fn cookie_value_chars(header: &str, name: &[char]) -> (res: Option<Vec<char>>)
    ensures
        match res {
            Some(v) => cookie_named(split_char(header@, ';'), name@, 0) == Some(v@),
            None => cookie_named(split_char(header@, ';'), name@, 0) is None,
        },
{
    let h = chars_of(header);
    let parts = split_chars(&h, ';');
    let ghost ps = split_char(h@, ';');
    let mut k: usize = 0;
    while k < parts.len()
        invariant
            h@ == header@,
            ps == split_char(h@, ';'),
            parts@.len() == ps.len(),
            forall|j: int| 0 <= j < parts@.len() ==> #[trigger] parts@[j]@ == ps[j],
            k <= parts@.len(),
            cookie_named(ps, name@, 0) == cookie_named(ps, name@, k as int),
        decreases parts.len() - k,
    {
        assert(parts@[k as int]@ == ps[k as int]);
        let t = trim_chars(&parts[k]);
        assert(t@.skip(0) =~= t@);
        if let Some(e) = find_char_from(&t, 0, '=') {
            let nm = sub_chars(&t, 0, e);
            let nm = trim_chars(&nm);
            assert(t@.subrange(0, e as int) =~= t@.take(e as int));
            if chars_eq(nm.as_slice(), name) {
                let val = sub_chars(&t, e + 1, t.len());
                assert(t@.subrange(e + 1, t@.len() as int) =~= t@.skip(e + 1));
                let val = trim_chars(&val);
                return Some(val);
            }
        }
        k = k + 1;
    }
    None
}

/// The rest of the first trimmed `;`-part of a `Cookie` header that begins
/// with `prefix`.
fn cookie_prefixed_chars(header: &str, prefix: &[char]) -> (res: Option<Vec<char>>)
    ensures
        match res {
            Some(v) => cookie_with_prefix(split_char(header@, ';'), prefix@, 0) == Some(v@),
            None => cookie_with_prefix(split_char(header@, ';'), prefix@, 0) is None,
        },
{
    let h = chars_of(header);
    let parts = split_chars(&h, ';');
    let ghost ps = split_char(h@, ';');
    let mut k: usize = 0;
    while k < parts.len()
        invariant
            h@ == header@,
            ps == split_char(h@, ';'),
            parts@.len() == ps.len(),
            forall|j: int| 0 <= j < parts@.len() ==> #[trigger] parts@[j]@ == ps[j],
            k <= parts@.len(),
            cookie_with_prefix(ps, prefix@, 0) == cookie_with_prefix(ps, prefix@, k as int),
        decreases parts.len() - k,
    {
        assert(parts@[k as int]@ == ps[k as int]);
        let t = trim_chars(&parts[k]);
        if starts_with_chars(t.as_slice(), prefix) {
            let val = sub_chars(&t, prefix.len(), t.len());
            assert(t@.subrange(prefix@.len() as int, t@.len() as int) =~= t@.skip(
                prefix@.len() as int,
            ));
            return Some(val);
        }
        k = k + 1;
    }
    None
}

/// The value of the first cookie named `name` in a `Cookie` header: the
/// header is split at `;`, each part trimmed and split at its first `=`, and
/// the name and the value trimmed.
pub fn cookie_value(header: &str, name: &str) -> (res: Option<String>)
    ensures
        match res {
            Some(v) => cookie_named(split_char(header@, ';'), name@, 0) == Some(v@),
            None => cookie_named(split_char(header@, ';'), name@, 0) is None,
        },
{
    let n = chars_of(name);
    match cookie_value_chars(header, n.as_slice()) {
        Some(v) => Some(string_of(v.as_slice())),
        None => None,
    }
}


/// The name of the session cookie, `session`.
pub open spec fn session_name() -> Seq<char> {
    seq!['s', 'e', 's', 's', 'i', 'o', 'n']
}

/// What a captcha cookie begins with, `captcha=`.
pub open spec fn captcha_prefix() -> Seq<char> {
    seq!['c', 'a', 'p', 't', 'c', 'h', 'a', '=']
}

/// What the access cookie of shared note `memo_id` begins with:
/// `note_auth_<id>=`.
pub open spec fn note_cookie_prefix(memo_id: int) -> Seq<char> {
    seq!['n', 'o', 't', 'e', '_', 'a', 'u', 't', 'h', '_'] + dec(memo_id) + seq!['=']
}

/// The user whose valid session cookie a request carries at time `now`.
pub open spec fn session_user(secret: Seq<char>, cookie: Option<Seq<char>>, now: int) -> Option<
    int,
> {
    match cookie {
        None => None,
        Some(c) => match cookie_named(split_char(c, ';'), session_name(), 0) {
            None => None,
            Some(t) => session_check(secret, t, now),
        },
    }
}

/// Whether the captcha cookie of a request accepts `answer` at time `now`.
pub open spec fn captcha_accepted(
    secret: Seq<char>,
    cookie: Option<Seq<char>>,
    answer: Seq<char>,
    now: int,
) -> bool {
    match cookie {
        None => false,
        Some(c) => match cookie_with_prefix(split_char(c, ';'), captcha_prefix(), 0) {
            None => false,
            Some(t) => captcha_check(secret, t, answer, now),
        },
    }
}

/// Whether a request carries, at time `now`, a valid access cookie for the
/// shared note `memo_id`.
pub open spec fn note_access(secret: Seq<char>, cookie: Option<Seq<char>>, memo_id: int, now: int) -> bool {
    match cookie {
        None => false,
        Some(c) => match cookie_with_prefix(split_char(c, ';'), note_cookie_prefix(memo_id), 0) {
            None => false,
            Some(t) => note_check(secret, t, memo_id, now),
        },
    }
}

/// The user of the session cookie in `cookie` (the `Cookie` header, when
/// the request has a readable one), checked at time `now`.
pub fn session_user_at(secret: &str, cookie: Option<&str>, now: i64) -> (res: Option<i64>)
    ensures
        match res {
            Some(u) => session_user(secret@, opt_text(cookie), now as int) == Some(u as int),
            None => session_user(secret@, opt_text(cookie), now as int) is None,
        },
{
    let c = match cookie {
        Some(c) => c,
        None => return None,
    };
    let name: [char; 7] = ['s', 'e', 's', 's', 'i', 'o', 'n'];
    assert(name@ == session_name());
    match cookie_value_chars(c, &name) {
        Some(t) => {
            let t = string_of(t.as_slice());
            verify_session_token_at(secret, t.as_str(), now)
        },
        None => None,
    }
}

/// The user of the session cookie a request carries, checked now.
pub fn get_session_user_id(secret: &str, cookie: Option<&str>) -> (res: Option<i64>)
    ensures
        exists|now: int|
            -8_400_000_000_000 <= now <= 8_400_000_000_000 && #[trigger] session_user(
                secret@,
                opt_text(cookie),
                now,
            ) == (match res {
                Some(u) => Some(u as int),
                None => None,
            }),
{
    let now = now_timestamp();
    let res = session_user_at(secret, cookie, now);
    assert(session_user(secret@, opt_text(cookie), now as int) == (match res {
        Some(u) => Some(u as int),
        None => None::<int>,
    }));
    res
}

/// Whether the captcha cookie of a request accepts `answer` at time `now`.
pub fn captcha_accepted_at(secret: &str, cookie: Option<&str>, answer: &str, now: i64) -> (res: bool)
    ensures
        res == captcha_accepted(secret@, opt_text(cookie), answer@, now as int),
{
    let c = match cookie {
        Some(c) => c,
        None => return false,
    };
    let prefix: [char; 8] = ['c', 'a', 'p', 't', 'c', 'h', 'a', '='];
    assert(prefix@ == captcha_prefix());
    match cookie_prefixed_chars(c, &prefix) {
        Some(t) => {
            let t = string_of(t.as_slice());
            verify_captcha_token_at(secret, t.as_str(), answer, now)
        },
        None => false,
    }
}

/// Whether the captcha cookie of a request accepts `answer` now.
pub fn captcha_answer_accepted(secret: &str, cookie: Option<&str>, answer: &str) -> (res: bool)
    ensures
        exists|now: int|
            -8_400_000_000_000 <= now <= 8_400_000_000_000 && res == #[trigger] captcha_accepted(
                secret@,
                opt_text(cookie),
                answer@,
                now,
            ),
{
    let now = now_timestamp();
    captcha_accepted_at(secret, cookie, answer, now)
}

/// `note_auth_<id>=` as characters.
fn note_cookie_prefix_chars(memo_id: i64) -> (res: Vec<char>)
    ensures
        res@ == note_cookie_prefix(memo_id as int),
{
    let mut p: Vec<char> = vec!['n', 'o', 't', 'e', '_', 'a', 'u', 't', 'h', '_'];
    let d = dec_chars(memo_id);
    append_chars(&mut p, d.as_slice());
    p.push('=');
    p
}

/// Whether a request carries, at time `now`, a valid access cookie for the
/// shared note `memo_id`.
pub fn note_access_at(secret: &str, cookie: Option<&str>, memo_id: i64, now: i64) -> (res: bool)
    ensures
        res == note_access(secret@, opt_text(cookie), memo_id as int, now as int),
{
    let c = match cookie {
        Some(c) => c,
        None => return false,
    };
    let prefix = note_cookie_prefix_chars(memo_id);
    match cookie_prefixed_chars(c, prefix.as_slice()) {
        Some(t) => {
            let t = string_of(t.as_slice());
            verify_note_auth_token_at(secret, t.as_str(), memo_id, now)
        },
        None => false,
    }
}

// ---------------------------------------------------------------------------
// Setting cookies
// ---------------------------------------------------------------------------

/// The attributes every cookie is set with, before its lifetime.
pub open spec fn cookie_attributes() -> Seq<char> {
    "; HttpOnly; Path=/; SameSite=Lax; Max-Age="@
}

/// `name=value`, as a browser sends a cookie back.
pub open spec fn cookie_pair(name: Seq<char>, value: Seq<char>) -> Seq<char> {
    name + seq!['='] + value
}

/// A `Set-Cookie` value: `name=value` with the common attributes and a
/// lifetime of `max_age` seconds.
pub open spec fn set_cookie(name: Seq<char>, value: Seq<char>, max_age: int) -> Seq<char> {
    cookie_pair(name, value) + cookie_attributes() + dec(max_age)
}

/// The name of the captcha cookie, `captcha`.
pub open spec fn captcha_name() -> Seq<char> {
    seq!['c', 'a', 'p', 't', 'c', 'h', 'a']
}

/// The name of the access cookie of shared note `memo_id`, `note_auth_<id>`.
pub open spec fn note_cookie_name(memo_id: int) -> Seq<char> {
    seq!['n', 'o', 't', 'e', '_', 'a', 'u', 't', 'h', '_'] + dec(memo_id)
}

/// The `Set-Cookie` value for a cookie `name=value` living `max_age` seconds.
pub fn set_cookie_header(name: &[char], value: &str, max_age: i64) -> (res: String)
    ensures
        res@ == set_cookie(name@, value@, max_age as int),
{
    let mut t: Vec<char> = Vec::new();
    append_chars(&mut t, name);
    t.push('=');
    let v = chars_of(value);
    append_chars(&mut t, v.as_slice());
    let a = chars_of("; HttpOnly; Path=/; SameSite=Lax; Max-Age=");
    append_chars(&mut t, a.as_slice());
    let d = dec_chars(max_age);
    append_chars(&mut t, d.as_slice());
    assert(t@ =~= set_cookie(name@, value@, max_age as int));
    string_of(t.as_slice())
}

/// A fresh session cookie for `user_id`, valid for seven days.
pub fn session_cookie(secret: &str, user_id: i64) -> (res: String)
    ensures
        exists|expiry: int|
            issued_until(expiry, week_secs()) && res@ == #[trigger] set_cookie(
                session_name(),
                session_token(secret@, user_id as int, expiry),
                604800,
            ),
{
    let token = create_session_token(secret, user_id);
    let name: [char; 7] = ['s', 'e', 's', 's', 'i', 'o', 'n'];
    assert(name@ == session_name());
    set_cookie_header(&name, token.as_str(), 604800)
}

/// The cookie that ends a session: an empty session cookie that expires at
/// once.
pub fn logout_cookie() -> (res: String)
    ensures
        res@ == set_cookie(session_name(), Seq::empty(), 0),
{
    let name: [char; 7] = ['s', 'e', 's', 's', 'i', 'o', 'n'];
    assert(name@ == session_name());
    let empty = chars_of("");
    let e = string_of(empty.as_slice());
    proof {
        reveal_strlit("");
    }
    set_cookie_header(&name, e.as_str(), 0)
}

/// A fresh captcha cookie for `answer`, valid for five minutes.
pub fn captcha_cookie(secret: &str, answer: &str) -> (res: String)
    ensures
        exists|expiry: int|
            issued_until(expiry, captcha_secs()) && res@ == #[trigger] set_cookie(
                captcha_name(),
                captcha_token(secret@, answer@, expiry),
                300,
            ),
{
    let token = create_captcha_token(secret, answer);
    let name: [char; 7] = ['c', 'a', 'p', 't', 'c', 'h', 'a'];
    assert(name@ == captcha_name());
    set_cookie_header(&name, token.as_str(), 300)
}

/// The cookie that removes the captcha cookie once it has been used.
pub fn clear_captcha_cookie() -> (res: String)
    ensures
        res@ == set_cookie(captcha_name(), Seq::empty(), 0),
{
    let name: [char; 7] = ['c', 'a', 'p', 't', 'c', 'h', 'a'];
    assert(name@ == captcha_name());
    let empty = chars_of("");
    let e = string_of(empty.as_slice());
    proof {
        reveal_strlit("");
    }
    set_cookie_header(&name, e.as_str(), 0)
}

/// A fresh access cookie for shared note `memo_id`, valid for seven days.
pub fn note_access_cookie(secret: &str, memo_id: i64) -> (res: String)
    ensures
        exists|expiry: int|
            issued_until(expiry, week_secs()) && res@ == #[trigger] set_cookie(
                note_cookie_name(memo_id as int),
                note_token(secret@, memo_id as int, expiry),
                604800,
            ),
{
    let token = create_note_auth_token(secret, memo_id);
    let mut name: Vec<char> = vec!['n', 'o', 't', 'e', '_', 'a', 'u', 't', 'h', '_'];
    let d = dec_chars(memo_id);
    append_chars(&mut name, d.as_slice());
    assert(name@ =~= note_cookie_name(memo_id as int));
    set_cookie_header(name.as_slice(), token.as_str(), 604800)
}

// ---------------------------------------------------------------------------
// Cookies sent back
// ---------------------------------------------------------------------------

/// A character of a token: a decimal or hexadecimal digit, `-` or `:`.
pub open spec fn token_char(c: char) -> bool {
    is_hex_char(c) || c == '-' || c == ':'
}

proof fn lemma_token_char_plain(c: char)
    requires
        token_char(c),
    ensures
        !is_ws(c),
        c != ';',
        c != '=',
{
}

proof fn lemma_int_pair_chars(a: int, b: int)
    ensures
        forall|i: int| 0 <= i < int_pair(a, b).len() ==> token_char(#[trigger] int_pair(a, b)[i]),
        int_pair(a, b).len() > 0,
{
    lemma_dec_chars(a);
    lemma_dec_chars(b);
    let p = int_pair(a, b);
    let da = dec(a);
    let db = dec(b);
    assert forall|i: int| 0 <= i < p.len() implies token_char(#[trigger] p[i]) by {
        if i < da.len() {
            assert(p[i] == da[i]);
        } else if i == da.len() {
            assert(p[i] == ':');
        } else {
            assert(p[i] == db[i - da.len() - 1]);
        }
    }
}

/// What follows the payload in a signed token is `:` and hexadecimal digits.
proof fn lemma_signed_tail(secret: Seq<char>, payload: Seq<char>)
    ensures
        signed(secret, payload).len() > payload.len(),
        forall|i: int|
            payload.len() <= i < signed(secret, payload).len() ==> token_char(
                #[trigger] signed(secret, payload)[i],
            ),
        forall|i: int| 0 <= i < payload.len() ==> #[trigger] signed(secret, payload)[i] == payload[i],
{
    let sig = signature(secret, payload);
    lemma_hex_lower_chars(hmac_sha256(encode_utf8(secret), encode_utf8(payload)));
    let t = signed(secret, payload);
    assert forall|i: int| payload.len() <= i < t.len() implies token_char(#[trigger] t[i]) by {
        if i == payload.len() {
            assert(t[i] == ':');
        } else {
            assert(t[i] == sig[i - payload.len() - 1]);
        }
    }
}

/// A token of integers holds token characters only, and is not empty.
proof fn lemma_int_token_chars(secret: Seq<char>, a: int, b: int)
    ensures
        forall|i: int|
            0 <= i < signed(secret, int_pair(a, b)).len() ==> token_char(
                #[trigger] signed(secret, int_pair(a, b))[i],
            ),
        signed(secret, int_pair(a, b)).len() > 0,
{
    lemma_int_pair_chars(a, b);
    lemma_signed_tail(secret, int_pair(a, b));
    let t = signed(secret, int_pair(a, b));
    assert forall|i: int| 0 <= i < t.len() implies token_char(#[trigger] t[i]) by {
        if i < int_pair(a, b).len() {
            assert(t[i] == int_pair(a, b)[i]);
        }
    }
}

/// A request whose `Cookie` header sends back the session cookie set for
/// `user_id` is that user's until the cookie expires, and no one's after.
pub proof fn lemma_session_cookie_roundtrip(secret: Seq<char>, user_id: i64, expiry: i64, now: int)
    ensures
        session_user(
            secret,
            Some(cookie_pair(session_name(), session_token(secret, user_id as int, expiry as int))),
            now,
        ) == (if now > expiry {
            None
        } else {
            Some(user_id as int)
        }),
{
    let tok = session_token(secret, user_id as int, expiry as int);
    lemma_int_token_chars(secret, user_id as int, expiry as int);
    let c = cookie_pair(session_name(), tok);
    assert forall|i: int| 0 <= i < c.len() implies c[i] != ';' && (i != 7 ==> c[i] != '=') by {
        if i > 7 {
            assert(c[i] == tok[i - 8]);
            lemma_token_char_plain(tok[i - 8]);
        }
    }
    lemma_split_none(c, ';');
    assert(split_char(c, ';') =~= seq![c]);
    lemma_token_char_plain(tok[0]);
    lemma_token_char_plain(tok.last());
    assert(c.last() == tok.last());
    lemma_trim_plain(c);
    lemma_find_char(c, '=');
    assert(c[7] == '=');
    assert(find_char(c, '=') == Some(7int));
    assert(c.take(7) =~= session_name());
    lemma_trim_plain(session_name());
    assert(c.skip(8) =~= tok);
    lemma_trim_plain(tok);
    lemma_session_token_roundtrip(secret, user_id, expiry, now);
}

/// A request that sends back the access cookie set for shared note
/// `memo_id` may read it until the cookie expires.
pub proof fn lemma_note_cookie_roundtrip(secret: Seq<char>, memo_id: i64, expiry: i64, now: int)
    ensures
        note_access(
            secret,
            Some(cookie_pair(note_cookie_name(memo_id as int), note_token(secret, memo_id as int, expiry as int))),
            memo_id as int,
            now,
        ) == (now <= expiry),
{
    let tok = note_token(secret, memo_id as int, expiry as int);
    lemma_int_token_chars(secret, memo_id as int, expiry as int);
    let pre = note_cookie_prefix(memo_id as int);
    let c = cookie_pair(note_cookie_name(memo_id as int), tok);
    assert(c =~= pre + tok);
    lemma_dec_chars(memo_id as int);
    let d = dec(memo_id as int);
    assert forall|i: int| 0 <= i < c.len() implies c[i] != ';' by {
        if i >= pre.len() {
            assert(c[i] == tok[i - pre.len()]);
            lemma_token_char_plain(tok[i - pre.len()]);
        } else if 10 <= i < 10 + d.len() {
            assert(c[i] == d[i - 10]);
        }
    }
    lemma_split_none(c, ';');
    assert(split_char(c, ';') =~= seq![c]);
    lemma_token_char_plain(tok.last());
    assert(c.last() == tok.last());
    lemma_trim_plain(c);
    assert(c.take(pre.len() as int) =~= pre);
    assert(c.skip(pre.len() as int) =~= tok);
    lemma_note_token_roundtrip(secret, memo_id, expiry, memo_id as int, now);
}

/// A request that sends back the captcha cookie set for `answer` passes
/// the captcha with an answer equal to it up to case, until the cookie
/// expires (for answers without `:` or `;`).
pub proof fn lemma_captcha_cookie_roundtrip(
    secret: Seq<char>,
    answer: Seq<char>,
    expiry: i64,
    user_answer: Seq<char>,
    now: int,
)
    requires
        !answer.contains(':'),
        !answer.contains(';'),
    ensures
        captcha_accepted(
            secret,
            Some(cookie_pair(captcha_name(), captcha_token(secret, answer, expiry as int))),
            user_answer,
            now,
        ) == (now <= expiry && lowercase(answer) == lowercase(user_answer)),
{
    let payload = answer + seq![':'] + dec(expiry as int);
    let tok = captcha_token(secret, answer, expiry as int);
    assert(tok == signed(secret, payload));
    lemma_signed_tail(secret, payload);
    lemma_dec_chars(expiry as int);
    let c = cookie_pair(captcha_name(), tok);
    assert(c =~= captcha_prefix() + tok);
    assert forall|i: int| 0 <= i < c.len() implies c[i] != ';' by {
        if i >= 8 {
            let j = i - 8;
            assert(c[i] == tok[j]);
            if j >= payload.len() {
                lemma_token_char_plain(tok[j]);
            } else {
                assert(tok[j] == payload[j]);
                if j < answer.len() {
                    assert(payload[j] == answer[j]);
                } else if j > answer.len() {
                    assert(payload[j] == dec(expiry as int)[j - answer.len() - 1]);
                }
            }
        }
    }
    lemma_split_none(c, ';');
    assert(split_char(c, ';') =~= seq![c]);
    lemma_token_char_plain(tok[tok.len() - 1]);
    assert(c.last() == tok.last());
    lemma_trim_plain(c);
    assert(c.take(8) =~= captcha_prefix());
    assert(c.skip(8) =~= tok);
    lemma_captcha_token_roundtrip(secret, answer, expiry, user_answer, now);
}

// ---------------------------------------------------------------------------
// Who sees a note or a file
// ---------------------------------------------------------------------------

/// The visibility `private`.
pub open spec fn private_word() -> Seq<char> {
    seq!['p', 'r', 'i', 'v', 'a', 't', 'e']
}

/// The visibility `protected` (shared behind a password).
pub open spec fn protected_word() -> Seq<char> {
    seq!['p', 'r', 'o', 't', 'e', 'c', 't', 'e', 'd']
}

/// The visibility `public`.
pub open spec fn public_word() -> Seq<char> {
    seq!['p', 'u', 'b', 'l', 'i', 'c']
}

/// Whether `v` is the visibility `private`.
pub fn is_private(v: &[char]) -> (res: bool)
    ensures
        res == (v@ == private_word()),
{
    let w: [char; 7] = ['p', 'r', 'i', 'v', 'a', 't', 'e'];
    assert(w@ == private_word());
    chars_eq(v, &w)
}

/// Whether `v` is the visibility `protected`.
pub fn is_protected(v: &[char]) -> (res: bool)
    ensures
        res == (v@ == protected_word()),
{
    let w: [char; 9] = ['p', 'r', 'o', 't', 'e', 'c', 't', 'e', 'd'];
    assert(w@ == protected_word());
    chars_eq(v, &w)
}

/// Whether `v` is the visibility `public`.
pub fn is_public(v: &[char]) -> (res: bool)
    ensures
        res == (v@ == public_word()),
{
    let w: [char; 6] = ['p', 'u', 'b', 'l', 'i', 'c'];
    assert(w@ == public_word());
    chars_eq(v, &w)
}

/// What a visitor of a shared note gets.
#[derive(Debug, Clone, Copy, PartialEq, Eq, Structural)]
pub enum NoteView {
    /// The note itself.
    Show,
    /// A refusal: the note is private.
    Forbidden,
    /// The password form of a protected note.
    AskPassword,
}

/// What a visitor gets of a note with this visibility: a private note shows
/// to its owner only; a protected one to its owner and to holders of its
/// access cookie, the others being asked for the password; any other note
/// shows to everyone.
pub open spec fn note_view(visibility: Seq<char>, is_owner: bool, has_access: bool) -> NoteView {
    if visibility == private_word() {
        if is_owner {
            NoteView::Show
        } else {
            NoteView::Forbidden
        }
    } else if visibility == protected_word() {
        if is_owner || has_access {
            NoteView::Show
        } else {
            NoteView::AskPassword
        }
    } else {
        NoteView::Show
    }
}

/// What the visitor of shared note `memo_id` (owned by `owner_id`) gets at
/// time `now`, given the signed-in user and the `Cookie` header.
pub fn shared_note_view_at(
    secret: &str,
    cookie: Option<&str>,
    current_user: Option<i64>,
    memo_id: i64,
    owner_id: i64,
    visibility: &str,
    now: i64,
) -> (res: NoteView)
    ensures
        res == note_view(
            visibility@,
            current_user == Some(owner_id),
            note_access(secret@, opt_text(cookie), memo_id as int, now as int),
        ),
{
    let v = chars_of(visibility);
    let is_owner = match current_user {
        Some(u) => u == owner_id,
        None => false,
    };
    if is_private(v.as_slice()) {
        if is_owner {
            NoteView::Show
        } else {
            NoteView::Forbidden
        }
    } else if is_protected(v.as_slice()) {
        if is_owner || note_access_at(secret, cookie, memo_id, now) {
            NoteView::Show
        } else {
            NoteView::AskPassword
        }
    } else {
        NoteView::Show
    }
}

/// What the visitor of shared note `memo_id` gets now.
pub fn shared_note_view(
    secret: &str,
    cookie: Option<&str>,
    current_user: Option<i64>,
    memo_id: i64,
    owner_id: i64,
    visibility: &str,
) -> (res: NoteView)
    ensures
        exists|now: int|
            -8_400_000_000_000 <= now <= 8_400_000_000_000 && res == note_view(
                visibility@,
                current_user == Some(owner_id),
                #[trigger] note_access(secret@, opt_text(cookie), memo_id as int, now),
            ),
{
    let now = now_timestamp();
    shared_note_view_at(secret, cookie, current_user, memo_id, owner_id, visibility, now)
}

/// The owner of a note always sees it.
pub proof fn lemma_owner_sees_note(visibility: Seq<char>, has_access: bool)
    ensures
        note_view(visibility, true, has_access) == NoteView::Show,
{
}

/// A private note is refused to everyone but its owner, whatever cookie
/// they carry.
pub proof fn lemma_private_note_refused(has_access: bool)
    ensures
        note_view(private_word(), false, has_access) == NoteView::Forbidden,
{
}

/// A protected note shows to a visitor exactly when the visitor holds its
/// access cookie; otherwise the password is asked.
pub proof fn lemma_protected_note_needs_access(has_access: bool)
    ensures
        note_view(protected_word(), false, has_access) == (if has_access {
            NoteView::Show
        } else {
            NoteView::AskPassword
        }),
{
}

/// A note that mentions an uploaded file: its id, visibility and owner.
#[derive(Debug)]
pub struct MemoRef {
    pub id: i64,
    pub visibility: String,
    pub owner_id: i64,
}

/// Whether note `r`, which mentions a file, opens that file to the visitor:
/// a public note opens it to everyone, a protected one to its owner and to
/// holders of its access cookie, a private one to its owner.
pub open spec fn ref_opens(
    secret: Seq<char>,
    cookie: Option<Seq<char>>,
    current_user: Option<i64>,
    r: MemoRef,
    now: int,
) -> bool {
    let v = r.visibility@;
    if v == public_word() {
        true
    } else if v == protected_word() {
        current_user == Some(r.owner_id) || note_access(secret, cookie, r.id as int, now)
    } else if v == private_word() {
        current_user == Some(r.owner_id)
    } else {
        false
    }
}

/// Whether a visitor may download a file owned by `owner_id` that the notes
/// `refs` mention: its owner may, and so may whoever one of the notes opens
/// it to.
pub open spec fn file_access(
    secret: Seq<char>,
    cookie: Option<Seq<char>>,
    current_user: Option<i64>,
    owner_id: i64,
    refs: Seq<MemoRef>,
    now: int,
) -> bool {
    current_user == Some(owner_id) || exists|i: int|
        0 <= i < refs.len() && #[trigger] ref_opens(secret, cookie, current_user, refs[i], now)
}

/// Whether a visitor may download a file owned by `owner_id`, mentioned by
/// the notes `refs`, at time `now`.
pub fn file_access_at(
    secret: &str,
    cookie: Option<&str>,
    current_user: Option<i64>,
    owner_id: i64,
    refs: &[MemoRef],
    now: i64,
) -> (res: bool)
    ensures
        res == file_access(secret@, opt_text(cookie), current_user, owner_id, refs@, now as int),
{
    if let Some(u) = current_user {
        if u == owner_id {
            return true;
        }
    }
    let mut i: usize = 0;
    while i < refs.len()
        invariant
            i <= refs@.len(),
            current_user != Some(owner_id),
            forall|j: int|
                0 <= j < i ==> !#[trigger] ref_opens(
                    secret@,
                    opt_text(cookie),
                    current_user,
                    refs@[j],
                    now as int,
                ),
        decreases refs.len() - i,
    {
        let r = &refs[i];
        let v = chars_of(r.visibility.as_str());
        let is_owner = match current_user {
            Some(u) => u == r.owner_id,
            None => false,
        };
        let opens = if is_public(v.as_slice()) {
            true
        } else if is_protected(v.as_slice()) {
            is_owner || note_access_at(secret, cookie, r.id, now)
        } else if is_private(v.as_slice()) {
            is_owner
        } else {
            false
        };
        assert(opens == ref_opens(secret@, opt_text(cookie), current_user, refs@[i as int], now as int));
        if opens {
            return true;
        }
        i = i + 1;
    }
    false
}

/// The owner of a file may always download it.
pub proof fn lemma_owner_reads_file(
    secret: Seq<char>,
    cookie: Option<Seq<char>>,
    owner_id: i64,
    refs: Seq<MemoRef>,
    now: int,
)
    ensures
        file_access(secret, cookie, Some(owner_id), owner_id, refs, now),
{
}

/// A file mentioned by a public note may be downloaded by anyone.
pub proof fn lemma_public_note_opens_file(
    secret: Seq<char>,
    cookie: Option<Seq<char>>,
    current_user: Option<i64>,
    owner_id: i64,
    refs: Seq<MemoRef>,
    i: int,
    now: int,
)
    requires
        0 <= i < refs.len(),
        refs[i].visibility@ == public_word(),
    ensures
        file_access(secret, cookie, current_user, owner_id, refs, now),
{
    assert(ref_opens(secret, cookie, current_user, refs[i], now));
}

/// A file that no note mentions may be downloaded by its owner only.
pub proof fn lemma_unmentioned_file_private(
    secret: Seq<char>,
    cookie: Option<Seq<char>>,
    current_user: Option<i64>,
    owner_id: i64,
    now: int,
)
    ensures
        file_access(secret, cookie, current_user, owner_id, Seq::empty(), now) == (current_user
            == Some(owner_id)),
{
}

/// One more note mentioning a file never takes access to it away.
pub proof fn lemma_file_access_grows(
    secret: Seq<char>,
    cookie: Option<Seq<char>>,
    current_user: Option<i64>,
    owner_id: i64,
    refs: Seq<MemoRef>,
    r: MemoRef,
    now: int,
)
    requires
        file_access(secret, cookie, current_user, owner_id, refs, now),
    ensures
        file_access(secret, cookie, current_user, owner_id, refs.push(r), now),
{
    if current_user != Some(owner_id) {
        let i = choose|i: int|
            0 <= i < refs.len() && #[trigger] ref_opens(secret, cookie, current_user, refs[i], now);
        assert(refs.push(r)[i] == refs[i]);
    }
}

/// The text a note uses to mention file `id`: `/resources/<id>`.
pub open spec fn resource_path(id: int) -> Seq<char> {
    seq!['/', 'r', 'e', 's', 'o', 'u', 'r', 'c', 'e', 's', '/'] + dec(id)
}

/// `/resources/<id>`, the text by which notes mention file `id`.
pub fn resource_ref_pattern(id: i64) -> (res: String)
    ensures
        res@ == resource_path(id as int),
{
    let mut p: Vec<char> = vec!['/', 'r', 'e', 's', 'o', 'u', 'r', 'c', 'e', 's', '/'];
    let d = dec_chars(id);
    append_chars(&mut p, d.as_slice());
    assert(p@ =~= resource_path(id as int));
    string_of(p.as_slice())
}

} // verus!
