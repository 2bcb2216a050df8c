use minimamemosa::auth::{
    captcha_token_with_expiry, create_note_auth_token, create_session_token,
    note_auth_token_with_expiry, session_token_with_expiry,
};
use minimamemosa::forms::{
    file_size_label, page_of, parse_offset, registration_input_ok, search_query, search_snippet,
    settle_visibility, share_password_acceptable, stored_file_name, upload_link,
    visibility_for_new_memo, SearchQuery,
};
use minimamemosa::request::{
    captcha_accepted_at, captcha_answer_accepted, captcha_cookie, clear_captcha_cookie, cookie_value,
    file_access_at, get_session_user_id, logout_cookie, note_access_at, note_access_cookie,
    resource_ref_pattern, session_cookie, session_user_at, shared_note_view_at, MemoRef, NoteView,
};

const SECRET: &str = "test-secret-key-for-testing-only";

fn pair(set_cookie: &str) -> String {
    set_cookie.split(';').next().unwrap().to_string()
}

#[test]
fn cookie_value_reads_named_cookie() {
    assert_eq!(cookie_value("a=1; session = abc ; b=2", "session"), Some("abc".to_string()));
    assert_eq!(cookie_value("sessionx=1; session=2", "session"), Some("2".to_string()));
    assert_eq!(cookie_value("a=1; b=2", "session"), None);
    assert_eq!(cookie_value("session", "session"), None);
    assert_eq!(cookie_value("session=a=b", "session"), Some("a=b".to_string()));
}

#[test]
fn session_cookie_set_and_read_back() {
    let set = session_cookie(SECRET, 42);
    assert!(set.starts_with("session="));
    assert!(set.ends_with("; HttpOnly; Path=/; SameSite=Lax; Max-Age=604800"));
    let header = format!("theme=dark; {}", pair(&set));
    assert_eq!(get_session_user_id(SECRET, Some(&header)), Some(42));
    assert_eq!(get_session_user_id("other-secret", Some(&header)), None);
    assert_eq!(get_session_user_id(SECRET, None), None);
}

#[test]
fn session_cookie_expires() {
    let token = session_token_with_expiry(SECRET, 7, 1000);
    let header = format!("session={}", token);
    assert_eq!(session_user_at(SECRET, Some(&header), 1000), Some(7));
    assert_eq!(session_user_at(SECRET, Some(&header), 1001), None);
}

#[test]
fn first_session_cookie_decides() {
    let good = create_session_token(SECRET, 5);
    let header = format!("session=garbage; session={}", good);
    assert_eq!(get_session_user_id(SECRET, Some(&header)), None);
}

#[test]
fn logout_and_clear_cookies_expire_at_once() {
    assert_eq!(logout_cookie(), "session=; HttpOnly; Path=/; SameSite=Lax; Max-Age=0");
    assert_eq!(clear_captcha_cookie(), "captcha=; HttpOnly; Path=/; SameSite=Lax; Max-Age=0");
}

#[test]
fn captcha_cookie_round_trip() {
    let set = captcha_cookie(SECRET, "AbC12");
    assert!(set.ends_with("Max-Age=300"));
    let header = pair(&set);
    assert!(captcha_answer_accepted(SECRET, Some(&header), "abc12"));
    assert!(!captcha_answer_accepted(SECRET, Some(&header), "abc13"));
    assert!(!captcha_answer_accepted(SECRET, None, "abc12"));
    let token = captcha_token_with_expiry(SECRET, "xyz", 50);
    let h2 = format!("other=1; captcha={}", token);
    assert!(captcha_accepted_at(SECRET, Some(&h2), "XYZ", 50));
    assert!(!captcha_accepted_at(SECRET, Some(&h2), "XYZ", 51));
}

#[test]
fn note_access_cookie_round_trip() {
    let set = note_access_cookie(SECRET, 12);
    assert!(set.starts_with("note_auth_12="));
    let header = pair(&set);
    let now = chrono::Utc::now().timestamp();
    assert!(note_access_at(SECRET, Some(&header), 12, now));
    assert!(!note_access_at(SECRET, Some(&header), 13, now));
    let token = note_auth_token_with_expiry(SECRET, 12, 100);
    let h2 = format!("note_auth_12={}", token);
    assert!(note_access_at(SECRET, Some(&h2), 12, 100));
    assert!(!note_access_at(SECRET, Some(&h2), 12, 101));
}

#[test]
fn shared_note_rules() {
    let token = create_note_auth_token(SECRET, 3);
    let with_access = format!("note_auth_3={}", token);
    let now = chrono::Utc::now().timestamp();
    assert_eq!(shared_note_view_at(SECRET, None, Some(1), 3, 1, "private", now), NoteView::Show);
    assert_eq!(shared_note_view_at(SECRET, Some(&with_access), Some(2), 3, 1, "private", now), NoteView::Forbidden);
    assert_eq!(shared_note_view_at(SECRET, None, None, 3, 1, "protected", now), NoteView::AskPassword);
    assert_eq!(shared_note_view_at(SECRET, Some(&with_access), None, 3, 1, "protected", now), NoteView::Show);
    assert_eq!(shared_note_view_at(SECRET, None, None, 3, 1, "public", now), NoteView::Show);
    assert_eq!(shared_note_view_at(SECRET, None, None, 3, 1, "anything", now), NoteView::Show);
}

fn memo_ref(id: i64, visibility: &str, owner_id: i64) -> MemoRef {
    MemoRef { id, visibility: visibility.to_string(), owner_id }
}

#[test]
fn file_access_rules() {
    let now = chrono::Utc::now().timestamp();
    assert!(file_access_at(SECRET, None, Some(1), 1, &[], now));
    assert!(!file_access_at(SECRET, None, Some(2), 1, &[], now));
    assert!(!file_access_at(SECRET, None, None, 1, &[], now));
    let refs = vec![memo_ref(5, "private", 1), memo_ref(6, "public", 1)];
    assert!(file_access_at(SECRET, None, None, 1, &refs, now));
    let private_only = vec![memo_ref(5, "private", 1)];
    assert!(!file_access_at(SECRET, None, Some(2), 1, &private_only, now));
    let protected = vec![memo_ref(8, "protected", 3)];
    assert!(file_access_at(SECRET, None, Some(3), 1, &protected, now));
    assert!(!file_access_at(SECRET, None, None, 1, &protected, now));
    let cookie = format!("note_auth_8={}", create_note_auth_token(SECRET, 8));
    assert!(file_access_at(SECRET, Some(&cookie), None, 1, &protected, now));
}

#[test]
fn resource_pattern_text() {
    assert_eq!(resource_ref_pattern(42), "/resources/42");
    assert_eq!(resource_ref_pattern(-3), "/resources/-3");
}

#[test]
fn visibility_settles() {
    assert_eq!(settle_visibility(Some("public"), Some("h".to_string())), ("public".to_string(), None));
    assert_eq!(settle_visibility(Some("weird"), None), ("private".to_string(), None));
    assert_eq!(settle_visibility(None, None), ("private".to_string(), None));
    assert_eq!(settle_visibility(Some("protected"), None), ("private".to_string(), None));
    assert_eq!(
        settle_visibility(Some("protected"), Some("h".to_string())),
        ("protected".to_string(), Some("h".to_string()))
    );
}

#[test]
fn new_memo_visibility_hashes_password() {
    let (v, h) = visibility_for_new_memo(Some("protected"), Some("secret1"));
    assert_eq!(v, "protected");
    assert!(minimamemosa::auth::verify_password("secret1", &h.unwrap()).unwrap());
    assert_eq!(visibility_for_new_memo(Some("protected"), Some("   ")), ("private".to_string(), None));
    assert_eq!(visibility_for_new_memo(Some("protected"), None), ("private".to_string(), None));
    assert_eq!(visibility_for_new_memo(Some("public"), Some("x")), ("public".to_string(), None));
}

#[test]
fn registration_and_share_password_checks() {
    assert!(registration_input_ok("bob", "abcd"));
    assert!(!registration_input_ok("  ", "abcd"));
    assert!(!registration_input_ok("bob", "abc"));
    assert!(registration_input_ok("bob", "ééé"));
    assert!(share_password_acceptable(Some("abcd")));
    assert!(!share_password_acceptable(Some("abc")));
    assert!(!share_password_acceptable(None));
}

#[test]
fn paging_helpers() {
    assert_eq!(parse_offset(Some("30")), 30);
    assert_eq!(parse_offset(Some("x")), 0);
    assert_eq!(parse_offset(None), 0);
    assert_eq!(page_of(31, 30, 0), (30, Some(30)));
    assert_eq!(page_of(30, 30, 60), (30, None));
    assert_eq!(page_of(3, 30, 0), (3, None));
}

#[test]
fn search_snippet_cuts_at_500_bytes() {
    let long = "a".repeat(600);
    assert_eq!(search_snippet(&long).len(), 500);
    assert_eq!(search_snippet("short"), "short");
}

#[test]
fn file_size_labels() {
    assert_eq!(file_size_label(0), "0 B");
    assert_eq!(file_size_label(1023), "1023 B");
    assert_eq!(file_size_label(-5), "-5 B");
    assert_eq!(file_size_label(1024), "1.0 KB");
    assert_eq!(file_size_label(1536), "1.5 KB");
    assert_eq!(file_size_label(1048576), "1.0 MB");
    assert_eq!(file_size_label(5 * 1048576 + 524288), "5.5 MB");
}

#[test]
fn stored_names_keep_extension() {
    assert_eq!(stored_file_name("abc", "photo.png"), "abc.png");
    assert_eq!(stored_file_name("abc", "archive.tar.gz"), "abc.gz");
    assert_eq!(stored_file_name("abc", "README"), "abc.bin");
    assert_eq!(stored_file_name("abc", ".bashrc"), "abc.bin");
}

#[test]
fn upload_links() {
    assert_eq!(upload_link("cat.png", "image/png", 7), "![cat.png](/resources/7)");
    assert_eq!(upload_link("doc.pdf", "application/pdf", 8), "[doc.pdf](/resources/8)");
}

#[test]
fn search_query_routes() {
    assert!(matches!(search_query(Some("rust"), Some("2024-01-01"), Some("x")), SearchQuery::Tag(t) if t == "rust"));
    assert!(matches!(search_query(None, Some("2024-01-01"), Some("x")), SearchQuery::Date(d) if d == "2024-01-01"));
    assert!(matches!(search_query(None, None, Some("x")), SearchQuery::Text(q) if q == "x"));
    assert!(matches!(search_query(None, None, Some("")), SearchQuery::All));
    assert!(matches!(search_query(None, None, None), SearchQuery::All));
}
