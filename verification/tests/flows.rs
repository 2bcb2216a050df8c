use minimamemosa::attachments::{clean_note_text, process_memo_content, resource_links};
use minimamemosa::db::{like_contains, like_month, Database, DbError};
use minimamemosa::forms::month_label;
use minimamemosa::pages::{
    create_memo, delete_memos, download_resource, edit_memo, files_panel, login, memos_feed,
    notes_panel, open_shared_note, protect_note, record_upload, register, unlock_shared_note,
    DownloadOutcome, LoginOutcome, MemoError, ProtectError, RegisterError, SharedNoteOutcome,
    UnlockOutcome,
};
use minimamemosa::render::{generate_captcha_data, png_data_url};
use minimamemosa::request::{captcha_cookie, session_cookie};
use minimamemosa::timeline::group_memos_by_date;

const SECRET: &str = "test-secret-key-for-testing-only";

fn pair(set_cookie: &str) -> String {
    set_cookie.split(';').next().unwrap().to_string()
}

fn db_with_user() -> (Database, i64) {
    let db = Database::new(":memory:").unwrap();
    let hash = minimamemosa::auth::hash_password("pass1234").unwrap();
    let id = db.create_user("alice", &hash).unwrap();
    (db, id)
}

#[test]
fn like_patterns() {
    assert_eq!(like_contains("abc"), "%abc%");
    assert_eq!(like_month(2024, 3), "2024-03-%");
    assert_eq!(like_month(2024, 12), "2024-12-%");
}

#[test]
fn duplicate_user_is_unique_violation() {
    let (db, _) = db_with_user();
    let err = db.create_user("alice", "x").unwrap_err();
    assert!(err.is_unique_violation());
    assert!(!DbError::ColumnType.is_unique_violation());
}

#[test]
fn login_outcomes() {
    let (db, id) = db_with_user();
    match login(&db, SECRET, "1.1.1.1", "alice", "pass1234") {
        LoginOutcome::SignedIn(c) => {
            let header = pair(&c);
            assert_eq!(minimamemosa::request::get_session_user_id(SECRET, Some(&header)), Some(id));
        }
        other => panic!("unexpected {:?}", other),
    }
    assert!(matches!(login(&db, SECRET, "1.1.1.1", "alice", "nope"), LoginOutcome::InvalidCredentials));
    assert!(matches!(login(&db, SECRET, "1.1.1.1", "bob", "pass1234"), LoginOutcome::InvalidCredentials));
    for _ in 0..17 {
        let _ = login(&db, SECRET, "1.1.1.1", "nobody", "nope");
    }
    assert!(matches!(login(&db, SECRET, "1.1.1.1", "alice", "pass1234"), LoginOutcome::RateLimited));
    assert!(matches!(login(&db, SECRET, "2.2.2.2", "alice", "pass1234"), LoginOutcome::SignedIn(_)));
}

#[test]
fn register_outcomes() {
    let db = Database::new(":memory:").unwrap();
    let cookie = pair(&captcha_cookie(SECRET, "Ab3dE"));
    assert_eq!(
        register(&db, SECRET, Some(&cookie), "9.9.9.1", "bob", "pw12", "wrong").unwrap_err(),
        RegisterError::BadCaptcha
    );
    assert_eq!(
        register(&db, SECRET, Some(&cookie), "9.9.9.2", "  ", "pw12", "ab3de").unwrap_err(),
        RegisterError::BadInput
    );
    assert_eq!(
        register(&db, SECRET, Some(&cookie), "9.9.9.3", "bob", "pw", "ab3de").unwrap_err(),
        RegisterError::BadInput
    );
    let ok = register(&db, SECRET, Some(&cookie), "9.9.9.4", " bob ", "pw12", "AB3DE").unwrap();
    assert!(ok.starts_with("session="));
    let user = db.get_user_by_username("bob").unwrap().unwrap();
    assert_eq!(minimamemosa::request::get_session_user_id(SECRET, Some(&pair(&ok))), Some(user.0));
    assert_eq!(
        register(&db, SECRET, Some(&cookie), "9.9.9.5", "bob", "pw12", "ab3de").unwrap_err(),
        RegisterError::NameTaken
    );
    for _ in 0..5 {
        let _ = register(&db, SECRET, None, "9.9.9.9", "x", "y", "z");
    }
    assert_eq!(
        register(&db, SECRET, Some(&cookie), "9.9.9.9", "carol", "pw12", "ab3de").unwrap_err(),
        RegisterError::RateLimited
    );
    assert_eq!(RegisterError::NameTaken.message(), "Username already taken");
}

#[test]
fn fresh_captcha_answer_passes_its_cookie() {
    let (answer, url) = generate_captcha_data();
    assert!(answer.len() <= 5);
    assert!(answer.chars().all(|c| c.is_ascii_alphanumeric()));
    assert!(url.starts_with("data:image/png;base64,"));
    let cookie = pair(&captcha_cookie(SECRET, &answer));
    assert!(minimamemosa::request::captcha_answer_accepted(SECRET, Some(&cookie), &answer.to_lowercase()));
}

#[test]
fn png_data_url_encodes_base64() {
    assert_eq!(png_data_url(&[1, 2, 3]), "data:image/png;base64,AQID");
    assert_eq!(png_data_url(b"hello"), "data:image/png;base64,aGVsbG8=");
}

#[test]
fn shared_note_flow() {
    let (db, owner) = db_with_user();
    let private = db.create_memo(owner, "T", "secret text", "private", None).unwrap();
    let public = db.create_memo(owner, "T", "hello **world** #tag", "public", None).unwrap();
    let hash = minimamemosa::auth::hash_password("letmein").unwrap();
    let protected = db.create_memo(owner, "T", "hidden", "protected", Some(&hash)).unwrap();
    assert!(matches!(open_shared_note(&db, SECRET, None, 999), SharedNoteOutcome::NotFound));
    assert!(matches!(open_shared_note(&db, SECRET, None, private), SharedNoteOutcome::Forbidden));
    let owner_cookie = pair(&session_cookie(SECRET, owner));
    assert!(matches!(open_shared_note(&db, SECRET, Some(&owner_cookie), private), SharedNoteOutcome::Show(_)));
    match open_shared_note(&db, SECRET, None, public) {
        SharedNoteOutcome::Show(n) => {
            assert!(n.content_html.contains("<strong>world</strong>"));
            assert_eq!(n.username, "alice");
            assert_eq!(n.avatar, "A");
        }
        other => panic!("unexpected {:?}", other),
    }
    assert!(matches!(open_shared_note(&db, SECRET, None, protected), SharedNoteOutcome::AskPassword(id) if id == protected));
    assert!(matches!(unlock_shared_note(&db, SECRET, protected, Some("nope")), UnlockOutcome::WrongPassword(_)));
    assert!(matches!(unlock_shared_note(&db, SECRET, public, Some("x")), UnlockOutcome::NotProtected(id) if id == public));
    assert!(matches!(unlock_shared_note(&db, SECRET, 999, Some("x")), UnlockOutcome::NotFound));
    match unlock_shared_note(&db, SECRET, protected, Some("letmein")) {
        UnlockOutcome::Unlocked(id, c) => {
            assert_eq!(id, protected);
            let header = pair(&c);
            assert!(matches!(open_shared_note(&db, SECRET, Some(&header), protected), SharedNoteOutcome::Show(_)));
        }
        other => panic!("unexpected {:?}", other),
    }
}

#[test]
fn protect_note_flow() {
    let (db, owner) = db_with_user();
    let memo = db.create_memo(owner, "T", "c", "private", None).unwrap();
    let cookie = pair(&session_cookie(SECRET, owner));
    assert_eq!(protect_note(&db, SECRET, None, memo, Some("abcd")).unwrap_err(), ProtectError::Unauthorized);
    assert_eq!(protect_note(&db, SECRET, Some(&cookie), 999, Some("abcd")).unwrap_err(), ProtectError::NotFound);
    assert_eq!(protect_note(&db, SECRET, Some(&cookie), memo, Some("abc")).unwrap_err(), ProtectError::BadPassword);
    assert_eq!(protect_note(&db, SECRET, Some(&cookie), memo, Some("abcd")).unwrap(), format!("/share/{}", memo));
    assert_eq!(db.get_memo_by_id(memo, owner).unwrap().unwrap().3, "protected");
    assert!(db.get_memo_has_password(memo, owner));
}

#[test]
fn download_rules() {
    let (db, owner) = db_with_user();
    let file = db.create_resource(owner, "f.png", "cat.png", "image/png", 10).unwrap();
    let owner_cookie = pair(&session_cookie(SECRET, owner));
    assert!(matches!(download_resource(&db, SECRET, None, 999), DownloadOutcome::NotFound));
    assert!(matches!(download_resource(&db, SECRET, Some(&owner_cookie), file), DownloadOutcome::Allowed(f, m) if f == "f.png" && m == "image/png"));
    assert!(matches!(download_resource(&db, SECRET, None, file), DownloadOutcome::Forbidden));
    db.create_memo(owner, "T", &format!("![cat](/resources/{})", file), "public", None).unwrap();
    assert!(matches!(download_resource(&db, SECRET, None, file), DownloadOutcome::Allowed(_, _)));
}

#[test]
fn memo_content_keeps_found_files_and_drops_missing() {
    let (db, owner) = db_with_user();
    let file = db.create_resource(owner, "f.png", "cat.png", "image/png", 2048).unwrap();
    let text = format!("a ![cat](/resources/{}) b [gone](/resources/999) c <img src=\"/resources/998\"> d", file);
    let (cleaned, infos) = process_memo_content(&db, &text);
    assert_eq!(cleaned, format!("a ![cat](/resources/{}) b  c  d", file));
    assert_eq!(infos.len(), 1);
    assert_eq!(infos[0].id, file);
    assert!(infos[0].is_image);
    assert_eq!(infos[0].size, "2.0 KB");
    let links = resource_links(&text).unwrap();
    assert_eq!(links.len(), 3);
    assert_eq!(clean_note_text(&text, &links, &vec![true, true, true]), text.trim());
    assert!(resource_links("x /resources/99999999999999999999)").is_none());
    assert_eq!(resource_links("/resources/ /resources/abc").unwrap().len(), 0);
}

#[test]
fn create_and_edit_memo_flow() {
    let (db, owner) = db_with_user();
    assert_eq!(create_memo(&db, owner, "   ", None, None).unwrap_err(), MemoError::Empty);
    let f = create_memo(&db, owner, "  # Hello\nworld #rust #Go  ", Some("public"), None).unwrap();
    assert_eq!(f.card.content, "# Hello\nworld #rust #Go");
    assert_eq!(f.card.title, "Hello");
    assert_eq!(f.card.tags, vec!["go", "rust"]);
    assert_eq!(f.card.visibility, "public");
    assert_eq!(f.avatar, "A");
    assert_eq!(db.get_memo_tags(f.card.id).unwrap(), vec!["go", "rust"]);
    let e = edit_memo(&db, owner, f.card.id, "changed #new", Some("protected"), None).unwrap();
    assert_eq!(e.card.content, "changed #new");
    assert_eq!(e.card.visibility, "private");
    assert_eq!(db.get_memo_tags(f.card.id).unwrap(), vec!["new"]);
    assert_eq!(delete_memos(&db, owner, &[Some(f.card.id), None, Some(999)]), 2);
    assert!(db.get_memo_by_id(f.card.id, owner).unwrap().is_none());
}

#[test]
fn edit_keeps_existing_password_hash() {
    let (db, owner) = db_with_user();
    let hash = minimamemosa::auth::hash_password("keepme").unwrap();
    let id = db.create_memo(owner, "T", "c", "protected", Some(&hash)).unwrap();
    let e = edit_memo(&db, owner, id, "new text", Some("protected"), Some(" ")).unwrap();
    assert_eq!(e.card.visibility, "protected");
    let stored = db.get_memo_public(id).unwrap().unwrap();
    assert_eq!(stored.4, Some(hash));
}

#[test]
fn timeline_groups_by_day_newest_first() {
    let db = Database::new(":memory:").unwrap();
    let memos = vec![
        (1, "a".to_string(), "one".to_string(), "private".to_string(), "2024-01-02 10:00:00".to_string()),
        (2, "b".to_string(), "two".to_string(), "private".to_string(), "2024-01-01 09:00:00".to_string()),
        (3, "c".to_string(), "three".to_string(), "private".to_string(), "2024-01-02 08:00:00".to_string()),
        (4, "d".to_string(), "four".to_string(), "private".to_string(), "2024-01-03 08:00:00".to_string()),
    ];
    let groups = group_memos_by_date(&db, &memos);
    let days: Vec<&str> = groups.iter().map(|g| g.date.as_str()).collect();
    assert_eq!(days, vec!["2024-01-03", "2024-01-02", "2024-01-01"]);
    let ids: Vec<Vec<i64>> = groups.iter().map(|g| g.memos.iter().map(|m| m.id).collect()).collect();
    assert_eq!(ids, vec![vec![4], vec![1, 3], vec![2]]);
    assert_eq!(groups[2].label, "Jan 01, 2024");
    assert_eq!(groups[0].memos[0].content_html, "<p>four</p>\n");
}

#[test]
fn panels_and_feeds_page() {
    let (db, owner) = db_with_user();
    for i in 0..35 {
        db.create_memo(owner, "T", &format!("note {} #t{}", i, i % 3), "private", None).unwrap();
    }
    let p = notes_panel(&db, owner, 0).unwrap();
    assert_eq!(p.notes.len(), 30);
    assert_eq!(p.next_offset, Some(30));
    assert!(!p.partial);
    let p2 = notes_panel(&db, owner, 30).unwrap();
    assert_eq!(p2.notes.len(), 5);
    assert_eq!(p2.next_offset, None);
    assert!(p2.partial);
    let f = memos_feed(&db, owner, 20).unwrap();
    assert_eq!(f.next_offset, None);
    assert_eq!(f.memo_groups.iter().map(|g| g.memos.len()).sum::<usize>(), 15);
    for i in 0..3 {
        record_upload(&db, owner, &format!("s{}.bin", i), "o.bin", "application/x", 10 + i).unwrap();
    }
    let fp = files_panel(&db, owner, 0);
    assert_eq!(fp.resources.len(), 3);
    assert_eq!(fp.next_offset, None);
    assert_eq!(fp.resources[0].size_str.ends_with(" B"), true);
    assert_eq!(month_label(2, 2024), "February 2024");
}

#[test]
fn memos_json_and_month_calendar() {
    let (db, owner) = db_with_user();
    db.create_memo(owner, "Shopping", "milk", "private", None).unwrap();
    db.create_memo(owner, "Rust", "learn rust", "public", None).unwrap();
    let all = minimamemosa::pages::memos_json(&db, owner, None);
    assert_eq!(all.len(), 2);
    let found = minimamemosa::pages::memos_json(&db, owner, Some("rust"));
    assert_eq!(found.len(), 1);
    assert_eq!(found[0].1, "Rust");
    assert_eq!(found[0].3, "public");
    assert_eq!(minimamemosa::pages::memos_json(&db, owner, Some("")).len(), 2);
    let (label, weeks) = minimamemosa::pages::month_calendar(&[], None).unwrap();
    let now = chrono::Utc::now();
    assert!(label.ends_with(&now.format(" %Y").to_string()));
    assert!(label.starts_with(&now.format("%B").to_string()));
    assert!(weeks.iter().all(|w| w.len() == 7));
    assert!(weeks.iter().any(|w| w.iter().any(|d| d.is_today)));
}
