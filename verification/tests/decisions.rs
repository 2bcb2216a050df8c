use minimamemosa::auth::verify_password;
use minimamemosa::calendar::{calendar_weeks, generate_calendar};
use minimamemosa::content::{avatar_char, extract_tags};
use minimamemosa::db::Database;
use minimamemosa::forms::{settle_edit_visibility, visibility_for_edit, visibility_for_new_memo};
use minimamemosa::pages::{
    create_memo, download_decision, edit_memo, files_page_of, notes_page_of, upload_mime_type,
    upload_original_name, DownloadOutcome, MemoError, PageError,
};
use minimamemosa::render::png_data_url;
use minimamemosa::request::{session_cookie, MemoRef};

const SECRET: &str = "decision-secret";

fn memo(id: i64, content: &str) -> (i64, String, String, String, String) {
    (
        id,
        format!("Note {}", id),
        content.to_string(),
        "private".to_string(),
        "2024-01-15 10:30:00".to_string(),
    )
}

fn file(id: i64) -> (i64, String, String, String, i64, String) {
    (
        id,
        format!("{}.png", id),
        format!("pic{}.png", id),
        "image/png".to_string(),
        2048,
        "2024-01-15 10:30:00".to_string(),
    )
}

fn cookie_pair(set_cookie: &str) -> String {
    set_cookie.split(';').next().unwrap().to_string()
}

#[test]
fn edit_keeps_hash_of_protected_note_without_new_password() {
    let (v, h) = settle_edit_visibility(Some("protected"), None, "protected", Some("old-hash".to_string()));
    assert_eq!(v, "protected");
    assert_eq!(h.as_deref(), Some("old-hash"));
}

#[test]
fn edit_prefers_fresh_hash() {
    let (v, h) = settle_edit_visibility(
        Some("protected"),
        Some("new-hash".to_string()),
        "protected",
        Some("old-hash".to_string()),
    );
    assert_eq!(v, "protected");
    assert_eq!(h.as_deref(), Some("new-hash"));
}

#[test]
fn edit_of_private_note_to_protected_without_password_stays_private() {
    let (v, h) = settle_edit_visibility(Some("protected"), None, "private", Some("old-hash".to_string()));
    assert_eq!(v, "private");
    assert_eq!(h, None);
}

#[test]
fn edit_to_public_drops_hash() {
    let (v, h) = settle_edit_visibility(Some("public"), None, "protected", Some("old-hash".to_string()));
    assert_eq!(v, "public");
    assert_eq!(h, None);
    let (v, h) = settle_edit_visibility(Some("weird"), None, "protected", Some("old-hash".to_string()));
    assert_eq!(v, "private");
    assert_eq!(h, None);
}

#[test]
fn visibility_for_edit_reads_the_stored_hash() {
    let db = Database::new(":memory:").unwrap();
    let uid = db.create_user("alice", "x").unwrap();
    let id = db.create_memo(uid, "T", "text", "protected", Some("stored-hash")).unwrap();
    let (v, h) = visibility_for_edit(&db, id, uid, Some("protected"), Some("   "));
    assert_eq!(v, "protected");
    assert_eq!(h.as_deref(), Some("stored-hash"));
    let (v, h) = visibility_for_edit(&db, id, uid, Some("public"), None);
    assert_eq!(v, "public");
    assert_eq!(h, None);
}

#[test]
fn new_memo_visibility_as_asked() {
    let (v, h) = visibility_for_new_memo(Some("public"), None);
    assert_eq!(v, "public");
    assert_eq!(h, None);
    let (v, h) = visibility_for_new_memo(Some("protected"), None);
    assert_eq!(v, "private");
    assert_eq!(h, None);
    let (v, h) = visibility_for_new_memo(Some("protected"), Some("pw12"));
    assert_eq!(v, "protected");
    assert!(verify_password("pw12", h.as_deref().unwrap()).unwrap());
}

#[test]
fn create_memo_stores_requested_visibility() {
    let db = Database::new(":memory:").unwrap();
    let uid = db.create_user("alice", "x").unwrap();
    let f = create_memo(&db, uid, "  hello  ", Some("public"), None).unwrap();
    assert_eq!(f.card.visibility, "public");
    assert_eq!(f.card.content, "hello");
    let f = create_memo(&db, uid, "hello", None, None).unwrap();
    assert_eq!(f.card.visibility, "private");
    let big = "![a](/resources/99999999999999999999999)";
    assert_eq!(create_memo(&db, uid, big, None, None).unwrap_err(), MemoError::Unreadable);
    assert_eq!(create_memo(&db, uid, "   ", None, None).unwrap_err(), MemoError::Empty);
}

#[test]
fn edit_memo_keeps_protection() {
    let db = Database::new(":memory:").unwrap();
    let uid = db.create_user("alice", "x").unwrap();
    let f = create_memo(&db, uid, "secret", Some("protected"), Some("pw12")).unwrap();
    assert_eq!(f.card.visibility, "protected");
    let e = edit_memo(&db, uid, f.card.id, "secret 2", Some("protected"), None).unwrap();
    assert_eq!(e.card.visibility, "protected");
    let m = db.get_memo_public(f.card.id).unwrap().unwrap();
    assert!(verify_password("pw12", m.4.as_deref().unwrap()).unwrap());
}

#[test]
fn notes_page_offers_next_page_only_when_more() {
    let fetched: Vec<_> = (1..=31).map(|i| memo(i, "text")).collect();
    let p = notes_page_of(fetched, "bob".to_string(), 0).unwrap();
    assert_eq!(p.notes.len(), 30);
    assert_eq!(p.next_offset, Some(30));
    assert!(!p.partial);
    assert_eq!(p.avatar, "B");
    assert_eq!(p.notes[0].id, 1);
    assert_eq!(p.notes[29].id, 30);

    let fetched: Vec<_> = (1..=30).map(|i| memo(i, "text")).collect();
    let p = notes_page_of(fetched, "bob".to_string(), 60).unwrap();
    assert_eq!(p.notes.len(), 30);
    assert_eq!(p.next_offset, None);
    assert!(p.partial);
    assert_eq!(p.offset, 60);
}

#[test]
fn notes_page_refuses_unlistable_note() {
    let long = format!("{}{}", "a".repeat(499), "éé");
    let fetched = vec![memo(1, "fine"), memo(2, &long)];
    assert_eq!(notes_page_of(fetched, "bob".to_string(), 0).unwrap_err(), PageError::Unreadable);
}

#[test]
fn files_page_offers_next_page_only_when_more() {
    let fetched: Vec<_> = (1..=31).map(file).collect();
    let p = files_page_of(&fetched, 30);
    assert_eq!(p.resources.len(), 30);
    assert_eq!(p.next_offset, Some(60));
    assert!(p.partial);
    assert_eq!(p.resources[0].id, 1);

    let fetched: Vec<_> = (1..=3).map(file).collect();
    let p = files_page_of(&fetched, 0);
    assert_eq!(p.resources.len(), 3);
    assert_eq!(p.next_offset, None);
    assert!(!p.partial);
}

fn stored_file(owner: i64) -> Option<(i64, String, String, String, i64, i64)> {
    Some((7, "7.png".to_string(), "pic.png".to_string(), "image/png".to_string(), 10, owner))
}

fn note_ref(visibility: &str, owner: i64) -> MemoRef {
    MemoRef { id: 3, visibility: visibility.to_string(), owner_id: owner }
}

#[test]
fn download_decision_outcomes() {
    let now = 1_700_000_000;
    assert!(matches!(download_decision(SECRET, None, None, None, &[], now), DownloadOutcome::NotFound));
    match download_decision(SECRET, None, Some(1), stored_file(1), &[], now) {
        DownloadOutcome::Allowed(f, m) => {
            assert_eq!(f, "7.png");
            assert_eq!(m, "image/png");
        }
        other => panic!("unexpected {:?}", other),
    }
    assert!(matches!(
        download_decision(SECRET, None, Some(2), stored_file(1), &[], now),
        DownloadOutcome::Forbidden
    ));
    assert!(matches!(
        download_decision(SECRET, None, None, stored_file(1), &[note_ref("public", 1)], now),
        DownloadOutcome::Allowed(_, _)
    ));
    assert!(matches!(
        download_decision(SECRET, None, Some(2), stored_file(1), &[note_ref("private", 1)], now),
        DownloadOutcome::Forbidden
    ));
    assert!(matches!(
        download_decision(SECRET, None, None, stored_file(1), &[note_ref("protected", 1)], now),
        DownloadOutcome::Forbidden
    ));
}

#[test]
fn download_decision_session_user_owns_private_note() {
    let now = 1_700_000_000;
    let header = cookie_pair(&session_cookie(SECRET, 2));
    assert!(matches!(
        download_decision(SECRET, Some(&header), Some(2), stored_file(1), &[note_ref("private", 2)], now),
        DownloadOutcome::Allowed(_, _)
    ));
}

#[test]
fn upload_defaults() {
    assert_eq!(upload_original_name(Some("a.txt")), "a.txt");
    assert_eq!(upload_original_name(None), "file");
    assert_eq!(upload_mime_type(Some("text/plain")), "text/plain");
    assert_eq!(upload_mime_type(None), "application/octet-stream");
}

#[test]
fn ascii_tags_are_lower_case_tag_words() {
    let tags = extract_tags("Hello #Rust and #Web-Dev_ and #x__ #_ (#Tag9) a#b");
    assert_eq!(tags, vec!["rust", "tag9", "web-dev", "x"]);
    for t in &tags {
        assert!(!t.is_empty());
        assert!(!t.ends_with('_'));
        assert!(t.chars().all(|c| c.is_ascii_lowercase() || c.is_ascii_digit() || c == '_' || c == '-'));
    }
}

#[test]
fn avatar_of_empty_name_is_question_mark() {
    assert_eq!(avatar_char(""), "?");
    assert_eq!(avatar_char("zed"), "Z");
    assert_eq!(avatar_char("9lives"), "9");
}

#[test]
fn verify_password_refuses_hash_without_dollar() {
    assert!(verify_password("x", "no-dollar-here").is_err());
    assert!(verify_password("x", "").is_err());
}

#[test]
fn calendar_of_last_years() {
    let weeks = calendar_weeks(262142, 11, &[], None, "2024-01-01");
    let days: Vec<u32> = weeks.iter().flatten().filter(|d| d.is_current_month).map(|d| d.day).collect();
    assert_eq!(days.len(), 30);
    let weeks = generate_calendar(-262143, 1, &[], None);
    let days: Vec<u32> = weeks.iter().flatten().filter(|d| d.is_current_month).map(|d| d.day).collect();
    assert_eq!(days.len(), 31);
}

#[test]
fn png_data_url_is_standard_base64() {
    assert_eq!(png_data_url(b"Man"), "data:image/png;base64,TWFu");
    assert_eq!(png_data_url(b"Ma"), "data:image/png;base64,TWE=");
    assert_eq!(png_data_url(b"M"), "data:image/png;base64,TQ==");
    assert_eq!(png_data_url(&[0xfb, 0xff]), "data:image/png;base64,+/8=");
}

fn first_date(year: i32, month: u32) -> String {
    let weeks = calendar_weeks(year, month, &[], None, "");
    weeks.iter().flatten().find(|d| d.is_current_month).unwrap().date.clone()
}

#[test]
fn calendar_dates_as_chrono_writes_them() {
    assert_eq!(first_date(2024, 3), "2024-03-01");
    assert_eq!(first_date(5, 1), "0005-01-01");
    assert_eq!(first_date(10000, 12), "+10000-12-01");
    assert_eq!(first_date(-1, 7), "-0001-07-01");
    let weeks = calendar_weeks(2024, 2, &[], None, "");
    let lead = weeks[0].iter().take_while(|d| !d.is_current_month).count();
    assert_eq!(lead, 3);
    let days = weeks.iter().flatten().filter(|d| d.is_current_month).count();
    assert_eq!(days, 29);
    let days = calendar_weeks(1900, 2, &[], None, "").iter().flatten().filter(|d| d.is_current_month).count();
    assert_eq!(days, 28);
}

#[test]
fn rate_limit_counts_in_window() {
    let db = Database::new(":memory:").unwrap();
    assert_eq!(db.rate_limit_at("1.2.3.4", "signup", 0, 3600, 10_000).unwrap(), false);
    assert_eq!(db.rate_limit_at("1.2.3.4", "signup", 2, 3600, 10_000).unwrap(), true);
    assert_eq!(db.rate_limit_at("1.2.3.4", "signup", 2, 3600, 10_001).unwrap(), true);
    assert_eq!(db.rate_limit_at("1.2.3.4", "signup", 2, 3600, 10_002).unwrap(), false);
    assert_eq!(db.rate_limit_at("1.2.3.4", "login", 2, 3600, 10_002).unwrap(), true);
    assert_eq!(db.rate_limit_at("5.6.7.8", "signup", 2, 3600, 10_002).unwrap(), true);
    assert_eq!(db.rate_limit_at("1.2.3.4", "signup", 2, 3600, 20_000).unwrap(), true);
}

#[test]
fn tags_of_joined_texts() {
    let a = "Start #Foo and #bar_";
    let b = "#qux then #foo &nbsp;#zed";
    let joined = format!("{} {}", a, b);
    let mut expected: Vec<String> = extract_tags(a);
    expected.extend(extract_tags(b));
    expected.sort();
    expected.dedup();
    assert_eq!(extract_tags(&joined), expected);
    assert_eq!(extract_tags(&joined), vec!["bar", "foo", "qux", "zed"]);
}

#[test]
fn uuid_stems_differ_for_different_readings() {
    let a = minimamemosa::content::uuid_from_nanos(1);
    let b = minimamemosa::content::uuid_from_nanos(2);
    let c = minimamemosa::content::uuid_from_nanos(1u128 << 64);
    assert_eq!(a, "00000000000000000000000000000001");
    assert_ne!(a, b);
    assert_ne!(a, c);
    assert_eq!(c, "00000000000000010000000000000000");
}

#[test]
fn sidebar_dates_and_tag_counts() {
    let db = Database::new(":memory:").unwrap();
    let uid = db.create_user("alice", "x").unwrap();
    let m = minimamemosa::pages::create_memo(&db, uid, "note #alpha #beta", None, None).unwrap();
    minimamemosa::pages::create_memo(&db, uid, "other #alpha", None, None).unwrap();
    let tags = minimamemosa::pages::tag_counts(&db, uid);
    assert_eq!(tags, vec![("alpha".to_string(), 2), ("beta".to_string(), 1)]);
    let dates = minimamemosa::pages::memo_dates_this_month(&db, uid, None);
    assert_eq!(dates.len(), 1);
    assert_eq!(dates[0], m.card.created_at[..10].to_string());
    let none = minimamemosa::pages::memo_dates_this_month(&db, uid, Some("zzz-not-there"));
    assert!(none.is_empty());
}
