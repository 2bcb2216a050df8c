use chrono::Datelike;
use minimamemosa::db::Database;

fn setup_db() -> Database {
    Database::new(":memory:").unwrap()
}

fn create_user(db: &Database) -> i64 {
    let hash = "$2b$12$LJ3m4ys3Lk0TSwHnbfOMiOXPmZQmQmQmQmQmQmQmQmQmQmQm".to_string();
    db.create_user("testuser", &hash).unwrap()
}

#[test]
fn test_create_and_get_user_by_username() {
    let db = setup_db();
    let id = create_user(&db);
    let user = db.get_user_by_username("testuser").unwrap().unwrap();
    assert_eq!(user.0, id);
    assert_eq!(user.1, "testuser");
}

#[test]
fn test_get_user_by_username_not_found() {
    let db = setup_db();
    assert!(db.get_user_by_username("nonexistent").unwrap().is_none());
}

#[test]
fn test_get_user_by_id() {
    let db = setup_db();
    let id = create_user(&db);
    let user = db.get_user_by_id(id).unwrap().unwrap();
    assert_eq!(user.0, id);
    assert_eq!(user.1, "testuser");
}

#[test]
fn test_get_user_by_id_not_found() {
    let db = setup_db();
    assert!(db.get_user_by_id(999).unwrap().is_none());
}

#[test]
fn test_create_duplicate_username_fails() {
    let db = setup_db();
    let hash = "hash".to_string();
    db.create_user("testuser", &hash).unwrap();
    let result = db.create_user("testuser", &hash);
    assert!(result.is_err());
}


#[test]
fn test_create_memo() {
    let db = setup_db();
    let user_id = create_user(&db);
    let id = db.create_memo(user_id, "Test Title", "Hello world", "private", None).unwrap();
    assert!(id > 0);
}

#[test]
fn test_get_memos_empty() {
    let db = setup_db();
    let user_id = create_user(&db);
    let memos = db.get_memos(user_id).unwrap();
    assert!(memos.is_empty());
}

#[test]
fn test_get_memos() {
    let db = setup_db();
    let user_id = create_user(&db);
    db.create_memo(user_id, "Title1", "Content1", "private", None).unwrap();
    db.create_memo(user_id, "Title2", "Content2", "public", None).unwrap();
    let memos = db.get_memos(user_id).unwrap();
    assert_eq!(memos.len(), 2);
}

#[test]
fn test_get_memos_other_user_not_visible() {
    let db = setup_db();
    let user1 = create_user(&db);
    let hash = "hash".to_string();
    let user2 = db.create_user("user2", &hash).unwrap();
    db.create_memo(user1, "T1", "C1", "private", None).unwrap();
    let memos = db.get_memos(user2).unwrap();
    assert!(memos.is_empty());
}

#[test]
fn test_get_memo_by_id() {
    let db = setup_db();
    let user_id = create_user(&db);
    let id = db.create_memo(user_id, "Title", "Content", "private", None).unwrap();
    let memo = db.get_memo_by_id(id, user_id).unwrap().unwrap();
    assert_eq!(memo.0, id);
    assert_eq!(memo.1, "Title");
    assert_eq!(memo.2, "Content");
    assert_eq!(memo.3, "private");
}

#[test]
fn test_get_memo_by_id_not_found() {
    let db = setup_db();
    assert!(db.get_memo_by_id(999, 1).unwrap().is_none());
}

#[test]
fn test_get_memo_by_id_wrong_user() {
    let db = setup_db();
    let user1 = create_user(&db);
    let hash = "hash".to_string();
    let user2 = db.create_user("user2", &hash).unwrap();
    let id = db.create_memo(user1, "T", "C", "private", None).unwrap();
    assert!(db.get_memo_by_id(id, user2).unwrap().is_none());
}

#[test]
fn test_update_memo() {
    let db = setup_db();
    let user_id = create_user(&db);
    let id = db.create_memo(user_id, "Old", "Old content", "private", None).unwrap();
    db.update_memo(id, user_id, "Updated content").unwrap();
    let memo = db.get_memo_by_id(id, user_id).unwrap().unwrap();
    assert_eq!(memo.2, "Updated content");
}

#[test]
fn test_update_memo_wrong_user_noop() {
    let db = setup_db();
    let user1 = create_user(&db);
    let hash = "hash".to_string();
    let user2 = db.create_user("user2", &hash).unwrap();
    let id = db.create_memo(user1, "T", "C", "private", None).unwrap();
    db.update_memo(id, user2, "new").unwrap();
    let memo = db.get_memo_by_id(id, user1).unwrap().unwrap();
    assert_eq!(memo.2, "C");
}

#[test]
fn test_delete_memo() {
    let db = setup_db();
    let user_id = create_user(&db);
    let id = db.create_memo(user_id, "T", "C", "private", None).unwrap();
    db.delete_memo(id, user_id).unwrap();
    assert!(db.get_memo_by_id(id, user_id).unwrap().is_none());
}

#[test]
fn test_delete_memo_wrong_user_fails() {
    let db = setup_db();
    let user1 = create_user(&db);
    let hash = "hash".to_string();
    let user2 = db.create_user("user2", &hash).unwrap();
    let id = db.create_memo(user1, "T", "C", "private", None).unwrap();
    let result = db.delete_memo(id, user2);
    assert!(result.is_ok());
}

#[test]
fn test_get_memos_paginated() {
    let db = setup_db();
    let user_id = create_user(&db);
    for i in 0..5 {
        db.create_memo(user_id, &format!("T{}", i), &format!("C{}", i), "private", None).unwrap();
    }
    let page1 = db.get_memos_paginated(user_id, 3, 0).unwrap();
    assert_eq!(page1.len(), 3);
    let page2 = db.get_memos_paginated(user_id, 3, 3).unwrap();
    assert_eq!(page2.len(), 2);
}

#[test]
fn test_sidebar_memos_limit() {
    let db = setup_db();
    let user_id = create_user(&db);
    for i in 0..10 {
        db.create_memo(user_id, &format!("T{}", i), &format!("C{}", i), "private", None).unwrap();
    }
    let memos = db.get_sidebar_memos(user_id, 5).unwrap();
    assert_eq!(memos.len(), 5);
}


#[test]
fn test_update_memo_visibility() {
    let db = setup_db();
    let user_id = create_user(&db);
    let id = db.create_memo(user_id, "T", "C", "private", None).unwrap();
    db.update_memo_visibility(id, user_id, "public", None).unwrap();
    let memo = db.get_memo_by_id(id, user_id).unwrap().unwrap();
    assert_eq!(memo.3, "public");
}

#[test]
fn test_get_memo_has_password() {
    let db = setup_db();
    let user_id = create_user(&db);
    let id = db.create_memo(user_id, "T", "C", "protected", Some("hash")).unwrap();
    assert!(db.get_memo_has_password(id, user_id));
}

#[test]
fn test_get_memo_has_no_password() {
    let db = setup_db();
    let user_id = create_user(&db);
    let id = db.create_memo(user_id, "T", "C", "private", None).unwrap();
    assert!(!db.get_memo_has_password(id, user_id));
}

#[test]
fn test_get_memo_has_password_not_found() {
    let db = setup_db();
    assert!(!db.get_memo_has_password(999, 1));
}

#[test]
fn test_get_memo_public() {
    let db = setup_db();
    let user_id = create_user(&db);
    let id = db.create_memo(user_id, "T", "C", "public", None).unwrap();
    let memo = db.get_memo_public(id).unwrap().unwrap();
    assert_eq!(memo.0, id);
    assert_eq!(memo.7, "testuser");
}

#[test]
fn test_get_memo_public_not_found() {
    let db = setup_db();
    assert!(db.get_memo_public(999).unwrap().is_none());
}


#[test]
fn test_set_and_get_memo_tags() {
    let db = setup_db();
    let user_id = create_user(&db);
    let id = db.create_memo(user_id, "T", "C", "private", None).unwrap();
    db.set_memo_tags(id, &["rust".to_string(), "test".to_string()]).unwrap();
    let tags = db.get_memo_tags(id).unwrap();
    assert_eq!(tags.len(), 2);
    assert!(tags.contains(&"rust".to_string()));
    assert!(tags.contains(&"test".to_string()));
}

#[test]
fn test_set_memo_tags_replaces_old() {
    let db = setup_db();
    let user_id = create_user(&db);
    let id = db.create_memo(user_id, "T", "C", "private", None).unwrap();
    db.set_memo_tags(id, &["old".to_string()]).unwrap();
    db.set_memo_tags(id, &["new".to_string()]).unwrap();
    let tags = db.get_memo_tags(id).unwrap();
    assert_eq!(tags, vec!["new".to_string()]);
}

#[test]
fn test_get_user_tags() {
    let db = setup_db();
    let user_id = create_user(&db);
    let id1 = db.create_memo(user_id, "T1", "C1 #rust", "private", None).unwrap();
    let id2 = db.create_memo(user_id, "T2", "C2 #rust #web", "private", None).unwrap();
    db.set_memo_tags(id1, &["rust".to_string()]).unwrap();
    db.set_memo_tags(id2, &["rust".to_string(), "web".to_string()]).unwrap();
    let tags = db.get_user_tags(user_id).unwrap();
    assert_eq!(tags.len(), 2);
    let rust_count = tags.iter().find(|(n, _)| n == "rust").map(|(_, c)| *c).unwrap();
    assert_eq!(rust_count, 2);
}

#[test]
fn test_get_memos_by_tag() {
    let db = setup_db();
    let user_id = create_user(&db);
    let id = db.create_memo(user_id, "T", "C", "private", None).unwrap();
    db.set_memo_tags(id, &["rust".to_string()]).unwrap();
    let memos = db.get_memos_by_tag(user_id, "rust").unwrap();
    assert_eq!(memos.len(), 1);
    let memos_empty = db.get_memos_by_tag(user_id, "nonexistent").unwrap();
    assert!(memos_empty.is_empty());
}

#[test]
fn test_get_memo_tags_empty() {
    let db = setup_db();
    let user_id = create_user(&db);
    let id = db.create_memo(user_id, "T", "C", "private", None).unwrap();
    let tags = db.get_memo_tags(id).unwrap();
    assert!(tags.is_empty());
}


#[test]
fn test_search_memos() {
    let db = setup_db();
    let user_id = create_user(&db);
    db.create_memo(user_id, "Shopping", "Buy milk and eggs", "private", None).unwrap();
    db.create_memo(user_id, "Rust", "Learn Rust programming", "private", None).unwrap();
    let results = db.search_memos(user_id, "Rust").unwrap();
    assert_eq!(results.len(), 1);
    assert_eq!(results[0].1, "Rust");
}

#[test]
fn test_search_memos_no_results() {
    let db = setup_db();
    let user_id = create_user(&db);
    db.create_memo(user_id, "T", "C", "private", None).unwrap();
    let results = db.search_memos(user_id, "zzzzz").unwrap();
    assert!(results.is_empty());
}

#[test]
fn test_search_memos_empty_query() {
    let db = setup_db();
    let user_id = create_user(&db);
    db.create_memo(user_id, "T", "C", "private", None).unwrap();
    let results = db.search_memos(user_id, "").unwrap();
    assert_eq!(results.len(), 1);
}


#[test]
fn test_get_memos_by_date() {
    let db = setup_db();
    let user_id = create_user(&db);
    let id = db.create_memo(user_id, "T", "C", "private", None).unwrap();
    let memo = db.get_memo_by_id(id, user_id).unwrap().unwrap();
    let date = memo.4[..10].to_string();
    let memos = db.get_memos_by_date(user_id, &date).unwrap();
    assert_eq!(memos.len(), 1);
}

#[test]
fn test_get_memos_by_date_no_match() {
    let db = setup_db();
    let user_id = create_user(&db);
    db.create_memo(user_id, "T", "C", "private", None).unwrap();
    let memos = db.get_memos_by_date(user_id, "2099-01-01").unwrap();
    assert!(memos.is_empty());
}

#[test]
fn test_get_memo_dates_in_month() {
    let db = setup_db();
    let user_id = create_user(&db);
    db.create_memo(user_id, "T", "C", "private", None).unwrap();
    let now = chrono::Utc::now();
    let dates = db.get_memo_dates_in_month(user_id, now.year(), now.month()).unwrap();
    assert_eq!(dates.len(), 1);
}

#[test]
fn test_get_memo_dates_in_month_empty() {
    let db = setup_db();
    let user_id = create_user(&db);
    let dates = db.get_memo_dates_in_month(user_id, 2000, 1).unwrap();
    assert!(dates.is_empty());
}


#[test]
fn test_create_and_get_resource() {
    let db = setup_db();
    let user_id = create_user(&db);
    let id = db.create_resource(user_id, "file.txt", "original.txt", "text/plain", 1024).unwrap();
    let res = db.get_resource(id, user_id).unwrap().unwrap();
    assert_eq!(res.0, id);
    assert_eq!(res.1, "file.txt");
    assert_eq!(res.2, "original.txt");
    assert_eq!(res.3, "text/plain");
    assert_eq!(res.4, 1024);
}

#[test]
fn test_get_resource_not_found() {
    let db = setup_db();
    assert!(db.get_resource(999, 1).unwrap().is_none());
}

#[test]
fn test_get_resource_wrong_user() {
    let db = setup_db();
    let user1 = create_user(&db);
    let hash = "hash".to_string();
    let user2 = db.create_user("user2", &hash).unwrap();
    let id = db.create_resource(user1, "f.txt", "o.txt", "text/plain", 100).unwrap();
    assert!(db.get_resource(id, user2).unwrap().is_none());
}

#[test]
fn test_get_resource_public() {
    let db = setup_db();
    let user_id = create_user(&db);
    let id = db.create_resource(user_id, "f.txt", "o.txt", "text/plain", 100).unwrap();
    let res = db.get_resource_public(id).unwrap().unwrap();
    assert_eq!(res.0, id);
    assert_eq!(res.5, user_id);
}

#[test]
fn test_get_resource_public_not_found() {
    let db = setup_db();
    assert!(db.get_resource_public(999).unwrap().is_none());
}

#[test]
fn test_get_resources_paginated() {
    let db = setup_db();
    let user_id = create_user(&db);
    for i in 0..5 {
        db.create_resource(user_id, &format!("f{}.txt", i), "o.txt", "text/plain", i).unwrap();
    }
    let page1 = db.get_resources_paginated(user_id, 3, 0).unwrap();
    assert_eq!(page1.len(), 3);
    let page2 = db.get_resources_paginated(user_id, 3, 3).unwrap();
    assert_eq!(page2.len(), 2);
}

#[test]
fn test_delete_resource() {
    let db = setup_db();
    let user_id = create_user(&db);
    let id = db.create_resource(user_id, "f.txt", "o.txt", "text/plain", 100).unwrap();
    db.delete_resource(id, user_id).unwrap();
    assert!(db.get_resource(id, user_id).unwrap().is_none());
}

#[test]
fn test_get_memos_referencing_resource() {
    let db = setup_db();
    let user_id = create_user(&db);
    let res_id = db.create_resource(user_id, "f.txt", "o.txt", "text/plain", 100).unwrap();
    db.create_memo(user_id, "T", &format!("See [file](/resources/{})", res_id), "private", None).unwrap();
    let memos = db.get_memos_referencing_resource(&format!("/resources/{}", res_id)).unwrap();
    assert_eq!(memos.len(), 1);
}

#[test]
fn test_get_memos_referencing_resource_empty() {
    let db = setup_db();
    let memos = db.get_memos_referencing_resource("/resources/999").unwrap();
    assert!(memos.is_empty());
}


#[test]
fn test_rate_limits_basic() {
    let db = setup_db();
    let key = "127.0.0.1";
    assert!(db.check_and_record_rate_limit(key, "test", 3, 10).unwrap());
    assert!(db.check_and_record_rate_limit(key, "test", 3, 10).unwrap());
    assert!(db.check_and_record_rate_limit(key, "test", 3, 10).unwrap());
    assert!(!db.check_and_record_rate_limit(key, "test", 3, 10).unwrap());
    assert!(db.check_and_record_rate_limit(key, "other_action", 3, 10).unwrap());
    assert!(db.check_and_record_rate_limit("192.168.1.1", "test", 3, 10).unwrap());
}

#[test]
fn test_rate_limits_limit_of_one() {
    let db = setup_db();
    assert!(db.check_and_record_rate_limit("ip", "login", 1, 10).unwrap());
    assert!(!db.check_and_record_rate_limit("ip", "login", 1, 10).unwrap());
}

#[test]
fn test_rate_limits_zero_limit() {
    let db = setup_db();
    assert!(!db.check_and_record_rate_limit("ip", "test", 0, 10).unwrap());
}

#[test]
fn test_rate_limits_multiple_actions_independent() {
    let db = setup_db();
    let key = "127.0.0.1";
    assert!(db.check_and_record_rate_limit(key, "login", 1, 10).unwrap());
    assert!(!db.check_and_record_rate_limit(key, "login", 1, 10).unwrap());
    assert!(db.check_and_record_rate_limit(key, "signup", 1, 10).unwrap());
    assert!(!db.check_and_record_rate_limit(key, "signup", 1, 10).unwrap());
}

#[test]
fn test_rate_limits_different_keys_independent() {
    let db = setup_db();
    assert!(db.check_and_record_rate_limit("ip1", "test", 1, 10).unwrap());
    assert!(!db.check_and_record_rate_limit("ip1", "test", 1, 10).unwrap());
    assert!(db.check_and_record_rate_limit("ip2", "test", 1, 10).unwrap());
}

#[test]
fn test_rate_limits_negative_window() {
    let db = setup_db();
    assert!(db.check_and_record_rate_limit("ip", "test", 1, -1).unwrap());
    assert!(db.check_and_record_rate_limit("ip", "test", 1, -1).unwrap());
}
