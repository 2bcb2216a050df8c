use minimamemosa::attachments::process_memo_content;
use minimamemosa::calendar::{generate_calendar, get_date_label, relative_time};
use minimamemosa::db::Database;
use minimamemosa::render::render_markdown;
use minimamemosa::request::get_client_ip;

fn utc_text(t: chrono::DateTime<chrono::Utc>) -> String {
    t.format("%Y-%m-%d %H:%M:%S").to_string()
}

#[test]
fn test_relative_time_seconds() {
    let now = utc_text(chrono::Utc::now());
    let result = relative_time(&now);
    assert_eq!(result, "0s");
}

#[test]
fn test_relative_time_minutes() {
    let past = utc_text(chrono::Utc::now() - chrono::Duration::minutes(5));
    let result = relative_time(&past);
    assert_eq!(result, "5m");
}

#[test]
fn test_relative_time_hours() {
    let past = utc_text(chrono::Utc::now() - chrono::Duration::hours(3));
    let result = relative_time(&past);
    assert_eq!(result, "3h");
}

#[test]
fn test_relative_time_yesterday() {
    let past = utc_text(chrono::Utc::now() - chrono::Duration::hours(25));
    let result = relative_time(&past);
    assert_eq!(result, "yesterday");
}

#[test]
fn test_relative_time_days() {
    let past = utc_text(chrono::Utc::now() - chrono::Duration::days(5));
    assert_eq!(relative_time(&past), "5d");
}

#[test]
fn test_relative_time_future() {
    let future = utc_text(chrono::Utc::now() + chrono::Duration::hours(1));
    let result = relative_time(&future);
    assert_eq!(result, "0s");
}

#[test]
fn test_relative_time_invalid_format() {
    let result = relative_time("not-a-date");
    assert_eq!(result, "not-a-date");
}

#[test]
fn test_relative_time_empty() {
    assert_eq!(relative_time(""), "");
}

#[test]
fn test_get_date_label_today() {
    let today = chrono::Utc::now().format("%Y-%m-%d").to_string();
    assert_eq!(get_date_label(&today), "Today");
}

#[test]
fn test_get_date_label_yesterday() {
    let yesterday = (chrono::Utc::now() - chrono::Duration::days(1)).format("%Y-%m-%d").to_string();
    assert_eq!(get_date_label(&yesterday), "Yesterday");
}

#[test]
fn test_get_date_label_other_date() {
    let result = get_date_label("2024-01-15");
    assert_eq!(result, "Jan 15, 2024");
}

#[test]
fn test_get_date_label_invalid() {
    let result = get_date_label("not-a-date");
    assert_eq!(result, "not-a-date");
}

#[test]
fn test_get_date_label_empty() {
    assert_eq!(get_date_label(""), "");
}

#[test]
fn test_render_markdown_bold_text() {
    let result = render_markdown("**bold**");
    assert!(result.contains("<strong>bold</strong>"));
}

#[test]
fn test_render_markdown_italic_text() {
    let result = render_markdown("*italic*");
    assert!(result.contains("<em>italic</em>"));
}

#[test]
fn test_render_markdown_code_block() {
    let result = render_markdown("```rust\nfn main() {}\n```");
    assert!(result.contains("<code"));
    assert!(result.contains("fn main()"));
}

#[test]
fn test_render_markdown_link() {
    let result = render_markdown("[link](https://example.com)");
    assert!(result.contains("<a href=\"https://example.com\""));
}

#[test]
fn test_render_markdown_image() {
    let result = render_markdown("![alt](/image.png)");
    assert!(result.contains("<img src=\"/image.png\" alt=\"alt\""));
}

#[test]
fn test_render_markdown_heading() {
    let result = render_markdown("# Heading");
    assert!(result.contains("<h1>Heading</h1>"));
}

#[test]
fn test_render_markdown_list() {
    let result = render_markdown("- item\n- item2");
    assert!(result.contains("<ul>"));
    assert!(result.contains("<li>item</li>"));
}

#[test]
fn test_render_markdown_empty() {
    let result = render_markdown("");
    assert_eq!(result, "");
}

#[test]
fn test_render_markdown_paragraph() {
    let result = render_markdown("Hello world");
    assert!(result.contains("<p>Hello world</p>"));
}

#[test]
fn test_render_markdown_raw_html() {
    let result = render_markdown("<ins>inserted</ins>");
    assert!(result.contains("<ins>inserted</ins>"));
}

#[test]
fn test_render_markdown_nbsp_blank_lines() {
    let md = "Line 1\n\n&nbsp;\n\nLine 2";
    let html = render_markdown(md);
    assert!(html.contains("Line 1"), "Should contain Line 1");
    assert!(html.contains("Line 2"), "Should contain Line 2");
    let p_count = html.matches("<p>").count();
    assert_eq!(p_count, 3, "Expected 3 paragraphs, got {}: {}", p_count, html);
}

#[test]
fn test_render_markdown_multiple_nbsp_blank_lines() {
    let md = "Line 1\n\n&nbsp;\n\n&nbsp;\n\nLine 2";
    let html = render_markdown(md);
    let p_count = html.matches("<p>").count();
    assert_eq!(p_count, 4, "Expected 4 paragraphs, got {}: {}", p_count, html);
}

#[test]
fn test_render_markdown_complex_blank_lines() {
    let md = "Line 1\n\n&nbsp;\n\nLine 2\n\n&nbsp;\n\n&nbsp;\n\nLine 3";
    let html = render_markdown(md);
    let p_count = html.matches("<p>").count();
    assert_eq!(p_count, 6, "Expected 6 paragraphs (3 text + 3 nbsp), got {}: {}", p_count, html);
    assert!(html.contains("Line 1"));
    assert!(html.contains("Line 2"));
    assert!(html.contains("Line 3"));
}

#[test]
fn test_render_markdown_hard_breaks() {
    let md = "Line 1<br><br><br>Line 2";
    let html = render_markdown(md);
    println!("HTML for raw br: {}", html);
}

#[test]
fn test_get_client_ip_x_forwarded_for() {
    let ip = get_client_ip(Some("203.0.113.1, 10.0.0.1"), None, "127.0.0.1");
    assert_eq!(ip, "203.0.113.1");
}

#[test]
fn test_get_client_ip_x_real_ip() {
    let ip = get_client_ip(None, Some("203.0.113.2"), "127.0.0.1");
    assert_eq!(ip, "203.0.113.2");
}

#[test]
fn test_get_client_ip_fallback_to_socket() {
    let ip = get_client_ip(None, None, "10.0.0.5");
    assert_eq!(ip, "10.0.0.5");
}

#[test]
fn test_get_client_ip_xff_priority() {
    let ip = get_client_ip(Some("1.2.3.4"), Some("5.6.7.8"), "127.0.0.1");
    assert_eq!(ip, "1.2.3.4");
}

#[test]
fn test_get_client_ip_xff_empty_skips() {
    let ip = get_client_ip(Some(""), Some("10.0.0.1"), "127.0.0.1");
    assert_eq!(ip, "10.0.0.1");
}

#[test]
fn test_generate_calendar_structure() {
    let weeks = generate_calendar(2024, 1, &[], None);
    assert!(!weeks.is_empty());
    let week = &weeks[0];
    assert_eq!(week.len(), 7);
}

#[test]
fn test_generate_calendar_has_memos() {
    let weeks = generate_calendar(2024, 1, &["2024-01-15".to_string()], None);
    let has_marked = weeks.iter().any(|w| w.iter().any(|d| d.has_memos));
    assert!(has_marked);
}

#[test]
fn test_generate_calendar_no_memos() {
    let weeks = generate_calendar(2024, 1, &[], None);
    let has_any_memos = weeks.iter().any(|w| w.iter().any(|d| d.has_memos));
    assert!(!has_any_memos);
}

#[test]
fn test_generate_calendar_december() {
    let weeks = generate_calendar(2024, 12, &[], None);
    assert!(!weeks.is_empty());
}

#[test]
fn test_generate_calendar_padding_days() {
    let weeks = generate_calendar(2024, 1, &[], None);
    for w in &weeks {
        assert_eq!(w.len(), 7);
    }
}

#[test]
fn test_generate_calendar_selected_date() {
    let weeks = generate_calendar(2024, 1, &[], Some("2024-01-15"));
    let has_selected = weeks.iter().any(|w| w.iter().any(|d| d.is_selected));
    assert!(has_selected);
}

#[test]
fn test_process_memo_content_no_refs() {
    let db = Database::new(":memory:").unwrap();
    let (content, resources) = process_memo_content(&db, "Hello world");
    assert_eq!(content, "Hello world");
    assert!(resources.is_empty());
}

#[test]
fn test_process_memo_content_empty() {
    let db = Database::new(":memory:").unwrap();
    let (content, resources) = process_memo_content(&db, "");
    assert_eq!(content, "");
    assert!(resources.is_empty());
}

#[test]
fn test_process_memo_content_ref_not_found() {
    let db = Database::new(":memory:").unwrap();
    let (content, resources) = process_memo_content(&db, "see [file](/resources/999)");
    assert_eq!(content, "see");
    assert!(resources.is_empty());
}
