use minimamemosa::content::{
    avatar_char, extract_first_image_id, extract_tags, extract_title, format_bytes,
    get_month_name, strip_html, uuid_v4,
};

// ── format_bytes Tests ──

#[test]
fn test_format_bytes_zero() {
    assert_eq!(format_bytes(0), "0 Bytes");
}

#[test]
fn test_format_bytes_bytes() {
    assert_eq!(format_bytes(500), "500.0 Bytes");
}

#[test]
fn test_format_bytes_kb() {
    assert_eq!(format_bytes(2048), "2.0 KB");
}

#[test]
fn test_format_bytes_mb() {
    assert_eq!(format_bytes(1048576), "1.0 MB");
}

#[test]
fn test_format_bytes_gb() {
    assert_eq!(format_bytes(1073741824), "1.0 GB");
}

#[test]
fn test_format_bytes_rounding() {
    assert_eq!(format_bytes(1536), "1.5 KB");
}

#[test]
fn test_format_bytes_one_byte() {
    assert_eq!(format_bytes(1), "1.0 Bytes");
}

#[test]
fn test_format_bytes_negative() {
    let result = format_bytes(-100);
    assert!(result.contains("-"));
}

// ── strip_html Tests ──

#[test]
fn test_strip_html_simple() {
    assert_eq!(strip_html("<p>hello</p>"), "\nhello\n");
}

#[test]
fn test_strip_html_no_tags() {
    assert_eq!(strip_html("hello world"), "hello world");
}

#[test]
fn test_strip_html_nested() {
    assert_eq!(strip_html("<div><p>text</p></div>"), "\ntext\n\n");
}

#[test]
fn test_strip_html_br() {
    let result = strip_html("line1<br>line2");
    assert_eq!(result, "line1\nline2");
}

#[test]
fn test_strip_html_self_closing() {
    let result = strip_html("<p>a</p><br/><p>b</p>");
    assert_eq!(result, "\na\n\n\nb\n");
}

#[test]
fn test_strip_html_empty() {
    assert_eq!(strip_html(""), "");
}

#[test]
fn test_strip_html_only_tags() {
    assert_eq!(strip_html("<p></p>"), "\n\n");
}

// ── extract_title Tests ──

#[test]
fn test_extract_title_plain_text() {
    let (title, content) = extract_title("Hello world\nsecond line");
    assert_eq!(title, "Hello world");
    assert_eq!(content, "Hello world\nsecond line");
}

#[test]
fn test_extract_title_markdown_heading() {
    let (title, _content) = extract_title("## Hello world\ncontent");
    assert_eq!(title, "Hello world");
}

#[test]
fn test_extract_title_with_bold() {
    let (title, _) = extract_title("**Bold Title**");
    assert_eq!(title, "Bold Title**");
}

#[test]
fn test_extract_title_empty_content() {
    let (title, content) = extract_title("");
    assert_eq!(title, "Note");
    assert_eq!(content, "");
}

#[test]
fn test_extract_title_only_newlines() {
    let (title, _) = extract_title("\n\n\n");
    assert_eq!(title, "Note");
}

#[test]
fn test_extract_title_whitespace() {
    let (title, _) = extract_title("   ");
    assert_eq!(title, "Note");
}

#[test]
fn test_extract_title_html_content() {
    let (title, _) = extract_title("<p>Hello world</p>");
    assert_eq!(title, "Hello world");
}

#[test]
fn test_extract_title_special_chars() {
    let (title, _) = extract_title("___Title___");
    assert_eq!(title, "Title___");
}

#[test]
fn test_extract_title_returns_trimmed_content() {
    let (_, content) = extract_title("  hello  ");
    assert_eq!(content, "hello");
}

#[test]
fn test_extract_title_multiline_first_line() {
    let (title, _) = extract_title("First line\nSecond line");
    assert_eq!(title, "First line");
}

// ── extract_tags Tests ──

#[test]
fn test_extract_tags_simple() {
    let tags = extract_tags("hello #world this is #rust");
    assert_eq!(tags, vec!["rust".to_string(), "world".to_string()]);
}

#[test]
fn test_extract_tags_first_in_html() {
    let tags = extract_tags("<p>#abc #xyz</p>");
    assert_eq!(tags, vec!["abc".to_string(), "xyz".to_string()]);
    
    let tags2 = extract_tags("<div>&nbsp;#abc #xyz</div>");
    assert_eq!(tags2, vec!["abc".to_string(), "xyz".to_string()]);
}

#[test]
fn test_extract_tags_nested_unclosed_html() {
    let tags = extract_tags("Detect if any error using\n${{<%[%'\"}}%\\\n#portswigger #ssti");
    assert_eq!(tags, vec!["portswigger".to_string(), "ssti".to_string()]);
    
    let tags2 = extract_tags("<p>Detect<br/>${{<%[%'\"}}%\\<br/>#portswigger #ssti</p>");
    assert_eq!(tags2, vec!["portswigger".to_string(), "ssti".to_string()]);
}

#[test]
fn test_extract_tags_no_tags() {
    let tags: Vec<String> = extract_tags("hello world");
    assert!(tags.is_empty());
}

#[test]
fn test_extract_tags_duplicate_dedup() {
    let tags = extract_tags("#rust #rust #RUST");
    assert_eq!(tags, vec!["rust".to_string()]);
}

#[test]
fn test_extract_tags_with_underscore() {
    let tags = extract_tags("#my_tag");
    assert_eq!(tags, vec!["my_tag".to_string()]);
}

#[test]
fn test_extract_tags_with_hyphen() {
    let tags = extract_tags("#my-tag");
    assert_eq!(tags, vec!["my-tag".to_string()]);
}

#[test]
fn test_extract_tags_numbers() {
    let tags = extract_tags("#tag123");
    assert_eq!(tags, vec!["tag123".to_string()]);
}

#[test]
fn test_extract_tags_hash_no_name() {
    let tags: Vec<String> = extract_tags("#");
    assert!(tags.is_empty());
}

#[test]
fn test_extract_tags_hash_mid_word() {
    let tags: Vec<String> = extract_tags("abc#def");
    assert!(tags.is_empty());
}

#[test]
fn test_extract_tags_parenthesized() {
    let tags = extract_tags("(#tag)");
    assert_eq!(tags, vec!["tag".to_string()]);
}

#[test]
fn test_extract_tags_empty_content() {
    let tags: Vec<String> = extract_tags("");
    assert!(tags.is_empty());
}

#[test]
fn test_extract_tags_sorted() {
    let tags = extract_tags("#zebra #apple #banana");
    assert_eq!(tags, vec!["apple", "banana", "zebra"]);
}

#[test]
fn test_extract_tags_escaped_and_trailing_underscore() {
    // Turndown will escape a hashtag at the start of a block like \n\#pentest
    // We should extract pentest correctly, and strip trailing underscores like methodology_
    let tags = extract_tags("\\#pentest #bugbounty #methodology_");
    assert_eq!(tags, vec!["bugbounty", "methodology", "pentest"]);
}

// ── avatar_char Tests ──

#[test]
fn test_avatar_char_lowercase() {
    assert_eq!(avatar_char("alice"), "A");
}

#[test]
fn test_avatar_char_uppercase() {
    assert_eq!(avatar_char("Bob"), "B");
}

#[test]
fn test_avatar_char_empty() {
    assert_eq!(avatar_char(""), "?");
}

#[test]
fn test_avatar_char_numbers() {
    assert_eq!(avatar_char("123"), "1");
}

#[test]
fn test_avatar_char_unicode() {
    assert_eq!(avatar_char("ñoño").chars().count(), 1);
}

// ── get_month_name Tests ──

#[test]
fn test_get_month_name_all() {
    assert_eq!(get_month_name(1), "January");
    assert_eq!(get_month_name(2), "February");
    assert_eq!(get_month_name(3), "March");
    assert_eq!(get_month_name(4), "April");
    assert_eq!(get_month_name(5), "May");
    assert_eq!(get_month_name(6), "June");
    assert_eq!(get_month_name(7), "July");
    assert_eq!(get_month_name(8), "August");
    assert_eq!(get_month_name(9), "September");
    assert_eq!(get_month_name(10), "October");
    assert_eq!(get_month_name(11), "November");
    assert_eq!(get_month_name(12), "December");
}

#[test]
fn test_get_month_name_invalid() {
    assert_eq!(get_month_name(0), "Unknown");
    assert_eq!(get_month_name(13), "Unknown");
}

// ── extract_first_image_id Tests ──

#[test]
fn test_extract_first_image_id_found() {
    let content = "text ![alt](/resources/42) more text";
    assert_eq!(extract_first_image_id(content), Some(42));
}

#[test]
fn test_extract_first_image_id_no_image() {
    let content = "no image here";
    assert_eq!(extract_first_image_id(content), None);
}

#[test]
fn test_extract_first_image_id_multiple() {
    let content = "![a](/resources/1) ![b](/resources/2)";
    assert_eq!(extract_first_image_id(content), Some(1));
}

#[test]
fn test_extract_first_image_id_non_numeric() {
    let content = "![a](/resources/abc)";
    assert_eq!(extract_first_image_id(content), None);
}

#[test]
fn test_extract_first_image_id_no_closing_paren() {
    let content = "![a](/resources/42";
    assert_eq!(extract_first_image_id(content), None);
}

#[test]
fn test_extract_first_image_id_empty() {
    assert_eq!(extract_first_image_id(""), None);
}

// ── uuid_v4 Tests ──

#[test]
fn test_uuid_v4_format() {
    let id = uuid_v4();
    assert!(!id.is_empty());
    assert_eq!(id.len(), 32);
    assert!(id.chars().all(|c| c.is_ascii_hexdigit()));
}

#[test]
fn test_uuid_v4_unique() {
    let a = uuid_v4();
    let b = uuid_v4();
    assert_ne!(a, b);
}

#[test]
fn test_uuid_v4_hex_only() {
    let id = uuid_v4();
    assert!(id.chars().all(|c| matches!(c, '0'..='9' | 'a'..='f')));
}

