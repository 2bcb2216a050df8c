use minimamemosa::content::{extract_first_image_id, extract_tags, format_bytes, strip_html, uuid_from_nanos};

fn float_format_bytes(bytes: i64) -> String {
    if bytes == 0 {
        return "0 Bytes".to_string();
    }
    let k = 1024.0f64;
    let sizes = ["Bytes", "KB", "MB", "GB"];
    let i = (bytes as f64).log(k).floor() as usize;
    let i = std::cmp::min(i, sizes.len() - 1);
    let val = (bytes as f64) / k.powi(i as i32);
    format!("{:.1} {}", val, sizes[i])
}

#[test]
fn format_bytes_agrees_with_float_division() {
    let mut samples: Vec<i64> = vec![
        1, 2, 1023, 1024, 1025, 1280, 1126, 1177, 3584, 1048575, 1048576, 1048577,
        1073741823, 1073741824, 1073741825, 5368709120, -1, -100, -1024, -5000,
        9007199254740991, 9007199254740993, 9007199254740995, i64::MAX, i64::MIN,
        -9007199254740993, 123456789012345, 4611686018427387905,
    ];
    for k in 0..2000i64 {
        samples.push(k * 37 + 1);
        samples.push(k * 524288 + 1023);
        samples.push(k * 1099511627 + 7);
    }
    for b in samples {
        assert_eq!(format_bytes(b), float_format_bytes(b), "bytes = {}", b);
    }
}

#[test]
fn format_bytes_tie_rounds_to_even() {
    // 1280 / 1024 = 1.25 exactly
    assert_eq!(format_bytes(1280), "1.2 KB");
    // 1408 / 1024 = 1.375 exactly
    assert_eq!(format_bytes(1408), "1.4 KB");
}

#[test]
fn strip_html_keeps_stray_angle_brackets() {
    assert_eq!(strip_html("a > b"), "a > b");
    assert_eq!(strip_html("a < b < c"), "a < b < c");
    assert_eq!(strip_html("<h1>T</h1>x"), "\nT\nx");
    assert_eq!(strip_html("<br class=x>y"), "\ny");
    assert_eq!(strip_html("<span>z</span>"), "z");
}

#[test]
fn extract_first_image_id_signed_numbers() {
    assert_eq!(extract_first_image_id("![a](/resources/+5)"), Some(5));
    assert_eq!(extract_first_image_id("![a](/resources/-3)"), Some(-3));
    assert_eq!(extract_first_image_id("![a](/resources/x) ![b](/resources/7)"), Some(7));
    assert_eq!(extract_first_image_id("![a](/resources/99999999999999999999)"), None);
}

#[test]
fn extract_tags_ends_tag_at_other_chars() {
    assert_eq!(extract_tags("#a#b"), vec!["a".to_string()]);
    assert_eq!(extract_tags("#Straße"), vec!["straße".to_string()]);
    assert_eq!(extract_tags("#___"), Vec::<String>::new());
}

#[test]
fn uuid_from_nanos_is_two_padded_halves() {
    assert_eq!(uuid_from_nanos(0), "00000000000000000000000000000000");
    assert_eq!(uuid_from_nanos(255), "000000000000000000000000000000ff");
    assert_eq!(uuid_from_nanos((1u128 << 64) + 10), "0000000000000001000000000000000a");
}
