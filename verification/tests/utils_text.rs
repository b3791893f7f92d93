use authcore::utils::{
    clamp, decode_base64, encode_base64, extract_domain, format_duration, format_file_size,
    generate_random_string, generate_slug, is_valid_email, is_valid_url, mask_credit_card,
    mask_email, parse_query_string, sanitize_filename, sanitize_html, time_ago_at,
    truncate_string,
};

#[test]
fn test_generate_slug() {
    assert_eq!(generate_slug("Hello World!"), "hello-world");
    assert_eq!(generate_slug("  Multiple   Spaces  "), "multiple-spaces");
    assert_eq!(generate_slug("Special@#$Characters"), "special-characters");
}

#[test]
fn test_is_valid_email() {
    assert!(is_valid_email("test@example.com"));
    assert!(is_valid_email("user.name@domain.co.uk"));
    assert!(!is_valid_email("invalid-email"));
    assert!(!is_valid_email("@nodomain.com"));
}

#[test]
fn test_format_file_size() {
    assert_eq!(format_file_size(500), "500 bytes");
    assert_eq!(format_file_size(1024), "1.00 KB");
    assert_eq!(format_file_size(1048576), "1.00 MB");
    assert_eq!(format_file_size(1073741824), "1.00 GB");
}

#[test]
fn format_file_size_boundaries() {
    assert_eq!(format_file_size(0), "0 bytes");
    assert_eq!(format_file_size(1023), "1023 bytes");
    assert_eq!(format_file_size(1536), "1.50 KB");
    assert_eq!(format_file_size(1048575), "1024.00 KB");
}

#[test]
fn test_mask_email() {
    assert_eq!(mask_email("test@example.com"), "t**t@example.com");
    assert_eq!(mask_email("ab@example.com"), "**@example.com");
}

#[test]
fn mask_email_odd_shapes() {
    assert_eq!(mask_email("no-at-sign"), "no-at-sign");
    assert_eq!(mask_email("two@at@signs"), "two@at@signs");
    assert_eq!(mask_email("a@b"), "*@b");
}

#[test]
fn mask_email_counts_bytes() {
    // "a\u{e9}a" is four bytes: first and last kept, two asterisks between
    assert_eq!(mask_email("a\u{e9}a@example.com"), "a**a@example.com");
    // a single two-byte character vanishes into two asterisks
    assert_eq!(mask_email("\u{e9}@example.com"), "**@example.com");
}

#[test]
fn test_mask_credit_card() {
    assert_eq!(mask_credit_card("4111111111111111"), "****-****-****-1111");
    assert_eq!(mask_credit_card("4111-1111-1111-1111"), "****-****-****-1111");
}

#[test]
fn mask_credit_card_short_input() {
    assert_eq!(mask_credit_card("12"), "**");
    assert_eq!(mask_credit_card("no digits"), "");
}

#[test]
fn truncate_string_cases() {
    assert_eq!(truncate_string("short", 10), "short");
    assert_eq!(truncate_string("exactly-10", 10), "exactly-10");
    assert_eq!(truncate_string("a longer sentence", 10), "a longe...");
    assert_eq!(truncate_string("abcdef", 2), "...");
}

#[test]
fn truncate_string_measures_bytes() {
    // two characters, four bytes: over a three-byte limit, under four
    assert_eq!(truncate_string("\u{e9}\u{e9}", 3), "...");
    assert_eq!(truncate_string("\u{e9}\u{e9}", 4), "\u{e9}\u{e9}");
    // the cut falls on a character boundary here: one byte kept
    assert_eq!(truncate_string("ab\u{e9}c", 4), "a...");
    // a cut inside a character moves back to the boundary before it
    assert_eq!(truncate_string("\u{e9}\u{e9}\u{e9}", 4), "...");
}

#[test]
fn sanitize_html_escapes_markup() {
    assert_eq!(
        sanitize_html("<a href=\"x\">&'</a>"),
        "&lt;a href=&quot;x&quot;&gt;&amp;&#x27;&lt;/a&gt;"
    );
    assert_eq!(sanitize_html("plain text"), "plain text");
}

#[test]
fn sanitize_filename_keeps_safe_characters() {
    assert_eq!(sanitize_filename("report-2024.final_v2.pdf"), "report-2024.final_v2.pdf");
    assert_eq!(sanitize_filename("a b/c\\d"), "a_b_c_d");
}

#[test]
fn clamp_orders_bounds() {
    assert_eq!(clamp(5, 0, 10), 5);
    assert_eq!(clamp(-5, 0, 10), 0);
    assert_eq!(clamp(15, 0, 10), 10);
}

#[test]
fn random_string_has_requested_length() {
    assert_eq!(generate_random_string(0).len(), 0);
    let s = generate_random_string(24);
    assert_eq!(s.chars().count(), 24);
    assert!(s.chars().all(|c| c.is_ascii_alphanumeric()));
}

#[test]
fn format_duration_units() {
    assert_eq!(format_duration(45), "45s");
    assert_eq!(format_duration(125), "2m 5s");
    assert_eq!(format_duration(3725), "1h 2m 5s");
    assert_eq!(format_duration(0), "0s");
    assert_eq!(format_duration(-40), "-40s");
}

#[test]
fn time_ago_phrases() {
    let now = 1_700_000_000;
    assert_eq!(time_ago_at(now - 30, now), "just now");
    assert_eq!(time_ago_at(now + 500, now), "just now");
    assert_eq!(time_ago_at(now - 90, now), "1 minute ago");
    assert_eq!(time_ago_at(now - 7200, now), "2 hours ago");
    assert_eq!(time_ago_at(now - 3 * 86400, now), "3 days ago");
    assert_eq!(time_ago_at(now - 70 * 86400, now), "2 months ago");
    assert_eq!(time_ago_at(now - 800 * 86400, now), "2 years ago");
}

#[test]
fn base64_roundtrip() {
    assert_eq!(encode_base64(b"hi"), "aGk=");
    assert_eq!(decode_base64("aGk=").unwrap(), b"hi");
    assert!(decode_base64("not base64!").is_err());
    assert!(decode_base64("aGk").is_err());
}

#[test]
fn url_inspection() {
    assert!(is_valid_url("https://example.com/path?q=1"));
    assert!(!is_valid_url("not a url"));
    assert_eq!(
        extract_domain("https://api.example.com/v1").as_deref(),
        Some("api.example.com")
    );
    assert_eq!(extract_domain("mailto:user@example.com"), None);
    assert_eq!(extract_domain("::"), None);
}

fn pairs(raw: &[(&str, &str)]) -> Vec<(String, String)> {
    raw.iter().map(|(k, v)| (k.to_string(), v.to_string())).collect()
}

#[test]
fn parse_query_string_splits_and_decodes() {
    assert_eq!(parse_query_string("a=1&b=two"), pairs(&[("a", "1"), ("b", "two")]));
    assert_eq!(
        parse_query_string("name=John%20Doe&x=%26"),
        pairs(&[("name", "John Doe"), ("x", "&")])
    );
    assert_eq!(parse_query_string("flag&k=v"), pairs(&[("flag", ""), ("k", "v")]));
    assert_eq!(parse_query_string("k=a=b"), pairs(&[("k", "a=b")]));
    assert_eq!(parse_query_string(""), pairs(&[("", "")]));
    // pairs come back in order, duplicates included
    assert_eq!(parse_query_string("a=1&a=2"), pairs(&[("a", "1"), ("a", "2")]));
    // a half that does not decode drops its pair
    assert_eq!(parse_query_string("k=v&%FF=x"), pairs(&[("k", "v")]));
}
