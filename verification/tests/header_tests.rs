use photofinish::header::parse_header;

fn pair(name: &str, value: &str) -> Option<(String, String)> {
    Some((name.to_string(), value.to_string()))
}

#[test]
fn parse_header_splits_at_the_first_colon() {
    assert_eq!(parse_header("X-Trace: abc"), pair("X-Trace", "abc"));
    assert_eq!(parse_header("Authorization: Bearer a:b"), pair("Authorization", "Bearer a:b"));
}

#[test]
fn parse_header_trims_spaces_and_tabs() {
    assert_eq!(parse_header(" \tKey \t:\t value  "), pair("Key", "value"));
    assert_eq!(parse_header("Key:"), pair("Key", ""));
    assert_eq!(parse_header("Key:   "), pair("Key", ""));
}

#[test]
fn parse_header_rejects_text_without_colon_or_name() {
    assert_eq!(parse_header("no colon here"), None);
    assert_eq!(parse_header(""), None);
    assert_eq!(parse_header(": value"), None);
    assert_eq!(parse_header("  \t: value"), None);
}

#[test]
fn parse_header_keeps_non_ascii_text() {
    assert_eq!(parse_header("Émoji: ✓ ok"), pair("Émoji", "✓ ok"));
}
