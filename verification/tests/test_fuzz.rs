use flood::fuzz::{
    build_data, build_headers, build_url, detect_fuzz_positions, fuzz_keywords, substitute,
    FuzzPosition,
};

#[test]
fn test_detect_single_fuzz_in_url() {
    let positions = detect_fuzz_positions("https://example.com/FUZZ", &[], &None);
    assert_eq!(positions.len(), 1);
    assert!(matches!(positions[0], FuzzPosition::Url(_)));
}

#[test]
fn test_detect_fuzz_in_header() {
    let positions = detect_fuzz_positions(
        "https://example.com",
        &["Host: FUZZ.example.com".to_string()],
        &None,
    );
    assert_eq!(positions.len(), 1);
    assert!(matches!(positions[0], FuzzPosition::Header(_, _)));
}

#[test]
fn test_detect_fuzz_in_data() {
    let positions = detect_fuzz_positions(
        "https://example.com/login",
        &[],
        &Some("user=admin&pass=FUZZ".to_string()),
    );
    assert_eq!(positions.len(), 1);
    assert!(matches!(positions[0], FuzzPosition::Data(_)));
}

#[test]
fn test_detect_multiple_positions() {
    let positions = detect_fuzz_positions("https://example.com/FUZZ/FUZ2Z", &[], &None);
    assert_eq!(positions.len(), 2);
}

#[test]
fn test_detect_no_fuzz_keyword() {
    let positions = detect_fuzz_positions("https://example.com/test", &[], &None);
    assert_eq!(positions.len(), 0);
}

#[test]
fn test_substitute_single() {
    let result = substitute("https://example.com/FUZZ", "admin", "FUZZ");
    assert_eq!(result, "https://example.com/admin");
}

#[test]
fn test_substitute_multiple_same_keyword() {
    let result = substitute("https://FUZZ.example.com/FUZZ", "test", "FUZZ");
    assert_eq!(result, "https://test.example.com/test");
}

#[test]
fn test_substitute_fuz2z() {
    let result = substitute("https://example.com/FUZZ/FUZ2Z", "index.php", "FUZ2Z");
    assert_eq!(result, "https://example.com/FUZZ/index.php");
}

#[test]
fn test_fuzz_keywords_list() {
    let keywords = fuzz_keywords(3);
    assert_eq!(keywords, vec!["FUZZ", "FUZ2Z", "FUZ3Z"]);
}

#[test]
fn keywords_are_capped_at_nine() {
    let keywords = fuzz_keywords(20);
    assert_eq!(keywords.len(), 9);
    assert_eq!(keywords[8], "FUZ9Z");
    assert!(fuzz_keywords(0).is_empty());
}

#[test]
fn positions_come_in_url_header_data_order() {
    let positions = detect_fuzz_positions(
        "https://FUZ2Z.example.com/FUZZ",
        &["X-A: none".to_string(), "X-B: FUZ3Z FUZZ".to_string()],
        &Some("q=FUZ9Z".to_string()),
    );
    assert_eq!(
        positions,
        vec![
            FuzzPosition::Url("FUZZ".to_string()),
            FuzzPosition::Url("FUZ2Z".to_string()),
            FuzzPosition::Header(1, "FUZZ".to_string()),
            FuzzPosition::Header(1, "FUZ3Z".to_string()),
            FuzzPosition::Data("FUZ9Z".to_string()),
        ]
    );
}

#[test]
fn substitute_matches_std_replace() {
    let cases = [
        ("aaaa", "X", "aa"),
        ("abc", "-", ""),
        ("", "v", ""),
        ("FUZZFUZZ", "", "FUZZ"),
        ("no keyword here", "x", "FUZZ"),
        ("ééFUZZé", "ü", "FUZZ"),
    ];
    for (template, value, keyword) in cases {
        assert_eq!(substitute(template, value, keyword), template.replace(keyword, value));
    }
    assert_eq!(substitute("abc", "-", ""), "-a-b-c-");
}

#[test]
fn substitute_without_keyword_leaves_template() {
    assert_eq!(substitute("https://example.com/a", "x", "FUZZ"), "https://example.com/a");
}

#[test]
fn substitute_by_itself_leaves_template() {
    assert_eq!(substitute("/FUZZ/FUZZ", "FUZZ", "FUZZ"), "/FUZZ/FUZZ");
}

#[test]
fn build_url_applies_pairs_in_order() {
    let url = build_url("https://h/FUZZ/FUZ2Z", &[("FUZZ", "a"), ("FUZ2Z", "b")]);
    assert_eq!(url, "https://h/a/b");
    // a later pair sees the text produced by the earlier ones
    let chained = build_url("FUZZ", &[("FUZZ", "FUZ2Z"), ("FUZ2Z", "z")]);
    assert_eq!(chained, "z");
}

#[test]
fn build_headers_and_data_substitute() {
    let headers = build_headers(
        &["Host: FUZZ.example.com".to_string(), "X: y".to_string()],
        &[("FUZZ", "dev")],
    );
    assert_eq!(headers, vec!["Host: dev.example.com".to_string(), "X: y".to_string()]);
    assert_eq!(
        build_data(&Some("pass=FUZZ".to_string()), &[("FUZZ", "secret")]),
        Some("pass=secret".to_string())
    );
    assert_eq!(build_data(&None, &[("FUZZ", "secret")]), None);
}
