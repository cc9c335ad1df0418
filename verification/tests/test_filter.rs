use flood::filter::{FilterConfig, FilterEngine, FilterError, Pattern, ResponseData};

fn make_response(status: u16, size: u64, words: u64, lines: u64) -> ResponseData {
    ResponseData {
        status,
        size,
        words,
        lines,
        duration_ms: 100,
        body: String::new(),
        redirect_to: None,
        content_type: None,
    }
}

#[test]
fn test_default_match_codes() {
    let engine = FilterEngine::new(FilterConfig {
        match_codes: vec![200, 204, 301, 302, 307, 401, 403],
        ..Default::default()
    });
    assert!(engine.should_display(&make_response(200, 100, 10, 5)));
    assert!(engine.should_display(&make_response(301, 100, 10, 5)));
    assert!(!engine.should_display(&make_response(404, 100, 10, 5)));
    assert!(!engine.should_display(&make_response(500, 100, 10, 5)));
}

#[test]
fn test_filter_code_excludes() {
    let engine = FilterEngine::new(FilterConfig {
        match_codes: vec![200, 301, 403],
        filter_codes: vec![403],
        ..Default::default()
    });
    assert!(engine.should_display(&make_response(200, 100, 10, 5)));
    assert!(!engine.should_display(&make_response(403, 100, 10, 5)));
}

#[test]
fn test_match_size() {
    let engine = FilterEngine::new(FilterConfig {
        match_codes: vec![200],
        match_sizes: vec![(100, 100)],
        ..Default::default()
    });
    assert!(engine.should_display(&make_response(200, 100, 10, 5)));
    assert!(!engine.should_display(&make_response(200, 200, 10, 5)));
}

#[test]
fn test_filter_size_excludes() {
    let engine = FilterEngine::new(FilterConfig {
        match_codes: vec![200],
        filter_sizes: vec![(0, 0)],
        ..Default::default()
    });
    assert!(engine.should_display(&make_response(200, 100, 10, 5)));
    assert!(!engine.should_display(&make_response(200, 0, 10, 5)));
}

#[test]
fn test_match_words() {
    let engine = FilterEngine::new(FilterConfig {
        match_codes: vec![200],
        match_words: vec![(10, 10)],
        ..Default::default()
    });
    assert!(engine.should_display(&make_response(200, 100, 10, 5)));
    assert!(!engine.should_display(&make_response(200, 100, 20, 5)));
}

#[test]
fn test_filter_words_excludes() {
    let engine = FilterEngine::new(FilterConfig {
        match_codes: vec![200],
        filter_words: vec![(10, 10)],
        ..Default::default()
    });
    assert!(!engine.should_display(&make_response(200, 100, 10, 5)));
    assert!(engine.should_display(&make_response(200, 100, 20, 5)));
}

#[test]
fn test_match_lines() {
    let engine = FilterEngine::new(FilterConfig {
        match_codes: vec![200],
        match_lines: vec![(5, 5)],
        ..Default::default()
    });
    assert!(engine.should_display(&make_response(200, 100, 10, 5)));
    assert!(!engine.should_display(&make_response(200, 100, 10, 10)));
}

#[test]
fn test_filter_lines_excludes() {
    let engine = FilterEngine::new(FilterConfig {
        match_codes: vec![200],
        filter_lines: vec![(5, 5)],
        ..Default::default()
    });
    assert!(!engine.should_display(&make_response(200, 100, 10, 5)));
    assert!(engine.should_display(&make_response(200, 100, 10, 10)));
}

#[test]
fn test_match_regex() {
    let engine = FilterEngine::new(FilterConfig {
        match_codes: vec![200],
        match_regex: Some(Pattern::new("admin").unwrap()),
        ..Default::default()
    });
    let mut resp = make_response(200, 100, 10, 5);
    resp.body = "Welcome admin panel".to_string();
    assert!(engine.should_display(&resp));
    resp.body = "Not found".to_string();
    assert!(!engine.should_display(&resp));
}

#[test]
fn test_filter_regex_excludes() {
    let engine = FilterEngine::new(FilterConfig {
        match_codes: vec![200],
        filter_regex: Some(Pattern::new("error").unwrap()),
        ..Default::default()
    });
    let mut resp = make_response(200, 100, 10, 5);
    resp.body = "Some error occurred".to_string();
    assert!(!engine.should_display(&resp));
    resp.body = "Success".to_string();
    assert!(engine.should_display(&resp));
}

#[test]
fn test_match_time() {
    let engine = FilterEngine::new(FilterConfig {
        match_codes: vec![200],
        match_time: Some(500),
        ..Default::default()
    });
    let mut resp = make_response(200, 100, 10, 5);
    resp.duration_ms = 600;
    assert!(engine.should_display(&resp));
    resp.duration_ms = 100;
    assert!(!engine.should_display(&resp));
}

#[test]
fn test_filter_time_excludes() {
    let engine = FilterEngine::new(FilterConfig {
        match_codes: vec![200],
        filter_time: Some(500),
        ..Default::default()
    });
    let mut resp = make_response(200, 100, 10, 5);
    resp.duration_ms = 600;
    assert!(!engine.should_display(&resp));
    resp.duration_ms = 100;
    assert!(engine.should_display(&resp));
}

#[test]
fn test_combined_match_and_filter() {
    let engine = FilterEngine::new(FilterConfig {
        match_codes: vec![200, 301],
        filter_sizes: vec![(0, 0)],
        ..Default::default()
    });
    assert!(engine.should_display(&make_response(200, 500, 10, 5)));
    assert!(!engine.should_display(&make_response(200, 0, 10, 5)));
    assert!(!engine.should_display(&make_response(404, 500, 10, 5)));
}

#[test]
fn no_rules_show_everything() {
    let engine = FilterEngine::new(FilterConfig::default());
    assert!(engine.should_display(&make_response(599, 0, 0, 0)));
}

#[test]
fn filter_wins_over_match() {
    let engine = FilterEngine::new(FilterConfig {
        match_codes: vec![200],
        match_sizes: vec![(42, 42)],
        filter_sizes: vec![(42, 42)],
        ..Default::default()
    });
    assert!(!engine.should_display(&make_response(200, 42, 1, 1)));
}

#[test]
fn time_threshold_is_strict() {
    let engine = FilterEngine::new(FilterConfig { match_time: Some(100), ..Default::default() });
    // exactly the threshold is not "greater than"
    assert!(!engine.should_display(&make_response(200, 1, 1, 1)));
    let filt = FilterEngine::new(FilterConfig { filter_time: Some(100), ..Default::default() });
    assert!(filt.should_display(&make_response(200, 1, 1, 1)));
}

#[test]
fn decide_uses_given_regex_outcomes() {
    let engine = FilterEngine::new(FilterConfig {
        match_regex: Some(Pattern::new("x").unwrap()),
        filter_regex: Some(Pattern::new("y").unwrap()),
        ..Default::default()
    });
    let resp = make_response(200, 1, 1, 1);
    assert!(engine.decide(&resp, true, false));
    assert!(!engine.decide(&resp, false, false));
    assert!(!engine.decide(&resp, true, true));
    let plain = FilterEngine::new(FilterConfig::default());
    // without regex rules the outcomes are ignored
    assert!(plain.decide(&resp, false, true));
}

#[test]
fn invalid_regex_is_reported() {
    match Pattern::new("(unclosed") {
        Err(FilterError::InvalidRegex(p)) => assert_eq!(p, "(unclosed"),
        Ok(_) => panic!("expected an error"),
    }
    let p = Pattern::new("a+b").unwrap();
    assert_eq!(p.as_str(), "a+b");
}

#[test]
fn regex_semantics_are_the_regex_crate() {
    let engine = FilterEngine::new(FilterConfig {
        match_regex: Some(Pattern::new("^ad[m]in$").unwrap()),
        ..Default::default()
    });
    let mut resp = make_response(200, 1, 1, 1);
    resp.body = "admin".to_string();
    assert!(engine.should_display(&resp));
    resp.body = "xadmin".to_string();
    assert!(!engine.should_display(&resp));
}

#[test]
fn size_word_and_line_ranges_are_inclusive() {
    let engine = FilterEngine::new(FilterConfig {
        match_sizes: vec![(1337, 1400)],
        match_words: vec![(10, 50)],
        match_lines: vec![(5, 20), (30, 30)],
        ..Default::default()
    });
    assert!(engine.should_display(&make_response(200, 1337, 10, 5)));
    assert!(engine.should_display(&make_response(200, 1400, 50, 30)));
    assert!(!engine.should_display(&make_response(200, 1336, 10, 5)));
    assert!(!engine.should_display(&make_response(200, 1401, 10, 5)));
    assert!(!engine.should_display(&make_response(200, 1350, 51, 5)));
    assert!(!engine.should_display(&make_response(200, 1350, 20, 25)));
    let filt = FilterEngine::new(FilterConfig { filter_sizes: vec![(0, 10)], ..Default::default() });
    assert!(!filt.should_display(&make_response(200, 0, 1, 1)));
    assert!(!filt.should_display(&make_response(200, 10, 1, 1)));
    assert!(filt.should_display(&make_response(200, 11, 1, 1)));
}
