use flood::cli::{Cli, IntErrorKind, ListParseError};
use flood::filter::{FilterEngine, FilterError, ResponseData};
use flood::state::saved_state;
use flood::scan::{filter_config_from, ScanError};

fn cli() -> Cli {
    Cli {
        url: "https://example.com/FUZZ".to_string(),
        wordlist: vec![std::path::PathBuf::from("common.txt")],
        method: "GET".to_string(),
        data: None,
        headers: vec![],
        cookie: None,
        recurse: false,
        depth: 3,
        recurse_exclude: vec![],
        extensions: None,
        no_extension: false,
        add_slash: false,
        match_code: "200,204,301,302,307,401,403".to_string(),
        match_size: None,
        match_words: None,
        match_lines: None,
        match_regex: None,
        match_time: None,
        filter_code: None,
        filter_size: None,
        filter_words: None,
        filter_lines: None,
        filter_regex: None,
        filter_time: None,
        threads: 100,
        rate: 0,
        timeout: 7,
        retries: 3,
        no_auto_throttle: false,
        auth: None,
        bearer: None,
        proxy: None,
        replay_proxy: None,
        insecure: false,
        follow_redirects: false,
        max_redirects: 5,
        output: None,
        output_format: "json".to_string(),
        verbose: false,
        silent: false,
        no_color: false,
        resume: None,
        state_file: None,
        user_agent: "Flood/0.1.0".to_string(),
        random_agent: false,
    }
}

fn response(status: u16, size: u64, body: &str) -> ResponseData {
    ResponseData {
        status,
        size,
        words: 1,
        lines: 1,
        duration_ms: 10,
        body: body.to_string(),
        redirect_to: None,
        content_type: None,
    }
}

#[test]
fn default_options_give_default_match_codes() {
    let c = filter_config_from(&cli()).unwrap();
    assert_eq!(c.match_codes, vec![200, 204, 301, 302, 307, 401, 403]);
    assert!(c.match_sizes.is_empty() && c.filter_codes.is_empty());
    assert!(c.match_regex.is_none() && c.filter_regex.is_none());
}

#[test]
fn options_become_rules() {
    let mut a = cli();
    a.filter_code = Some("403".to_string());
    a.filter_size = Some("0, 12".to_string());
    a.match_regex = Some("adm".to_string());
    a.filter_time = Some(500);
    let engine = FilterEngine::new(filter_config_from(&a).unwrap());
    assert!(engine.should_display(&response(200, 5, "admin")));
    assert!(!engine.should_display(&response(403, 5, "admin")));
    assert!(!engine.should_display(&response(200, 12, "admin")));
    assert!(!engine.should_display(&response(200, 5, "user")));
}

#[test]
fn first_bad_option_is_reported() {
    let mut a = cli();
    a.match_size = Some("1,x".to_string());
    a.filter_code = Some("oops".to_string());
    assert_eq!(
        filter_config_from(&a).err(),
        Some(ScanError::InvalidList(ListParseError::InvalidNumber {
            token: "x".to_string(),
            kind: IntErrorKind::InvalidDigit
        }))
    );
    let mut b = cli();
    b.match_code = "200,".to_string();
    b.filter_regex = Some("(".to_string());
    assert_eq!(
        filter_config_from(&b).err(),
        Some(ScanError::InvalidList(ListParseError::InvalidStatusCode {
            token: String::new(),
            kind: IntErrorKind::Empty
        }))
    );
    let mut c = cli();
    c.filter_regex = Some("(".to_string());
    assert_eq!(
        filter_config_from(&c).err(),
        Some(ScanError::InvalidFilterRegex(FilterError::InvalidRegex("(".to_string())))
    );
}

#[test]
fn saved_state_records_the_scan() {
    let mut a = cli();
    a.headers = vec!["Host: FUZZ.h".to_string()];
    a.data = Some("q=FUZZ".to_string());
    let s = saved_state(&a, vec!["w.txt".to_string()], "POST".to_string(), 42, vec![("u/FUZZ".to_string(), 1)], vec![], 9, 3);
    assert_eq!(s.url, a.url);
    assert_eq!(s.wordlist_paths, vec!["w.txt"]);
    assert_eq!(s.method, "POST");
    assert_eq!(s.headers, a.headers);
    assert_eq!(s.data, a.data);
    assert_eq!(s.match_codes, a.match_code);
    assert_eq!(s.threads, a.threads);
    assert_eq!(s.timeout, a.timeout);
    assert_eq!(s.wordlist_position, 42);
    assert_eq!(s.recursion_pending, vec![("u/FUZZ".to_string(), 1)]);
    assert!(s.results.is_empty());
    assert_eq!((s.elapsed_secs, s.errors), (9, 3));
}

#[test]
fn range_options_become_range_rules() {
    let mut a = cli();
    a.match_size = Some("1337-1400".to_string());
    a.match_words = Some("10-50".to_string());
    let c = filter_config_from(&a).unwrap();
    assert_eq!(c.match_sizes, vec![(1337, 1400)]);
    assert_eq!(c.match_words, vec![(10, 50)]);
    let mut b = cli();
    b.match_regex = Some("(".to_string());
    assert_eq!(
        filter_config_from(&b).err(),
        Some(ScanError::InvalidMatchRegex(FilterError::InvalidRegex("(".to_string())))
    );
}
