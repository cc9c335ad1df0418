use flood::requester::{
    client_plan, count_words_and_lines, parse_auth, redirect_rule, replay_plan, request_method, RedirectRule, RequesterConfig, parse_headers, random_user_agent, request_parts,
    response_data, RequestPart, RequestSetupError, USER_AGENTS,
};

#[test]
fn headers_split_at_first_colon_and_trim() {
    let hs = parse_headers(&["Host: a.example.com".to_string(), " X-T :  v:w ".to_string()]).unwrap();
    assert_eq!(
        hs,
        vec![
            ("Host".to_string(), "a.example.com".to_string()),
            ("X-T".to_string(), "v:w".to_string())
        ]
    );
}

#[test]
fn header_without_colon_is_an_error() {
    assert_eq!(
        parse_headers(&["Good: 1".to_string(), "Bad".to_string(), "Worse".to_string()]),
        Err(RequestSetupError::InvalidHeader("Bad".to_string()))
    );
}

#[test]
fn auth_is_split_without_trimming() {
    assert_eq!(parse_auth("user: pa:ss").unwrap(), ("user".to_string(), " pa:ss".to_string()));
    assert_eq!(parse_auth("nocolon"), Err(RequestSetupError::InvalidAuth("nocolon".to_string())));
}

#[test]
fn word_and_line_counts_match_std() {
    let bodies = ["", "a", "a\n", "\n", "a\n\nb", "  two  words\r\n", "x\u{a0}y\u{3000}z", "\n\n\n", "é\tü\n"];
    for b in bodies {
        let (w, l) = count_words_and_lines(b);
        assert_eq!(w as usize, b.split_whitespace().count(), "{:?}", b);
        assert_eq!(l as usize, b.lines().count(), "{:?}", b);
    }
}

#[test]
fn response_data_measures_the_body() {
    let r = response_data(200, "héllo world\n".to_string(), 12, None, Some("text/html".to_string()));
    assert_eq!(r.size, 13);
    assert_eq!(r.words, 2);
    assert_eq!(r.lines, 1);
    assert_eq!(r.duration_ms, 12);
    assert_eq!(r.content_type.as_deref(), Some("text/html"));
}

#[test]
fn random_agent_is_one_of_the_list() {
    for _ in 0..50 {
        let ua = random_user_agent();
        assert!(USER_AGENTS.contains(&ua));
    }
}

#[test]
fn request_parts_follow_the_header_order() {
    let headers = vec![("Host".to_string(), "a.example".to_string()), ("X-A".to_string(), "1".to_string())];
    let parts = request_parts(
        &headers,
        Some("user=FUZZ"),
        &Some(("u".to_string(), "p".to_string())),
        &Some("tok".to_string()),
        &Some("sid=1".to_string()),
    );
    assert_eq!(
        parts,
        vec![
            RequestPart::Header("Host".to_string(), "a.example".to_string()),
            RequestPart::Header("X-A".to_string(), "1".to_string()),
            RequestPart::BasicAuth("u".to_string(), "p".to_string()),
            RequestPart::BearerAuth("tok".to_string()),
            RequestPart::Header("Cookie".to_string(), "sid=1".to_string()),
            RequestPart::Body("user=FUZZ".to_string()),
            RequestPart::Header(
                "Content-Type".to_string(),
                "application/x-www-form-urlencoded".to_string()
            ),
        ]
    );
}

#[test]
fn request_parts_of_a_bare_request_are_its_headers() {
    let headers = vec![("Accept".to_string(), "*/*".to_string())];
    let parts = request_parts(&headers, None, &None, &None, &None);
    assert_eq!(parts, vec![RequestPart::Header("Accept".to_string(), "*/*".to_string())]);
    assert!(request_parts(&[], None, &None, &None, &None).is_empty());
}

fn config(proxy: Option<&str>, follow: bool) -> RequesterConfig {
    RequesterConfig {
        timeout: std::time::Duration::from_secs(10),
        proxy: proxy.map(|p| p.to_string()),
        insecure: false,
        follow_redirects: follow,
        max_redirects: 7,
        user_agent: "ua".to_string(),
        auth: None,
        bearer: None,
        cookie: None,
    }
}

#[test]
fn redirect_rules() {
    assert_eq!(redirect_rule(true, 5), RedirectRule::Limited(5));
    assert_eq!(redirect_rule(false, 5), RedirectRule::NoFollow);
}

#[test]
fn client_plans_follow_the_options() {
    let plan = client_plan(&config(None, true)).unwrap();
    assert_eq!(plan.redirect, RedirectRule::Limited(7));
    assert!(plan.proxy.is_none());
    let plan = client_plan(&config(Some("http://127.0.0.1:8080"), false)).unwrap();
    assert_eq!(plan.redirect, RedirectRule::NoFollow);
    assert_eq!(plan.proxy_url.as_deref(), Some("http://127.0.0.1:8080"));
    assert!(plan.proxy.is_some());
    assert!(matches!(
        client_plan(&config(Some("http://[::1"), false)),
        Err(RequestSetupError::InvalidProxy(u)) if u == "http://[::1"
    ));
    let replay = replay_plan("http://127.0.0.1:8080").unwrap();
    assert_eq!(replay.redirect, RedirectRule::NoFollow);
    assert!(replay.proxy.is_some());
    assert!(matches!(
        replay_plan("http://[::1"),
        Err(RequestSetupError::InvalidReplayProxy(u)) if u == "http://[::1"
    ));
}

#[test]
fn methods_are_tokens() {
    assert_eq!(request_method("GET").unwrap().as_str(), "GET");
    assert_eq!(request_method("PROPFIND").unwrap().as_str(), "PROPFIND");
    assert_eq!(request_method("POST").unwrap(), reqwest::Method::POST);
    assert!(matches!(request_method(""), Err(RequestSetupError::InvalidMethod(m)) if m.is_empty()));
    assert!(matches!(request_method("GE T"), Err(RequestSetupError::InvalidMethod(m)) if m == "GE T"));
    assert!(matches!(request_method("GÉT"), Err(RequestSetupError::InvalidMethod(_))));
}

#[test]
fn setup_error_messages() {
    assert_eq!(
        RequestSetupError::InvalidHeader("Bad".to_string()).message(),
        "Invalid header format 'Bad' \u{2014} expected 'Name: Value'"
    );
    assert_eq!(
        RequestSetupError::InvalidAuth("x".to_string()).message(),
        "Invalid auth format 'x' \u{2014} expected 'user:pass'"
    );
    assert_eq!(RequestSetupError::InvalidProxy("p".to_string()).message(), "Invalid proxy URL: p");
    assert_eq!(RequestSetupError::InvalidReplayProxy("p".to_string()).message(), "Invalid replay proxy URL: p");
    assert_eq!(RequestSetupError::InvalidMethod("G T".to_string()).message(), "Invalid HTTP method: G T");
}
