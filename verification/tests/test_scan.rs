use flood::filter::ResponseData;
use flood::scan::{
    build_work_items, effective_method, join_with_commas, output_format, recursion_base,
    recursion_work, request_headers, initial_work, work_step, WorkStep, dotted_extensions, resume_work, quit_point, request_plan, WorkItem, request_url, require_fuzz_keyword, retry_step, scan_result,
    substitution_pairs, AttemptOutcome, OutputFormat, RetryDecision, RetryStep, ScanError,
};

fn strings(v: &[&str]) -> Vec<String> {
    v.iter().map(|s| s.to_string()).collect()
}

#[test]
fn missing_keyword_is_an_error() {
    assert_eq!(require_fuzz_keyword("http://example.com/test", &[], &None), Err(ScanError::NoFuzzKeyword));
    assert_eq!(require_fuzz_keyword("http://example.com/FUZZ", &[], &None).unwrap().len(), 1);
}

#[test]
fn post_data_turns_get_into_post() {
    assert_eq!(effective_method("GET", true), "POST");
    assert_eq!(effective_method("GET", false), "GET");
    assert_eq!(effective_method("PUT", true), "PUT");
}

#[test]
fn single_wordlist_is_expanded() {
    let lists = vec![strings(&["a", "b"])];
    let items = build_work_items(&lists, &strings(&["php"]), true);
    assert_eq!(
        items,
        vec![strings(&["a"]), strings(&["a.php"]), strings(&["b"]), strings(&["b.php"])]
    );
}

#[test]
fn several_wordlists_are_combined_without_extensions() {
    let lists = vec![strings(&["a", "b"]), strings(&["1"])];
    let items = build_work_items(&lists, &strings(&["php"]), false);
    assert_eq!(items, vec![strings(&["a", "1"]), strings(&["b", "1"])]);
}

#[test]
fn urls_for_items() {
    let kws = ["FUZZ", "FUZ2Z"];
    let item = strings(&["admin", "x"]);
    assert_eq!(request_url("https://h/FUZZ/FUZ2Z", &kws, &item, false), "https://h/admin/x");
    assert_eq!(request_url("https://h/FUZZ", &kws, &item[..1], true), "https://h/admin/");
    assert_eq!(request_url("https://h/FUZZ/", &kws, &item[..1], true), "https://h/admin/");
    let pairs = substitution_pairs(&kws, &item[..1]);
    assert_eq!(pairs, vec![("FUZZ", "admin")]);
}

#[test]
fn recursion_bases() {
    assert_eq!(recursion_base("https://h/images"), "https://h/images/FUZZ");
    assert_eq!(recursion_base("https://h/images/"), "https://h/images/FUZZ");
}

#[test]
fn recursion_work_scans_below_each_directory() {
    let pending = vec![("https://h/a/FUZZ".to_string(), 1), ("https://h/b/FUZZ".to_string(), 2)];
    let work = recursion_work(&pending, &strings(&["x", "y"]), &strings(&["php"]), false);
    let seen: Vec<(String, Vec<String>, u32)> =
        work.iter().map(|w| (w.template.clone(), w.words.clone(), w.depth)).collect();
    assert_eq!(
        seen,
        vec![
            ("https://h/a/FUZZ".to_string(), strings(&["x.php"]), 1),
            ("https://h/a/FUZZ".to_string(), strings(&["y.php"]), 1),
            ("https://h/b/FUZZ".to_string(), strings(&["x.php"]), 2),
            ("https://h/b/FUZZ".to_string(), strings(&["y.php"]), 2)
        ]
    );
    let urls: Vec<String> = work
        .iter()
        .map(|w| request_url(&w.template, &["FUZZ"], &w.words, false))
        .collect();
    assert_eq!(
        urls,
        vec!["https://h/a/x.php", "https://h/a/y.php", "https://h/b/x.php", "https://h/b/y.php"]
    );
}

#[test]
fn first_pass_uses_the_target() {
    let work = initial_work("https://h/FUZZ", &[strings(&["a"]), strings(&["b", "c"])]);
    assert_eq!(work.len(), 2);
    assert_eq!(work[0].template, "https://h/FUZZ");
    assert_eq!(work[1].words, strings(&["b", "c"]));
    assert_eq!(work[1].depth, 0);
}

#[test]
fn work_steps_skip_then_send_then_stop() {
    assert_eq!(work_step(0, 2, false), WorkStep::Skip);
    assert_eq!(work_step(1, 2, true), WorkStep::Skip);
    assert_eq!(work_step(2, 2, false), WorkStep::Send);
    assert_eq!(work_step(2, 2, true), WorkStep::Stop);
    assert_eq!(work_step(5, 0, false), WorkStep::Send);
}

#[test]
fn quit_and_resume_send_each_item_once() {
    let n = 10usize;
    let quit_at = 4usize;
    let mut sent = vec![0u32; n];
    let mut position = n;
    for i in 0..n {
        match work_step(i, 0, i >= quit_at) {
            WorkStep::Send => sent[i] += 1,
            WorkStep::Stop => {
                position = i;
                break;
            }
            WorkStep::Skip => {}
        }
    }
    assert_eq!(position, quit_at);
    for i in 0..n {
        if work_step(i, position, false) == WorkStep::Send {
            sent[i] += 1;
        }
    }
    assert!(sent.iter().all(|&c| c == 1));
}

#[test]
fn results_join_items_with_commas() {
    assert_eq!(join_with_commas(&strings(&["a", "b", "c"])), "a,b,c");
    assert_eq!(join_with_commas(&[]), "");
    let resp = ResponseData {
        status: 301,
        size: 10,
        words: 2,
        lines: 1,
        duration_ms: 5,
        body: "moved".to_string(),
        redirect_to: Some("/x/".to_string()),
        content_type: None,
    };
    let r = scan_result("https://h/x".to_string(), &resp, 1, &strings(&["x", "y"]));
    assert_eq!(r.input, "x,y");
    assert_eq!(r.redirect_to.as_deref(), Some("/x/"));
    assert_eq!(r.depth, 1);
}

#[test]
fn retry_policy_cases() {
    assert_eq!(
        retry_step(0, 3, AttemptOutcome::Response(429), false, false),
        RetryStep { throttle: true, unthrottle: false, decision: RetryDecision::RetryAfter(500) }
    );
    assert_eq!(
        retry_step(2, 3, AttemptOutcome::Response(429), false, false).decision,
        RetryDecision::RetryAfter(2000)
    );
    assert_eq!(
        retry_step(3, 3, AttemptOutcome::Response(429), false, false),
        RetryStep { throttle: true, unthrottle: false, decision: RetryDecision::Accept }
    );
    assert_eq!(
        retry_step(0, 3, AttemptOutcome::Response(429), true, true),
        RetryStep { throttle: false, unthrottle: false, decision: RetryDecision::Accept }
    );
    assert_eq!(
        retry_step(1, 3, AttemptOutcome::Response(200), false, true),
        RetryStep { throttle: false, unthrottle: true, decision: RetryDecision::Accept }
    );
    assert_eq!(
        retry_step(1, 3, AttemptOutcome::Failed, false, true),
        RetryStep { throttle: false, unthrottle: false, decision: RetryDecision::RetryAfter(400) }
    );
    assert_eq!(retry_step(3, 3, AttemptOutcome::Failed, false, false).decision, RetryDecision::GiveUp);
    assert_eq!(
        retry_step(55, 60, AttemptOutcome::Response(429), false, false).decision,
        RetryDecision::RetryAfter(500 * (1u64 << 55))
    );
}

#[test]
fn output_formats() {
    assert_eq!(output_format("json"), Ok(OutputFormat::Json));
    assert_eq!(output_format("jsonl"), Ok(OutputFormat::Jsonl));
    assert_eq!(output_format("csv"), Ok(OutputFormat::Csv));
    assert_eq!(output_format("text"), Ok(OutputFormat::Text));
    assert_eq!(output_format("xml"), Err(ScanError::UnknownOutputFormat("xml".to_string())));
}

#[test]
fn substituted_headers_replace_the_parsed_ones_when_they_parse() {
    let parsed = vec![("Host".to_string(), "FUZZ.example".to_string())];
    let good = request_headers(&strings(&["Host: admin.example"]), parsed.clone());
    assert_eq!(good, vec![("Host".to_string(), "admin.example".to_string())]);
    let bad = request_headers(&strings(&["Host: x", "broken"]), parsed.clone());
    assert_eq!(bad, parsed);
}

#[test]
fn extension_names_get_a_dot() {
    assert_eq!(dotted_extensions(&strings(&["php", "tar.gz"])), strings(&[".php", ".tar.gz"]));
    assert!(dotted_extensions(&[]).is_empty());
}

#[test]
fn resumed_work_rescans_pending_directories() {
    let work = resume_work(
        "https://h/FUZZ",
        &[strings(&["a"]), strings(&["b"])],
        &[("https://h/d/FUZZ".to_string(), 1)],
        &strings(&["x"]),
        &strings(&["php"]),
        true,
    );
    let seen: Vec<(String, Vec<String>, u32)> =
        work.iter().map(|w| (w.template.clone(), w.words.clone(), w.depth)).collect();
    assert_eq!(
        seen,
        vec![
            ("https://h/FUZZ".to_string(), strings(&["a"]), 0),
            ("https://h/FUZZ".to_string(), strings(&["b"]), 0),
            ("https://h/d/FUZZ".to_string(), strings(&["x"]), 1),
            ("https://h/d/FUZZ".to_string(), strings(&["x.php"]), 1),
        ]
    );
    // resuming from position 1 skips only the first item
    let sent: Vec<usize> = (0..work.len()).filter(|&i| work_step(i, 1, false) == WorkStep::Send).collect();
    assert_eq!(sent, vec![1, 2, 3]);
}

#[test]
fn quit_points_count_the_first_pass_then_the_batch() {
    let dirs = vec![("https://h/a/FUZZ".to_string(), 1)];
    let queued = vec![("https://h/a/b/FUZZ".to_string(), 2)];
    let (p, pending) = quit_point(true, 5, 3, vec![], queued.clone());
    assert_eq!((p, pending), (3, queued.clone()));
    let (p, pending) = quit_point(false, 5, 2, dirs.clone(), queued.clone());
    assert_eq!(p, 7);
    assert_eq!(pending, vec![dirs[0].clone(), queued[0].clone()]);
}

#[test]
fn quit_while_recursing_then_resume_sends_each_item_once() {
    // first pass: a, b; directory d with words x, y is being scanned and
    // quit comes after its first item; directory e waits in the queue.
    let first = vec![strings(&["a"]), strings(&["b"])];
    let words = strings(&["x", "y"]);
    let (p, pending) = quit_point(
        false,
        first.len(),
        1,
        vec![("https://h/d/FUZZ".to_string(), 1)],
        vec![("https://h/e/FUZZ".to_string(), 1)],
    );
    let work = resume_work("https://h/FUZZ", &first, &pending, &words, &[], false);
    let sent: Vec<String> = work
        .iter()
        .enumerate()
        .filter(|(i, _)| work_step(*i, p, false) == WorkStep::Send)
        .map(|(_, w)| request_url(&w.template, &["FUZZ"], &w.words, false))
        .collect();
    assert_eq!(sent, vec!["https://h/d/y", "https://h/e/x", "https://h/e/y"]);
}

#[test]
fn request_plans_substitute_everything() {
    let work = WorkItem { template: "https://h/FUZZ".to_string(), words: strings(&["admin"]), depth: 0 };
    let plan = request_plan(
        &work,
        &["FUZZ"],
        &strings(&["Host: FUZZ.h"]),
        &Some("q=FUZZ".to_string()),
        true,
        vec![],
    );
    assert_eq!(plan.url, "https://h/admin/");
    assert_eq!(plan.headers, vec![("Host".to_string(), "admin.h".to_string())]);
    assert_eq!(plan.data.as_deref(), Some("q=admin"));
    let fallback = vec![("X".to_string(), "1".to_string())];
    let plan = request_plan(&work, &["FUZZ"], &strings(&["broken"]), &None, false, fallback.clone());
    assert_eq!(plan.headers, fallback);
    assert!(plan.data.is_none());
}

#[test]
fn scan_error_messages() {
    assert_eq!(
        ScanError::NoFuzzKeyword.message(),
        "No FUZZ keyword found in URL, headers, or data.\nUse FUZZ in the URL (e.g., https://example.com/FUZZ) or headers/data."
    );
    assert_eq!(
        ScanError::UnknownOutputFormat("xml".to_string()).message(),
        "Unknown output format: xml. Use json, jsonl, csv, or text."
    );
    assert_eq!(
        ScanError::InvalidList(flood::cli::ListParseError::InvalidNumber {
            token: "x".to_string(),
            kind: flood::cli::IntErrorKind::InvalidDigit
        })
        .message(),
        format!("Invalid number 'x': {}", "x".parse::<u64>().unwrap_err())
    );
    assert_eq!(
        ScanError::InvalidList(flood::cli::ListParseError::InvalidStatusCode {
            token: "".to_string(),
            kind: flood::cli::IntErrorKind::Empty
        })
        .message(),
        format!("Invalid status code '': {}", "".parse::<u16>().unwrap_err())
    );
    assert_eq!(
        ScanError::InvalidMatchRegex(flood::filter::FilterError::InvalidRegex("(".to_string())).message(),
        "Invalid match regex"
    );
}
