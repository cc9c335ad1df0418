use flood::banner::{banner_line, config_lines, BANNER};
use flood::output::{
    assemble_colored_line, csv_header, csv_record, format_recursion_indicator, format_result,
    format_result_plain, format_text_line, PaintedPieces, ScanResult,
};

fn sample(size: u64) -> ScanResult {
    ScanResult {
        url: String::new(),
        status: 200,
        size,
        words: 0,
        lines: 0,
        duration_ms: 0,
        redirect_to: None,
        content_type: None,
        depth: 0,
        input: String::new(),
    }
}

#[test]
fn test_scan_result_human_size() {
    let r = ScanResult {
        url: String::new(),
        status: 200,
        size: 0,
        words: 0,
        lines: 0,
        duration_ms: 0,
        redirect_to: None,
        content_type: None,
        depth: 0,
        input: String::new(),
    };
    assert_eq!(r.human_size(), "0B");
    let r2 = ScanResult {
        size: 1024,
        ..r.clone()
    };
    assert_eq!(r2.human_size(), "1.0 KB");
    let r3 = ScanResult {
        size: 1_048_576,
        ..r.clone()
    };
    assert_eq!(r3.human_size(), "1.0 MB");
    let r4 = ScanResult { size: 500, ..r };
    assert_eq!(r4.human_size(), "500B");
}

fn float_human_size(size: u64) -> String {
    if size >= 1_048_576 {
        format!("{:.1} MB", size as f64 / 1_048_576.0)
    } else if size >= 1024 {
        format!("{:.1} KB", size as f64 / 1024.0)
    } else {
        format!("{}B", size)
    }
}

#[test]
fn human_size_agrees_with_float_formatting() {
    let mut sizes: Vec<u64> = vec![
        0, 1, 1023, 1024, 1075, 1126, 1280, 1331, 1536, 1792, 12847, 1_048_575, 1_048_576,
        1_153_434, 1_310_720, 1_572_864, 5_000_000_000, 9_007_199_254_740_991,
        9_007_199_254_740_993, 18_014_398_509_481_985, u64::MAX - 1, u64::MAX,
    ];
    let mut x: u64 = 12345;
    for _ in 0..2000 {
        x = x.wrapping_mul(6364136223846793005).wrapping_add(1442695040888963407);
        sizes.push(x >> (x % 60));
        sizes.push(x % 2_000_000);
    }
    for k in 0..4000u64 {
        sizes.push(1024 + k * 51);
        sizes.push(1_048_576 + k * 52_429);
    }
    for s in sizes {
        assert_eq!(sample(s).human_size(), float_human_size(s), "size {}", s);
    }
}

fn sample_results() -> Vec<ScanResult> {
    vec![
        ScanResult {
            url: "https://example.com/admin".to_string(),
            status: 200,
            size: 12847,
            words: 1847,
            lines: 142,
            duration_ms: 85,
            redirect_to: None,
            content_type: Some("text/html".to_string()),
            depth: 0,
            input: "admin".to_string(),
        },
        ScanResult {
            url: "https://example.com/images".to_string(),
            status: 301,
            size: 194,
            words: 7,
            lines: 4,
            duration_ms: 32,
            redirect_to: Some("https://example.com/images/".to_string()),
            content_type: Some("text/html".to_string()),
            depth: 2,
            input: "images".to_string(),
        },
    ]
}

#[test]
fn plain_lines_match_the_format_strings() {
    for r in sample_results() {
        let redirect = match &r.redirect_to {
            Some(l) => format!(" → {}", l),
            None => String::new(),
        };
        let depth = if r.depth > 0 { format!(" (depth: {})", r.depth) } else { String::new() };
        let expected = format!(
            "{:>3}  {:>8}  {:>5}w  {}{}{}",
            r.status,
            r.human_size(),
            r.words,
            r.url,
            redirect,
            depth
        );
        assert_eq!(format_text_line(&r), expected);
        assert_eq!(format_result_plain(&r), format!("  ● {}", expected));
        assert_eq!(format_result(&r, true), format!("  ● {}", expected));
    }
}

#[test]
fn plain_line_exact() {
    let r = &sample_results()[1];
    assert_eq!(
        format_result_plain(r),
        "  ● 301      194B      7w  https://example.com/images → https://example.com/images/ (depth: 2)"
    );
}

#[test]
fn colored_line_wraps_columns_in_escape_codes() {
    let r = &sample_results()[0];
    let line = format_result(r, false);
    assert!(line.starts_with("  "));
    assert!(line.contains("https://example.com/admin"));
    assert!(line.contains('\u{1b}'));
    assert_ne!(line, format_result(r, true));
}

#[test]
fn colored_line_from_pieces() {
    let r = &sample_results()[1];
    let p = PaintedPieces {
        dot: "D".to_string(),
        status: "S".to_string(),
        size: "Z".to_string(),
        words: "W".to_string(),
        url: "U".to_string(),
        arrow: "A".to_string(),
        location: "L".to_string(),
        depth: "P".to_string(),
    };
    assert_eq!(assemble_colored_line(r, &p), "  D S  Z  Ww  U A L P");
}

#[test]
fn recursion_indicator() {
    assert_eq!(
        format_recursion_indicator("https://x/a/FUZZ", true),
        "      ├── scanning recursively: https://x/a/FUZZ"
    );
    let colored = format_recursion_indicator("https://x/a/FUZZ", false);
    assert!(colored.starts_with("      "));
    assert!(colored.contains("├── scanning recursively: https://x/a/FUZZ"));
}

#[test]
fn csv_rows() {
    assert_eq!(
        csv_header(),
        vec![
            "url", "status", "size", "words", "lines", "duration_ms", "redirect_to",
            "content_type", "depth", "input"
        ]
    );
    let r = &sample_results()[1];
    assert_eq!(
        csv_record(r),
        vec![
            "https://example.com/images",
            "301",
            "194",
            "7",
            "4",
            "32",
            "https://example.com/images/",
            "text/html",
            "2",
            "images"
        ]
    );
    let r0 = &sample_results()[0];
    assert_eq!(csv_record(r0)[6], "");
}

#[test]
fn banner_and_summary_plain() {
    assert_eq!(banner_line("0.1.0", true), format!("{}  v{}", BANNER, "0.1.0"));
    let sep = "─".repeat(40);
    let lines = config_lines("https://e.com/FUZZ", "common.txt", 4700, 100, "200,301", true);
    assert_eq!(
        lines,
        vec![
            format!("    {}", sep),
            "    Target ─── https://e.com/FUZZ".to_string(),
            "    Wordlist ─ common.txt (4700) │ Threads: 100".to_string(),
            "    Filters ── Match: 200,301".to_string(),
            format!("    {}", sep),
        ]
    );
    let colored = config_lines("u", "w", 1, 2, "200", false);
    assert_eq!(colored.len(), 5);
    assert!(colored[1].starts_with("    ") && colored[1].contains("Target ─── u"));
    assert!(banner_line("0.1.0", false).contains("v0.1.0"));
}
