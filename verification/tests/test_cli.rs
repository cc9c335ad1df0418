use flood::cli::{parse_extensions, parse_numeric_list, parse_status_codes, IntErrorKind, ListParseError};
use flood::colors::{status_color, GREEN, PEACH, RED, TEXT, YELLOW};

#[test]
fn status_codes_parse_with_spaces() {
    assert_eq!(parse_status_codes("200, 204,301").unwrap(), vec![200, 204, 301]);
    assert_eq!(parse_status_codes("+404").unwrap(), vec![404]);
}

#[test]
fn status_code_errors_name_the_token() {
    assert_eq!(
        parse_status_codes("200,abc,300"),
        Err(ListParseError::InvalidStatusCode {
            token: "abc".to_string(),
            kind: IntErrorKind::InvalidDigit
        })
    );
    assert_eq!(
        parse_status_codes("200,,300"),
        Err(ListParseError::InvalidStatusCode { token: String::new(), kind: IntErrorKind::Empty })
    );
    assert_eq!(
        parse_status_codes("70000"),
        Err(ListParseError::InvalidStatusCode {
            token: "70000".to_string(),
            kind: IntErrorKind::PosOverflow
        })
    );
    assert_eq!(
        parse_status_codes("-1"),
        Err(ListParseError::InvalidStatusCode {
            token: "-1".to_string(),
            kind: IntErrorKind::InvalidDigit
        })
    );
}

#[test]
fn numbers_match_std_parsing() {
    let inputs = ["0", "18446744073709551615", "18446744073709551616", "+", "-", "-5", "", "1a", "99999999999999999999x", "+7", "٣"];
    for s in inputs {
        let ours = parse_numeric_list(s);
        match s.trim().parse::<u64>() {
            Ok(v) => assert_eq!(ours, Ok(vec![(v, v)])),
            Err(e) => {
                let kind = match e.kind() {
                    std::num::IntErrorKind::Empty => IntErrorKind::Empty,
                    std::num::IntErrorKind::InvalidDigit => IntErrorKind::InvalidDigit,
                    std::num::IntErrorKind::PosOverflow => IntErrorKind::PosOverflow,
                    _ => panic!("unexpected kind"),
                };
                assert_eq!(ours, Err(ListParseError::InvalidNumber { token: s.trim().to_string(), kind }), "{}", s);
            }
        }
    }
}

#[test]
fn extensions_lose_their_leading_dots() {
    assert_eq!(parse_extensions(".php,bak"), vec!["php", "bak"]);
    assert_eq!(parse_extensions("php, .bak,conf"), vec!["php", "bak", "conf"]);
    assert_eq!(parse_extensions("php,,.,..tar.gz"), vec!["php", "tar.gz"]);
}

#[test]
fn number_lists_take_ranges() {
    assert_eq!(parse_numeric_list("10-50"), Ok(vec![(10, 50)]));
    assert_eq!(parse_numeric_list("1337-1400, 0 ,7 - 9"), Ok(vec![(1337, 1400), (0, 0), (7, 9)]));
    assert_eq!(
        parse_numeric_list("5,10-x"),
        Err(ListParseError::InvalidNumber { token: "10-x".to_string(), kind: IntErrorKind::InvalidDigit })
    );
    assert_eq!(
        parse_numeric_list("-5"),
        Err(ListParseError::InvalidNumber { token: "-5".to_string(), kind: IntErrorKind::InvalidDigit })
    );
    assert_eq!(
        parse_numeric_list("-"),
        Err(ListParseError::InvalidNumber { token: "-".to_string(), kind: IntErrorKind::InvalidDigit })
    );
    assert_eq!(
        parse_numeric_list("3-"),
        Err(ListParseError::InvalidNumber { token: "3-".to_string(), kind: IntErrorKind::Empty })
    );
}

#[test]
fn status_colors() {
    assert_eq!(status_color(200), GREEN);
    assert_eq!(status_color(302), YELLOW);
    assert_eq!(status_color(404), PEACH);
    assert_eq!(status_color(503), RED);
    assert_eq!(status_color(100), TEXT);
    assert_eq!(status_color(600), TEXT);
}
