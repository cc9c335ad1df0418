use flood::wordlist::{cartesian_product, expand_with_extensions, parse_wordlist, WordlistError};

fn file_text(words: &[&str]) -> String {
    let mut s = String::new();
    for word in words {
        s.push_str(word);
        s.push('\n');
    }
    s
}

#[test]
fn test_load_wordlist_basic() {
    let words = parse_wordlist(&file_text(&["admin", "login", "api", "config"])).unwrap();
    assert_eq!(words, vec!["admin", "login", "api", "config"]);
}

#[test]
fn test_load_wordlist_skips_empty_lines() {
    let words = parse_wordlist(&file_text(&["admin", "", "login", "", "api"])).unwrap();
    assert_eq!(words, vec!["admin", "login", "api"]);
}

#[test]
fn test_load_wordlist_skips_comments() {
    let words =
        parse_wordlist(&file_text(&["# this is a comment", "admin", "# another comment", "login"]))
            .unwrap();
    assert_eq!(words, vec!["admin", "login"]);
}

#[test]
fn test_load_wordlist_trims_whitespace() {
    let words = parse_wordlist(&file_text(&["  admin  ", "login\t", " api"])).unwrap();
    assert_eq!(words, vec!["admin", "login", "api"]);
}

#[test]
fn empty_wordlist_is_an_error() {
    assert_eq!(parse_wordlist(""), Err(WordlistError::Empty));
    assert_eq!(parse_wordlist("\n# only a comment\n   \n"), Err(WordlistError::Empty));
}

#[test]
fn wordlist_handles_crlf_and_indented_comments() {
    let words = parse_wordlist("a\r\n  # c\r\nb").unwrap();
    assert_eq!(words, vec!["a", "b"]);
}

#[test]
fn test_cartesian_product_two_lists() {
    let lists = vec![
        vec!["a".to_string(), "b".to_string()],
        vec!["1".to_string(), "2".to_string()],
    ];
    let product = cartesian_product(&lists);
    assert_eq!(product.len(), 4);
    assert!(product.contains(&vec!["a".to_string(), "1".to_string()]));
    assert!(product.contains(&vec!["a".to_string(), "2".to_string()]));
    assert!(product.contains(&vec!["b".to_string(), "1".to_string()]));
    assert!(product.contains(&vec!["b".to_string(), "2".to_string()]));
}

#[test]
fn test_cartesian_product_single_list() {
    let lists = vec![vec!["a".to_string(), "b".to_string(), "c".to_string()]];
    let product = cartesian_product(&lists);
    assert_eq!(product.len(), 3);
    assert_eq!(product[0], vec!["a".to_string()]);
    assert_eq!(product[1], vec!["b".to_string()]);
    assert_eq!(product[2], vec!["c".to_string()]);
}

#[test]
fn test_cartesian_product_three_lists() {
    let lists = vec![
        vec!["a".to_string()],
        vec!["1".to_string(), "2".to_string()],
        vec!["x".to_string()],
    ];
    let product = cartesian_product(&lists);
    assert_eq!(product.len(), 2);
    assert!(product.contains(&vec!["a".to_string(), "1".to_string(), "x".to_string()]));
    assert!(product.contains(&vec!["a".to_string(), "2".to_string(), "x".to_string()]));
}

#[test]
fn cartesian_product_order_and_size() {
    let lists = vec![
        vec!["a".to_string(), "b".to_string()],
        vec!["1".to_string(), "2".to_string(), "3".to_string()],
    ];
    let product = cartesian_product(&lists);
    assert_eq!(product.len(), 6);
    assert_eq!(product[0], vec!["a".to_string(), "1".to_string()]);
    assert_eq!(product[2], vec!["a".to_string(), "3".to_string()]);
    assert_eq!(product[3], vec!["b".to_string(), "1".to_string()]);
    assert!(cartesian_product(&[]).is_empty());
    let with_empty = vec![vec!["a".to_string()], vec![]];
    assert!(cartesian_product(&with_empty).is_empty());
}

#[test]
fn expand_with_extensions_cases() {
    let exts = vec![".php".to_string(), ".bak".to_string()];
    assert_eq!(expand_with_extensions("index", &exts, false), vec!["index.php", "index.bak"]);
    assert_eq!(
        expand_with_extensions("index", &exts, true),
        vec!["index", "index.php", "index.bak"]
    );
    assert_eq!(expand_with_extensions("index", &[], false), vec!["index"]);
}

#[test]
fn extensions_are_appended_as_given() {
    let exts = vec![".php".to_string(), ".bak".to_string()];
    assert_eq!(expand_with_extensions("admin", &exts, false), vec!["admin.php", "admin.bak"]);
    assert_eq!(expand_with_extensions("admin", &exts, true), vec!["admin", "admin.php", "admin.bak"]);
    assert_eq!(expand_with_extensions("admin", &["_old".to_string()], false), vec!["admin_old"]);
}
