use mdquery::like::{like_match, like_match_inner};
use mdquery::preprocess::{find_token_end, preprocess_sql, quote_from_path, rewrite_contains};

#[test]
fn like_match_patterns() {
    assert!(like_match("hello", "%"));
    assert!(like_match("hello", "hello"));
    assert!(like_match("hello", "%llo"));
    assert!(like_match("hello", "hel%"));
    assert!(like_match("hello", "%ell%"));
    assert!(like_match("hello", "h_llo"));
    assert!(!like_match("hello", "h_lo"));
}

#[test]
fn preprocess_contains_rewrite() {
    assert_eq!(
        rewrite_contains("tags CONTAINS 'rust'").unwrap(),
        "CONTAINS(tags, 'rust')"
    );
}

#[test]
fn preprocess_contains_in_context() {
    let result = rewrite_contains("WHERE tags CONTAINS 'rust' AND status = 'draft'").unwrap();
    assert!(result.contains("CONTAINS(tags, 'rust')"));
    assert!(result.contains("AND status = 'draft'"));
}

#[test]
fn like_ignores_case() {
    assert!(like_match("Hello World", "%world"));
    assert!(like_match("HELLO", "h%O"));
    assert!(!like_match("hello", "%foo%"));
}

#[test]
fn like_edge_cases() {
    assert!(like_match("", "%"));
    assert!(like_match("", ""));
    assert!(!like_match("", "_"));
    assert!(!like_match("a", ""));
    assert!(like_match("a%b", "a%b"));
    assert!(like_match("abc", "%%%"));
}

#[test]
fn rewrite_leaves_other_text() {
    assert_eq!(rewrite_contains("SELECT title FROM .").unwrap(), "SELECT title FROM .");
    assert_eq!(rewrite_contains("").unwrap(), "");
}

#[test]
fn rewrite_lowercase_operator() {
    assert_eq!(
        rewrite_contains("tags contains 'rust'").unwrap(),
        "CONTAINS(tags, 'rust')"
    );
}

#[test]
fn quote_plain_path() {
    assert_eq!(
        quote_from_path("SELECT * FROM ./notes WHERE a = 1"),
        "SELECT * FROM `./notes` WHERE a = 1"
    );
    assert_eq!(quote_from_path("SELECT * FROM ."), "SELECT * FROM `.`");
}

#[test]
fn quote_keeps_quoted_path() {
    assert_eq!(
        quote_from_path("SELECT * FROM `./notes`"),
        "SELECT * FROM `./notes`"
    );
    assert_eq!(
        quote_from_path("SELECT * FROM \"./notes\""),
        "SELECT * FROM \"./notes\""
    );
}

#[test]
fn quote_without_from() {
    assert_eq!(quote_from_path("SELECT 1"), "SELECT 1");
}

#[test]
fn preprocess_both_rewrites() {
    assert_eq!(
        preprocess_sql("SELECT title FROM ./n WHERE tags CONTAINS 'rust'").unwrap(),
        "SELECT title FROM `./n` WHERE CONTAINS(tags, 'rust')"
    );
}

#[test]
fn like_laws_on_examples() {
    for text in ["", "a", "hello world", "ÄÖÜ"] {
        assert!(like_match(text, "%"));
    }
    assert!(like_match("Plain", "plain"));
    assert!(!like_match("plain", "plai"));
    assert!(!like_match("plain", "plainer"));
    assert!(like_match("x", "_"));
    assert!(!like_match("", "_"));
    assert!(!like_match("xy", "_"));
}

#[test]
fn text_without_contains_is_not_rewritten() {
    let sql = "SELECT title FROM . WHERE status = 'draft'";
    assert_eq!(rewrite_contains(sql).unwrap(), sql);
    assert_eq!(rewrite_contains("tags contains 'x'").unwrap(), "CONTAINS(tags, 'x')");
}

#[test]
fn quoted_from_path_is_kept() {
    let sql = "SELECT title FROM `./notes` WHERE x = 1";
    assert_eq!(quote_from_path(sql), sql);
    let sql = "SELECT title FROM \"./notes\"";
    assert_eq!(quote_from_path(sql), sql);
    assert_eq!(quote_from_path("SELECT 1"), "SELECT 1");
    assert_eq!(quote_from_path("SELECT title FROM ./a b"), "SELECT title FROM `./a` b");
}

#[test]
fn from_is_matched_as_a_word() {
    assert_eq!(quote_from_path("SELECT date_from FROM ./notes"), "SELECT date_from FROM `./notes`");
    assert_eq!(quote_from_path("SELECT fromage from ./a"), "SELECT fromage from `./a`");
}

#[test]
fn contains_rewrite_on_non_ascii_operand() {
    assert_eq!(rewrite_contains("é CONTAINS 'x'").unwrap(), "CONTAINS(é, 'x')");
    assert_eq!(
        preprocess_sql("SELECT a FROM ./n WHERE café CONTAINS 'ü'").unwrap(),
        "SELECT a FROM `./n` WHERE CONTAINS(café, 'ü')"
    );
}

#[test]
fn like_past_the_end_of_the_value() {
    let value: Vec<char> = "ab".chars().collect();
    let any: Vec<char> = vec!['%'];
    assert!(like_match_inner(&value, &any, 2, 0));
    assert!(!like_match_inner(&value, &any, 3, 0));
    assert!(!like_match_inner(&vec!['A'], &vec!['a'], 0, 0));
}

#[test]
fn token_end_past_the_text() {
    let chars: Vec<char> = "ab cd".chars().collect();
    assert_eq!(find_token_end(&chars, 3), 5);
    assert_eq!(find_token_end(&chars, 9), 9);
    assert_eq!(find_token_end(&chars, 5), 5);
}

#[test]
fn ascii_text_without_the_operator_is_unchanged() {
    let sql = "SELECT path FROM . WHERE CONTAINS(tags, 'rust')";
    assert_eq!(rewrite_contains(sql).unwrap(), sql);
}

#[test]
fn unicode_whitespace_separates_tokens() {
    let chars: Vec<char> = "\u{3000}ab\u{2003}cd".chars().collect();
    assert_eq!(find_token_end(&chars, 0), 3);
    assert_eq!(find_token_end(&chars, 3), 6);
}

#[test]
fn quoting_twice_is_quoting_once() {
    for sql in ["SELECT a FROM ./notes", "SELECT date_from FROM ./n WHERE x = 1", "select * from", "SELECT a FROM `x`"] {
        let once = quote_from_path(sql);
        assert_eq!(quote_from_path(&once), once);
    }
    assert_eq!(quote_from_path("select * from"), "select * from``");
}
