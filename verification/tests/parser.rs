use mdquery::ast::{BinOp, Expr, OrderDir, Query, SelectItem};
use mdquery::number::{parse_i64, parse_usize, IntErrorKind};
use mdquery::parser::{float_literals, sql_statements, ParseError};
use mdquery::value::{Float, Value};

fn parse(sql: &str) -> Result<Query, ParseError> {
    mdquery::parser::parse(sql, &Vec::new())
}

#[test]
fn parse_simple_select() {
    let q = parse("SELECT title, date FROM .").unwrap();
    assert_eq!(q.columns.len(), 2);
    assert_eq!(q.from, ".");
    assert!(q.filter.is_none());
    assert!(!q.needs_content);
}

#[test]
fn parse_select_star() {
    let q = parse("SELECT * FROM ./notes").unwrap();
    assert!(matches!(q.columns[0], SelectItem::AllColumns));
    assert_eq!(q.from, "./notes");
    assert!(q.needs_content);
}

#[test]
fn parse_where_eq() {
    let q = parse("SELECT title FROM . WHERE status = 'draft'").unwrap();
    assert!(q.filter.is_some());
    let filter = q.filter.unwrap();
    assert!(matches!(filter, Expr::BinaryOp { op: BinOp::Eq, .. }));
}

#[test]
fn parse_order_by() {
    let q = parse("SELECT title FROM . ORDER BY date DESC").unwrap();
    assert_eq!(q.order_by.len(), 1);
    assert!(matches!(q.order_by[0].dir, OrderDir::Desc));
}

#[test]
fn parse_limit_offset() {
    let q = parse("SELECT title FROM . LIMIT 10 OFFSET 5").unwrap();
    assert_eq!(q.limit, Some(10));
    assert_eq!(q.offset, Some(5));
}

#[test]
fn parse_like() {
    let q = parse("SELECT title FROM . WHERE title LIKE '%query%'").unwrap();
    assert!(matches!(q.filter, Some(Expr::Like { .. })));
}

#[test]
fn parse_and_or() {
    let q = parse("SELECT title FROM . WHERE status = 'draft' AND tags = 'rust'").unwrap();
    assert!(matches!(q.filter, Some(Expr::BinaryOp { op: BinOp::And, .. })));
}

#[test]
fn parse_function_in_where() {
    let q = parse("SELECT title FROM . WHERE MATCH(content, 'async runtime')").unwrap();
    assert!(q.needs_content);
}

#[test]
fn content_not_needed_for_frontmatter_only() {
    let q = parse("SELECT title, tags FROM . WHERE status = 'draft'").unwrap();
    assert!(!q.needs_content);
}

#[test]
fn contains_operator_rewrite() {
    let q = parse("SELECT title FROM . WHERE tags CONTAINS 'rust'").unwrap();
    assert!(matches!(q.filter, Some(Expr::Function { ref name, .. }) if name == "CONTAINS"));
}

#[test]
fn contains_operator_in_and() {
    let q = parse("SELECT title FROM . WHERE tags CONTAINS 'rust' AND status = 'draft'").unwrap();
    assert!(matches!(q.filter, Some(Expr::BinaryOp { op: BinOp::And, .. })));
}

#[test]
fn count_star() {
    let q = parse("SELECT COUNT(*) FROM .").unwrap();
    assert!(q.is_aggregate);
    assert!(matches!(&q.columns[0], SelectItem::Function { name, .. } if name == "COUNT"));
}

#[test]
fn parse_in_list() {
    let q = parse("SELECT title FROM . WHERE status IN ('draft', 'review')").unwrap();
    assert!(matches!(q.filter, Some(Expr::InList { negated: false, .. })));
}

#[test]
fn parse_not_in_list() {
    let q = parse("SELECT title FROM . WHERE status NOT IN ('archived')").unwrap();
    assert!(matches!(q.filter, Some(Expr::InList { negated: true, .. })));
}

#[test]
fn parse_distinct() {
    let q = parse("SELECT DISTINCT status FROM .").unwrap();
    assert!(q.distinct);
}

#[test]
fn parse_group_by() {
    let q = parse("SELECT status, COUNT(*) FROM . GROUP BY status").unwrap();
    assert_eq!(q.group_by.len(), 1);
    assert!(q.is_aggregate);
    assert!(matches!(&q.group_by[0], Expr::Column(name) if name == "status"));
}

#[test]
fn non_distinct_default() {
    let q = parse("SELECT title FROM .").unwrap();
    assert!(!q.distinct);
}

#[test]
fn function_names_are_upper_case() {
    let q = parse("SELECT lower(title) FROM . WHERE contains(tags, 'x')").unwrap();
    assert!(matches!(&q.columns[0], SelectItem::Function { name, .. } if name == "LOWER"));
    assert!(matches!(q.filter, Some(Expr::Function { ref name, .. }) if name == "CONTAINS"));
}

#[test]
fn literals_and_null_checks() {
    let q = parse("SELECT title FROM . WHERE a IS NOT NULL AND b = 42 AND c = TRUE AND d IS NULL").unwrap();
    let text = format!("{:?}", q.filter.unwrap());
    assert!(text.contains("Not(IsNull(Column(\"a\")))"));
    assert!(text.contains("Int(42)"));
    assert!(text.contains("Bool(true)"));
    assert!(text.contains("IsNull(Column(\"d\"))"));
}

#[test]
fn not_like_is_negated_like() {
    let q = parse("SELECT title FROM . WHERE title NOT LIKE 'a%'").unwrap();
    assert!(matches!(q.filter, Some(Expr::Not(ref inner)) if matches!(**inner, Expr::Like { .. })));
}

#[test]
fn from_path_without_quotes() {
    let q = parse("SELECT title FROM ./my-notes WHERE x = 1").unwrap();
    assert_eq!(q.from, "./my-notes");
    let q = parse("SELECT title").unwrap();
    assert_eq!(q.from, ".");
}

#[test]
fn errors_have_messages() {
    let e = parse("SELECT title FROM a ; SELECT b FROM c").unwrap_err();
    assert_eq!(e.message(), "expected exactly one SQL statement");
    let e = parse("").unwrap_err();
    assert_eq!(e.message(), "expected exactly one SQL statement");
    let e = parse("SELECT title FROM . LIMIT 'x'").unwrap_err();
    assert_eq!(e.message(), "LIMIT must be a number");
    let e = parse("SELECT title FROM . OFFSET x").unwrap_err();
    assert_eq!(e.message(), "OFFSET must be a number");
    let e = parse("SELECT a + b FROM .").unwrap_err();
    assert_eq!(e.message(), "unsupported select expression: a + b");
    let e = parse("SELECT title FROM . WHERE a + b = 1").unwrap_err();
    assert_eq!(e.message(), "unsupported operator: +");
    let e = parse("SELECT title FROM . WHERE a BETWEEN 1 AND 2").unwrap_err();
    assert_eq!(e.message(), "unsupported expression: a BETWEEN 1 AND 2");
    let e = parse("SELECT title FROM . LIMIT 1.5").unwrap_err();
    assert_eq!(e.message(), "invalid digit found in string");
    let e = parse("SELEC title FROM .").unwrap_err();
    assert!(matches!(e, ParseError::Sql(_)));
    assert!(e.message().starts_with("sql parser error: "));
}

#[test]
fn float_literals_come_from_the_table() {
    let stmts = sql_statements("SELECT title FROM . WHERE score > 2.5").unwrap();
    let texts = float_literals(&stmts);
    assert_eq!(texts, vec!["2.5".to_string()]);
    let missing = mdquery::parser::parse("SELECT title FROM . WHERE score > 2.5", &Vec::new()).unwrap_err();
    assert_eq!(missing.message(), "invalid number: 2.5");
    let x = 2.5f64;
    let table = vec![("2.5".to_string(), Float::new(x.to_bits(), x.to_string()))];
    let q = mdquery::parser::parse("SELECT title FROM . WHERE score > 2.5", &table).unwrap();
    match q.filter {
        Some(Expr::BinaryOp { right, .. }) => match *right {
            Expr::Literal(Value::Float(f)) => assert_eq!(f.bits, x.to_bits()),
            other => panic!("unexpected {other:?}"),
        },
        other => panic!("unexpected {other:?}"),
    }
}

#[test]
fn integer_texts() {
    assert_eq!(parse_i64("42"), Some(42));
    assert_eq!(parse_i64("-9223372036854775808"), Some(i64::MIN));
    assert_eq!(parse_i64("9223372036854775808"), None);
    assert_eq!(parse_i64("+7"), Some(7));
    assert_eq!(parse_i64("-"), None);
    assert_eq!(parse_i64("1.5"), None);
    assert_eq!(parse_usize("10"), Ok(10));
    assert_eq!(parse_usize(""), Err(IntErrorKind::Empty));
    assert_eq!(parse_usize("-1"), Err(IntErrorKind::InvalidDigit));
    assert_eq!(parse_usize("99999999999999999999999"), Err(IntErrorKind::PosOverflow));
    assert_eq!(parse_usize("99999999999999999999999x"), Err(IntErrorKind::PosOverflow));
    assert_eq!(parse_usize("12x"), Err(IntErrorKind::InvalidDigit));
    assert_eq!("12x".parse::<usize>().is_err(), parse_usize("12x").is_err());
}

#[test]
fn more_error_kinds() {
    let e = parse("INSERT INTO t VALUES (1)").unwrap_err();
    assert_eq!(e.message(), "expected a SELECT query");
    let e = parse("SELECT a FROM b UNION SELECT c FROM d").unwrap_err();
    assert_eq!(e.message(), "expected a simple SELECT (no UNION, etc.)");
    let e = parse("SELECT a FROM b GROUP BY ALL").unwrap_err();
    assert_eq!(e.message(), "GROUP BY ALL is not supported");
    let q = parse("SELECT a FROM b ORDER BY ALL").unwrap();
    assert!(matches!(&q.order_by[0].expr, Expr::Column(name) if name == "ALL"));
    let e = parse("SELECT t.* FROM b").unwrap_err();
    assert_eq!(e.message(), "unsupported select item: t.*");
    let e = parse("SELECT a FROM b WHERE f(x => 1)").unwrap_err();
    assert_eq!(e.message(), "unsupported function argument");
    let e = parse("SELECT a FROM b WHERE a = X'AB'").unwrap_err();
    assert_eq!(e.message(), "unsupported value: X'AB'");
    let e = parse("SELECT a FROM b WHERE a = 1 LIMIT 99999999999999999999999").unwrap_err();
    assert_eq!(e.message(), "number too large to fit in target type");
}

#[test]
fn content_in_a_function_argument_is_needed() {
    let q = parse("SELECT LEN(content) FROM .").unwrap();
    assert!(q.needs_content);
    let w = parse("SELECT title FROM . WHERE LOWER(content) = 'x'").unwrap();
    assert!(w.needs_content);
}

#[test]
fn parse_text_reads_any_text() {
    let q = mdquery::parser::parse_text("SELECT date_from FROM ./notes", &Vec::new());
    let q = q.unwrap().unwrap();
    assert_eq!(q.from, "./notes");
    assert!(matches!(mdquery::parser::parse_text("SELEKT title FROM .", &Vec::new()), Some(Err(_))));
}
