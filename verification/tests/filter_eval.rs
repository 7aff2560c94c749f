use chrono::Datelike;
use mdquery::ast::{BinOp, Expr};
use mdquery::calendar::Date;
use mdquery::filter::{eval_expr, eval_function_pub, eval_to_value_pub, is_truthy};
use mdquery::row::Row;
use mdquery::value::Value;

fn date(y: i32, m: u32, d: u32) -> Date {
    Date::from_ymd(y, m, d).unwrap()
}

fn day_of(d: chrono::NaiveDate) -> Date {
    Date::from_days(d.num_days_from_ce()).unwrap()
}

fn today() -> Date {
    day_of(chrono::Local::now().date_naive())
}

fn make_row() -> Row {
    let mut row = Row::new();
    row.insert("title".into(), Value::String("Hello World".into()));
    row.insert("status".into(), Value::String("draft".into()));
    row.insert("count".into(), Value::Int(42));
    row.insert(
        "tags".into(),
        Value::Array(vec![
            Value::String("rust".into()),
            Value::String("cli".into()),
        ]),
    );
    row.insert("date".into(), Value::Date(date(2025, 3, 15)));
    row
}

fn passes(expr: &Expr, row: &Row) -> bool {
    eval_expr(expr, row, &today()).unwrap()
}

fn column(name: &str) -> Box<Expr> {
    Box::new(Expr::Column(name.into()))
}

fn text(s: &str) -> Box<Expr> {
    Box::new(Expr::Literal(Value::String(s.into())))
}

#[test]
fn eq_string() {
    let row = make_row();
    let expr = Expr::BinaryOp { left: column("status"), op: BinOp::Eq, right: text("draft") };
    assert!(passes(&expr, &row));
}

#[test]
fn eq_string_mismatch() {
    let row = make_row();
    let expr = Expr::BinaryOp { left: column("status"), op: BinOp::Eq, right: text("published") };
    assert!(!passes(&expr, &row));
}

#[test]
fn not_eq() {
    let row = make_row();
    let expr = Expr::BinaryOp { left: column("status"), op: BinOp::NotEq, right: text("published") };
    assert!(passes(&expr, &row));
}

#[test]
fn gt_int() {
    let row = make_row();
    let expr = Expr::BinaryOp {
        left: column("count"),
        op: BinOp::Gt,
        right: Box::new(Expr::Literal(Value::Int(10))),
    };
    assert!(passes(&expr, &row));
}

#[test]
fn and_expr() {
    let row = make_row();
    let expr = Expr::BinaryOp {
        left: Box::new(Expr::BinaryOp { left: column("status"), op: BinOp::Eq, right: text("draft") }),
        op: BinOp::And,
        right: Box::new(Expr::BinaryOp {
            left: column("count"),
            op: BinOp::Gt,
            right: Box::new(Expr::Literal(Value::Int(10))),
        }),
    };
    assert!(passes(&expr, &row));
}

#[test]
fn or_expr() {
    let row = make_row();
    let expr = Expr::BinaryOp {
        left: Box::new(Expr::BinaryOp { left: column("status"), op: BinOp::Eq, right: text("published") }),
        op: BinOp::Or,
        right: Box::new(Expr::BinaryOp {
            left: column("count"),
            op: BinOp::Gt,
            right: Box::new(Expr::Literal(Value::Int(10))),
        }),
    };
    assert!(passes(&expr, &row));
}

#[test]
fn not_expr() {
    let row = make_row();
    let expr = Expr::Not(Box::new(Expr::BinaryOp {
        left: column("status"),
        op: BinOp::Eq,
        right: text("published"),
    }));
    assert!(passes(&expr, &row));
}

#[test]
fn like_pattern() {
    let row = make_row();
    let expr = Expr::Like { expr: column("title"), pattern: text("%world") };
    assert!(passes(&expr, &row));
}

#[test]
fn like_pattern_no_match() {
    let row = make_row();
    let expr = Expr::Like { expr: column("title"), pattern: text("%foo%") };
    assert!(!passes(&expr, &row));
}

#[test]
fn is_null_missing_column() {
    let row = make_row();
    let expr = Expr::IsNull(column("nonexistent"));
    assert!(passes(&expr, &row));
}

#[test]
fn contains_function_array() {
    let row = make_row();
    let expr = Expr::Function {
        name: "CONTAINS".into(),
        args: vec![Expr::Column("tags".into()), Expr::Literal(Value::String("rust".into()))],
    };
    assert!(passes(&expr, &row));
}

#[test]
fn contains_function_string() {
    let row = make_row();
    let expr = Expr::Function {
        name: "CONTAINS".into(),
        args: vec![Expr::Column("title".into()), Expr::Literal(Value::String("World".into()))],
    };
    assert!(passes(&expr, &row));
}

fn now() -> Expr {
    Expr::Function { name: "NOW".into(), args: vec![] }
}

#[test]
fn now_returns_today() {
    let row = make_row();
    let val = eval_to_value_pub(&now(), &row, &today()).unwrap();
    assert_eq!(val, Value::Date(day_of(chrono::Local::now().date_naive())));
}

#[test]
fn date_sub() {
    let row = make_row();
    let expr = Expr::Function {
        name: "DATE_SUB".into(),
        args: vec![now(), Expr::Literal(Value::Int(7))],
    };
    let val = eval_to_value_pub(&expr, &row, &today()).unwrap();
    let expected = chrono::Local::now().date_naive() - chrono::Days::new(7);
    assert_eq!(val, Value::Date(day_of(expected)));
}

#[test]
fn date_add() {
    let row = make_row();
    let expr = Expr::Function {
        name: "DATE_ADD".into(),
        args: vec![now(), Expr::Literal(Value::Int(30))],
    };
    let val = eval_to_value_pub(&expr, &row, &today()).unwrap();
    let expected = chrono::Local::now().date_naive() + chrono::Days::new(30);
    assert_eq!(val, Value::Date(day_of(expected)));
}

#[test]
fn date_comparison_with_now() {
    let row = make_row();
    let expr = Expr::BinaryOp { left: column("date"), op: BinOp::Lt, right: Box::new(now()) };
    assert!(passes(&expr, &row));
}

#[test]
fn date_sub_in_comparison() {
    let row = make_row();
    let expr = Expr::BinaryOp {
        left: column("date"),
        op: BinOp::Lt,
        right: Box::new(Expr::Function {
            name: "DATE_SUB".into(),
            args: vec![now(), Expr::Literal(Value::Int(30))],
        }),
    };
    assert!(passes(&expr, &row));
}

#[test]
fn date_add_then_sub_is_identity() {
    let row = make_row();
    let expr = Expr::Function {
        name: "DATE_SUB".into(),
        args: vec![
            Expr::Function {
                name: "DATE_ADD".into(),
                args: vec![Expr::Column("date".into()), Expr::Literal(Value::Int(400))],
            },
            Expr::Literal(Value::Int(400)),
        ],
    };
    let val = eval_to_value_pub(&expr, &row, &today()).unwrap();
    assert_eq!(val, Value::Date(date(2025, 3, 15)));
}

#[test]
fn date_function_parses_literal() {
    let row = make_row();
    let expr = Expr::Function {
        name: "DATE".into(),
        args: vec![Expr::Literal(Value::String("2025-01-01".into()))],
    };
    let val = eval_to_value_pub(&expr, &row, &today()).unwrap();
    assert_eq!(val, Value::Date(date(2025, 1, 1)));
    let bad = Expr::Function {
        name: "DATE".into(),
        args: vec![Expr::Literal(Value::String("not a date".into()))],
    };
    assert_eq!(eval_to_value_pub(&bad, &row, &today()).unwrap(), Value::Null);
}

#[test]
fn date_sub_out_of_range_is_refused() {
    let row = make_row();
    let expr = Expr::Function {
        name: "DATE_SUB".into(),
        args: vec![now(), Expr::Literal(Value::Int(i64::MAX))],
    };
    assert!(eval_to_value_pub(&expr, &row, &today()).is_none());
}

#[test]
fn string_functions() {
    let row = make_row();
    let args = vec![Expr::Column("title".into())];
    assert_eq!(
        eval_function_pub("LOWER", &args, &row, &today()).unwrap(),
        Value::String("hello world".into())
    );
    assert_eq!(
        eval_function_pub("UPPER", &args, &row, &today()).unwrap(),
        Value::String("HELLO WORLD".into())
    );
    assert_eq!(eval_function_pub("LEN", &args, &row, &today()).unwrap(), Value::Int(11));
    let tags = vec![Expr::Column("tags".into())];
    assert_eq!(eval_function_pub("LEN", &tags, &row, &today()).unwrap(), Value::Int(2));
    assert_eq!(eval_function_pub("NOPE", &args, &row, &today()).unwrap(), Value::Null);
}

#[test]
fn in_list_evaluation() {
    let row = make_row();
    let list = vec![
        Expr::Literal(Value::String("review".into())),
        Expr::Literal(Value::String("draft".into())),
    ];
    let inside = Expr::InList { expr: column("status"), list: list, negated: false };
    assert!(passes(&inside, &row));
    let outside = Expr::InList {
        expr: column("status"),
        list: vec![Expr::Literal(Value::String("archived".into()))],
        negated: true,
    };
    assert!(passes(&outside, &row));
}

#[test]
fn truthiness() {
    assert!(!is_truthy(&Value::Null));
    assert!(!is_truthy(&Value::Bool(false)));
    assert!(is_truthy(&Value::Bool(true)));
    assert!(is_truthy(&Value::Int(0)));
    assert!(is_truthy(&Value::String(String::new())));
}

#[test]
fn int_and_float_compare() {
    let row = make_row();
    let half = 42.5f64;
    let expr = Expr::BinaryOp {
        left: column("count"),
        op: BinOp::Lt,
        right: Box::new(Expr::Literal(Value::Float(mdquery::value::Float::new(half.to_bits(), half.to_string())))),
    };
    assert!(passes(&expr, &row));
}

#[test]
fn content_free_filter_ignores_content() {
    let without = make_row();
    let mut with = make_row();
    with.insert("content".into(), Value::String("a long body".into()));
    let expr = Expr::BinaryOp {
        left: Box::new(Expr::Function { name: "UPPER".into(), args: vec![Expr::Column("status".into())] }),
        op: BinOp::Eq,
        right: text("DRAFT"),
    };
    assert_eq!(eval_expr(&expr, &without, &today()), eval_expr(&expr, &with, &today()));
    assert_eq!(eval_expr(&expr, &with, &today()), Some(true));
}

#[test]
fn date_shifts_by_a_negative_count() {
    let row = Row::new();
    let d = || Expr::Literal(Value::Date(date(2025, 3, 15)));
    let sub = eval_function_pub("DATE_SUB", &vec![d(), Expr::Literal(Value::Int(-1))], &row, &today());
    assert_eq!(sub, Some(Value::Date(date(2025, 3, 16))));
    let add = eval_function_pub("DATE_ADD", &vec![d(), Expr::Literal(Value::Int(-1))], &row, &today());
    assert_eq!(add, Some(Value::Date(date(2025, 3, 14))));
}

fn match_of(text: &str, query: &str) -> Option<Value> {
    let args = vec![Expr::Literal(Value::String(text.into())), Expr::Literal(Value::String(query.into()))];
    eval_function_pub("MATCH", &args, &Row::new(), &today())
}

#[test]
fn match_falls_back_to_a_substring() {
    assert_eq!(match_of("Alpha content about async runtimes in Rust.", "async runtimes"), Some(Value::Bool(true)));
    assert_eq!(match_of("Beta content about Go channels.", "async runtimes"), Some(Value::Bool(false)));
    // The fuzzy pattern reads a leading `!` as "must not contain", so only
    // the substring match finds this one.
    assert_eq!(match_of("say !foo now", "!FOO"), Some(Value::Bool(true)));
}

#[test]
fn swapped_operands_give_the_same_answer() {
    let lit = |v: Value| Box::new(Expr::Literal(v));
    let row = Row::new();
    let lt = Expr::BinaryOp { left: lit(Value::Int(1)), op: BinOp::Lt, right: lit(Value::Int(2)) };
    let gt = Expr::BinaryOp { left: lit(Value::Int(2)), op: BinOp::Gt, right: lit(Value::Int(1)) };
    assert_eq!(eval_to_value_pub(&lt, &row, &today()), eval_to_value_pub(&gt, &row, &today()));
    let eq = Expr::BinaryOp { left: lit(Value::String("a".into())), op: BinOp::Eq, right: lit(Value::Int(1)) };
    let qe = Expr::BinaryOp { left: lit(Value::Int(1)), op: BinOp::Eq, right: lit(Value::String("a".into())) };
    assert_eq!(eval_to_value_pub(&eq, &row, &today()), Some(Value::Bool(false)));
    assert_eq!(eval_to_value_pub(&qe, &row, &today()), Some(Value::Bool(false)));
}

#[test]
fn wrong_arity_and_unknown_functions() {
    let row = Row::new();
    let x = || Expr::Literal(Value::String("x".into()));
    assert_eq!(eval_function_pub("MATCH", &vec![x()], &row, &today()), Some(Value::Bool(false)));
    assert_eq!(eval_function_pub("LEN", &vec![], &row, &today()), Some(Value::Null));
    assert_eq!(eval_function_pub("DATE_ADD", &vec![x()], &row, &today()), Some(Value::Null));
    assert_eq!(eval_function_pub("lower", &vec![x()], &row, &today()), Some(Value::Null));
}

#[test]
fn date_add_then_sub_is_the_date() {
    let row = Row::new();
    let d = || Expr::Literal(Value::Date(date(2025, 3, 15)));
    let n = || Expr::Literal(Value::Int(30));
    let added = eval_function_pub("DATE_ADD", &vec![d(), n()], &row, &today()).unwrap();
    assert_eq!(added, Value::Date(date(2025, 4, 14)));
    let back = eval_function_pub("DATE_SUB", &vec![Expr::Literal(added), n()], &row, &today());
    assert_eq!(back, Some(Value::Date(date(2025, 3, 15))));
}
