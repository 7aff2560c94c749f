use mdquery::ast::{Expr, OrderBy, OrderDir};
use mdquery::calendar::Date;
use mdquery::row::Row;
use mdquery::sort::sort_rows;
use mdquery::value::Value;

fn make_rows() -> Vec<Row> {
    let mut rows = Vec::new();
    for (title, (y, m, d)) in [("Gamma", (2025, 3, 10)), ("Alpha", (2025, 1, 1)), ("Beta", (2025, 6, 15))] {
        let mut row = Row::new();
        row.insert("title".into(), Value::String(title.into()));
        row.insert("date".into(), Value::Date(Date::from_ymd(y, m, d).unwrap()));
        rows.push(row);
    }
    rows
}

fn titles(rows: &[Row]) -> Vec<String> {
    rows.iter().map(|r| r.get("title").unwrap().display()).collect()
}

#[test]
fn sort_by_string_asc() {
    let mut rows = make_rows();
    let order = vec![OrderBy { expr: Expr::Column("title".into()), dir: OrderDir::Asc }];
    sort_rows(&mut rows, &order);
    assert_eq!(titles(&rows), vec!["Alpha", "Beta", "Gamma"]);
}

#[test]
fn sort_by_date_desc() {
    let mut rows = make_rows();
    let order = vec![OrderBy { expr: Expr::Column("date".into()), dir: OrderDir::Desc }];
    sort_rows(&mut rows, &order);
    assert_eq!(titles(&rows), vec!["Beta", "Gamma", "Alpha"]);
}

#[test]
fn sort_is_stable_for_equal_keys() {
    let mut rows = Vec::new();
    for (title, group) in [("a", 2), ("b", 1), ("c", 2), ("d", 1)] {
        let mut row = Row::new();
        row.insert("title".into(), Value::String(title.into()));
        row.insert("group".into(), Value::Int(group));
        rows.push(row);
    }
    let order = vec![OrderBy { expr: Expr::Column("group".into()), dir: OrderDir::Asc }];
    sort_rows(&mut rows, &order);
    assert_eq!(titles(&rows), vec!["b", "d", "a", "c"]);
}

#[test]
fn incomparable_keys_keep_order() {
    let mut rows = Vec::new();
    for title in ["x", "y", "z"] {
        let mut row = Row::new();
        row.insert("title".into(), Value::String(title.into()));
        rows.push(row);
    }
    let order = vec![OrderBy { expr: Expr::Column("missing".into()), dir: OrderDir::Desc }];
    sort_rows(&mut rows, &order);
    assert_eq!(titles(&rows), vec!["x", "y", "z"]);
}
