use std::cmp::Ordering;

use mdquery::calendar::{Date, DateTime};
use mdquery::output::table::render;
use mdquery::output::{render_csv, Format};
use mdquery::reader::FrontNode;
use mdquery::row::Row;
use mdquery::value::{compare_values, Float, Value};

#[test]
fn from_yaml_string() {
    let yaml = FrontNode::Str("hello".into());
    assert_eq!(Value::from_yaml(&yaml), Value::String("hello".into()));
}

#[test]
fn from_yaml_date() {
    let yaml = FrontNode::Str("2025-01-15".into());
    let expected = Value::Date(Date::from_ymd(2025, 1, 15).unwrap());
    assert_eq!(Value::from_yaml(&yaml), expected);
}

#[test]
fn from_yaml_int() {
    let yaml = FrontNode::Number { integer: Some(42), float: None };
    assert_eq!(Value::from_yaml(&yaml), Value::Int(42));
}

#[test]
fn from_yaml_array() {
    let yaml = FrontNode::List(vec![FrontNode::Str("rust".into()), FrontNode::Str("cli".into())]);
    assert_eq!(
        Value::from_yaml(&yaml),
        Value::Array(vec![Value::String("rust".into()), Value::String("cli".into())])
    );
}

#[test]
fn from_yaml_datetime_tagged_and_mapping() {
    let dt = Value::from_yaml(&FrontNode::Str("2025-01-15T10:30:00".into()));
    assert_eq!(dt.display(), "2025-01-15 10:30:00");
    let tagged = FrontNode::Tagged(Box::new(FrontNode::Bool(true)));
    assert_eq!(Value::from_yaml(&tagged), Value::Bool(true));
    let map = FrontNode::Mapping("{a: 1}".into());
    assert_eq!(Value::from_yaml(&map), Value::String("{a: 1}".into()));
    let x = 1.5f64;
    let f = Value::from_yaml(&FrontNode::Number { integer: None, float: Some(Float::new(x.to_bits(), x.to_string())) });
    assert_eq!(f.display(), "1.5");
    assert_eq!(Value::from_yaml(&FrontNode::Number { integer: None, float: None }), Value::Null);
}

#[test]
fn contains_array() {
    let arr = Value::Array(vec![Value::String("rust".into()), Value::String("cli".into())]);
    assert!(arr.contains(&Value::String("rust".into())));
    assert!(!arr.contains(&Value::String("go".into())));
}

#[test]
fn contains_string() {
    let s = Value::String("hello world".into());
    assert!(s.contains(&Value::String("world".into())));
    assert!(!s.contains(&Value::String("foo".into())));
}

#[test]
fn ordering() {
    let a = Value::Int(1);
    let b = Value::Int(2);
    assert_eq!(a.partial_cmp(&b), Some(Ordering::Less));

    let a = Value::Date(Date::from_ymd(2025, 1, 1).unwrap());
    let b = Value::Date(Date::from_ymd(2025, 6, 1).unwrap());
    assert_eq!(a.partial_cmp(&b), Some(Ordering::Less));
}

#[test]
fn ordering_across_kinds() {
    let nan = f64::NAN;
    let n = Value::Float(Float::new(nan.to_bits(), nan.to_string()));
    assert_eq!(n.partial_cmp(&n), None);
    assert_eq!(Value::Int(1).partial_cmp(&Value::String("1".into())), None);
    let two = 2.0f64;
    let f = Value::Float(Float::new(two.to_bits(), two.to_string()));
    assert_eq!(Value::Int(2).partial_cmp(&f), Some(Ordering::Equal));
    assert_eq!(compare_values(&Value::String("b".into()), &Value::String("a".into())), Some(1));
    assert_eq!(Value::Bool(false).partial_cmp(&Value::Bool(true)), Some(Ordering::Less));
}

#[test]
fn display_texts() {
    assert_eq!(Value::Null.display(), "null");
    assert_eq!(Value::Bool(true).display(), "true");
    assert_eq!(Value::Int(-7).display(), "-7");
    let arr = Value::Array(vec![Value::Int(1), Value::String("a".into()), Value::Null]);
    assert_eq!(arr.display(), "[1, a, null]");
    assert_eq!(Value::Date(Date::from_ymd(2025, 3, 5).unwrap()).display(), "2025-03-05");
}

#[test]
fn row_insert_and_get() {
    let mut row = Row::new();
    row.insert("title".into(), Value::String("Hello".into()));
    assert_eq!(row.get("title"), Some(&Value::String("Hello".into())));
    assert_eq!(row.get("missing"), None);
}

#[test]
fn row_insert_replaces() {
    let mut row = Row::new();
    row.insert("b".into(), Value::Int(1));
    row.insert("a".into(), Value::Int(2));
    row.insert("b".into(), Value::Int(3));
    assert_eq!(row.get("b"), Some(&Value::Int(3)));
    assert_eq!(row.keys(), vec!["a".to_string(), "b".to_string()]);
}

fn make_rows() -> (Vec<Row>, Vec<String>) {
    let mut rows = Vec::new();
    for (title, status) in [("Alpha", "draft"), ("Beta", "published")] {
        let mut row = Row::new();
        row.insert("title".into(), Value::String(title.into()));
        row.insert("status".into(), Value::String(status.into()));
        rows.push(row);
    }
    (rows, vec!["title".into(), "status".into()])
}

#[test]
fn csv_output() {
    let (rows, cols) = make_rows();
    let output = render_csv(&rows, &cols);
    let lines: Vec<&str> = output.trim().split('\n').collect();
    assert_eq!(lines.len(), 3);
    assert!(lines[0].contains("title"));
}

#[test]
fn table_output() {
    let (rows, cols) = make_rows();
    let output = render(&rows, &cols);
    assert!(output.contains("Alpha"));
    assert!(output.contains("Beta"));
}

#[test]
fn csv_cells_for_missing_columns_are_empty() {
    let (rows, _) = make_rows();
    let cols = vec!["title".to_string(), "missing".to_string()];
    assert_eq!(render_csv(&rows, &cols), "title,missing\nAlpha,\nBeta,\n");
    let table = render(&rows, &cols);
    assert!(table.contains("null"));
}

#[test]
fn format_names() {
    assert_eq!(Format::from_str("table"), Ok(Format::Table));
    assert_eq!(Format::from_str("JSON"), Ok(Format::Json));
    assert_eq!(Format::from_str("Csv"), Ok(Format::Csv));
    assert_eq!(
        Format::from_str("xml"),
        Err("unknown format: xml (expected: table, json, csv)".to_string())
    );
}

#[test]
fn comparison_is_antisymmetric() {
    let two = 2.5f64;
    let values = vec![
        Value::Int(3),
        Value::Float(Float::new(two.to_bits(), two.to_string())),
        Value::String("abc".into()),
        Value::String("abd".into()),
        Value::Bool(true),
        Value::Date(Date::from_ymd(2024, 2, 29).unwrap()),
        Value::Null,
    ];
    for a in &values {
        for b in &values {
            match compare_values(a, b) {
                Some(s) => assert_eq!(compare_values(b, a), Some(-s)),
                None => assert_eq!(compare_values(b, a), None),
            }
        }
    }
}

#[test]
fn calendar_day_numbers() {
    assert_eq!(Date::from_ymd(2025, 3, 15).unwrap().days(), 739325);
    assert_eq!(Date::from_ymd(1, 1, 1).unwrap().days(), 1);
    assert!(Date::from_ymd(2015, 2, 29).is_none());
    assert!(Date::from_ymd(-4, 2, 29).is_some());
    assert!(Date::from_ymd(400000, 1, 1).is_none());
    assert_eq!(Date::from_ymd(262142, 12, 31).unwrap().days(), 95745399);
    assert_eq!(Date::from_ymd(-262143, 1, 1).unwrap().days(), -95746129);
}

#[test]
fn dates_and_times_display_as_chrono_writes_them() {
    let d = |y, m, dd| Value::Date(Date::from_ymd(y, m, dd).unwrap()).display();
    assert_eq!(d(2025, 3, 15), "2025-03-15");
    assert_eq!(d(12345, 1, 2), "+12345-01-02");
    assert_eq!(d(-1, 1, 1), "-0001-01-01");
    assert_eq!(d(7, 11, 30), "0007-11-30");
    let day = Date::from_ymd(2025, 3, 15).unwrap();
    let t = |secs, nanos| Value::DateTime(DateTime::from_parts(day, secs, nanos).unwrap()).display();
    assert_eq!(t(3661, 500_000_000), "2025-03-15 01:01:01.500");
    assert_eq!(t(3661, 1_500), "2025-03-15 01:01:01.000001500");
    assert_eq!(t(59, 1_000_000_000), "2025-03-15 00:00:60");
}
