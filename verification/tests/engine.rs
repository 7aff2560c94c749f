use chrono::Datelike;
use mdquery::calendar::Date;
use mdquery::engine::{column_names, deduplicate, execute};
use mdquery::parser::parse;
use mdquery::frontmatter::{frontmatter_float_texts, matter_float_texts, read_frontmatter, read_full_text};
use mdquery::reader::{file_row, frontmatter_yaml, FileFacts};
use mdquery::row::Row;
use mdquery::snippet::extract_snippet;
use mdquery::value::{Float, Value};

fn float_table(texts: Vec<String>) -> Vec<(String, Float)> {
    texts
        .into_iter()
        .filter_map(|text| {
            let value = text.parse::<f64>().ok()?;
            Some((text, Float::new(value.to_bits(), value.to_string())))
        })
        .collect()
}

fn today() -> Date {
    Date::from_days(chrono::Local::now().date_naive().num_days_from_ce()).unwrap()
}

/// The row that the program reads from a file `name` holding `text`.
fn file(name: &str, text: &str, needs_content: bool) -> Row {
    let (fields, content) = if needs_content {
        let floats = float_table(matter_float_texts(text));
        let (fields, content) = read_full_text(text, &floats);
        (fields, Some(content))
    } else {
        let lines: Vec<String> = text.lines().map(|l| l.to_string()).collect();
        let floats = float_table(frontmatter_float_texts(&lines));
        (read_frontmatter(&lines, &floats), None)
    };
    let facts = FileFacts {
        path: name.to_string(),
        filename: name.trim_end_matches(".md").to_string(),
        metadata: Some((text.len() as u64, Some(today()))),
    };
    file_row(fields, content, facts)
}

fn setup_rows(needs_content: bool) -> Vec<Row> {
    vec![
        file(
            "a.md",
            "---\ntitle: Alpha\nstatus: published\ndate: 2025-01-01\ntags:\n  - rust\n  - cli\n---\nAlpha content about async runtimes in Rust.\n",
            needs_content,
        ),
        file(
            "b.md",
            "---\ntitle: Beta\nstatus: draft\ndate: 2025-06-15\ntags:\n  - go\n---\nBeta content about Go channels.\n",
            needs_content,
        ),
        file(
            "c.md",
            "---\ntitle: Gamma\nstatus: published\ndate: 2025-03-10\n---\nGamma content about error handling patterns.\n",
            needs_content,
        ),
    ]
}

fn run(sql: &str) -> Vec<Row> {
    let query = parse(sql, &Vec::new()).unwrap();
    let rows = setup_rows(query.needs_content);
    execute(&query, &rows, &today()).unwrap()
}

#[test]
fn select_all_rows() {
    let rows = run("SELECT title FROM .");
    assert_eq!(rows.len(), 3);
}

#[test]
fn select_with_where() {
    let rows = run("SELECT title FROM . WHERE status = 'draft'");
    assert_eq!(rows.len(), 1);
    assert_eq!(rows[0].get("title"), Some(&Value::String("Beta".into())));
}

#[test]
fn select_with_order_by() {
    let rows = run("SELECT title FROM . ORDER BY title ASC");
    assert_eq!(rows.len(), 3);
    assert_eq!(rows[0].get("title"), Some(&Value::String("Alpha".into())));
    assert_eq!(rows[1].get("title"), Some(&Value::String("Beta".into())));
    assert_eq!(rows[2].get("title"), Some(&Value::String("Gamma".into())));
}

#[test]
fn select_with_limit() {
    let rows = run("SELECT title FROM . ORDER BY title ASC LIMIT 2");
    assert_eq!(rows.len(), 2);
}

#[test]
fn select_with_offset() {
    let rows = run("SELECT title FROM . ORDER BY title ASC LIMIT 1 OFFSET 1");
    assert_eq!(rows.len(), 1);
    assert_eq!(rows[0].get("title"), Some(&Value::String("Beta".into())));
}

#[test]
fn select_star() {
    let rows = run("SELECT * FROM .");
    assert_eq!(rows.len(), 3);
    assert!(rows[0].get("path").is_some());
    assert!(rows[0].get("content").is_some());
}

#[test]
fn projects_only_selected_columns() {
    let rows = run("SELECT title FROM . WHERE status = 'published'");
    for row in &rows {
        assert!(row.get("title").is_some());
        assert!(row.get("status").is_none());
    }
}

#[test]
fn mod_count_star() {
    let rows = run("SELECT COUNT(*) FROM .");
    assert_eq!(rows.len(), 1);
    assert_eq!(rows[0].get("COUNT(*)"), Some(&Value::Int(3)));
}

#[test]
fn count_with_where() {
    let rows = run("SELECT COUNT(*) FROM . WHERE status = 'published'");
    assert_eq!(rows.len(), 1);
    assert_eq!(rows[0].get("COUNT(*)"), Some(&Value::Int(2)));
}

#[test]
fn contains_operator() {
    let rows = run("SELECT title FROM . WHERE tags CONTAINS 'rust'");
    assert_eq!(rows.len(), 1);
    assert_eq!(rows[0].get("title"), Some(&Value::String("Alpha".into())));
}

#[test]
fn file_metadata_columns() {
    let rows = run("SELECT title, size, modified FROM .");
    for row in &rows {
        assert!(matches!(row.get("size"), Some(Value::Int(_))));
        assert!(matches!(row.get("modified"), Some(Value::Date(_))));
    }
}

#[test]
fn snippet_extraction() {
    let text = "This is a long document about async runtimes in Rust and how they work with futures.";
    let snippet = extract_snippet(text, "async runtimes", 20);
    assert!(snippet.contains("async runtimes"));
}

#[test]
fn match_in_where() {
    let rows = run("SELECT title FROM . WHERE MATCH(content, 'async runtimes')");
    assert_eq!(rows.len(), 1);
    assert_eq!(rows[0].get("title"), Some(&Value::String("Alpha".into())));
}

#[test]
fn in_list() {
    let rows = run("SELECT title FROM . WHERE status IN ('draft', 'review') ORDER BY title");
    assert_eq!(rows.len(), 1);
    assert_eq!(rows[0].get("title"), Some(&Value::String("Beta".into())));
}

#[test]
fn not_in_list() {
    let rows = run("SELECT title FROM . WHERE status NOT IN ('draft') ORDER BY title");
    assert_eq!(rows.len(), 2);
}

#[test]
fn distinct_values() {
    let rows = run("SELECT DISTINCT status FROM . ORDER BY status");
    assert_eq!(rows.len(), 2);
    let statuses: Vec<_> = rows.iter().map(|r| r.get("status").unwrap().display()).collect();
    assert_eq!(statuses, vec!["draft", "published"]);
}

#[test]
fn group_by_count() {
    let rows = run("SELECT status, COUNT(*) FROM . GROUP BY status ORDER BY status");
    assert_eq!(rows.len(), 2);
    let draft = rows
        .iter()
        .find(|r| r.get("status") == Some(&Value::String("draft".into())))
        .unwrap();
    assert_eq!(draft.get("COUNT(*)"), Some(&Value::Int(1)));
    let published = rows
        .iter()
        .find(|r| r.get("status") == Some(&Value::String("published".into())))
        .unwrap();
    assert_eq!(published.get("COUNT(*)"), Some(&Value::Int(2)));
}

#[test]
fn snippet_column_and_names() {
    let query = parse("SELECT title, SNIPPET(content, 'error handling') FROM . WHERE MATCH(content, 'error handling')", &Vec::new()).unwrap();
    let rows = execute(&query, &setup_rows(true), &today()).unwrap();
    assert_eq!(rows.len(), 1);
    let names = column_names(&query, rows.first());
    assert_eq!(names, vec!["title".to_string(), "SNIPPET('error handling')".to_string()]);
    match rows[0].get("SNIPPET('error handling')") {
        Some(Value::String(s)) => assert!(s.contains("error handling")),
        other => panic!("unexpected {other:?}"),
    }
}

#[test]
fn star_column_names_follow_the_sample_row() {
    let query = parse("SELECT * FROM . WHERE title = 'Beta'", &Vec::new()).unwrap();
    let rows = execute(&query, &setup_rows(true), &today()).unwrap();
    let names = column_names(&query, rows.first());
    assert_eq!(
        names,
        vec!["content", "date", "filename", "modified", "path", "size", "status", "tags", "title"]
    );
    assert!(column_names(&query, None).is_empty());
}

#[test]
fn offset_past_the_end_is_empty() {
    let rows = run("SELECT title FROM . ORDER BY title LIMIT 5 OFFSET 7");
    assert!(rows.is_empty());
}

#[test]
fn count_without_rows_is_zero() {
    let rows = run("SELECT COUNT(*) FROM . WHERE status = 'archived'");
    assert_eq!(rows.len(), 1);
    assert_eq!(rows[0].get("COUNT(*)"), Some(&Value::Int(0)));
}

#[test]
fn frontmatter_scan_stops_at_the_closing_line() {
    let lines: Vec<String> = ["---", "a: 1", " --- ", "b: 2"].iter().map(|s| s.to_string()).collect();
    assert_eq!(frontmatter_yaml(&lines), "a: 1\n");
    let none: Vec<String> = ["# title", "---", "a: 1"].iter().map(|s| s.to_string()).collect();
    assert_eq!(frontmatter_yaml(&none), "");
}

#[test]
fn virtual_columns_replace_fields() {
    let row = file("x.md", "---\npath: elsewhere\ncount: 3\nratio: 0.5\n---\nbody\n", false);
    assert_eq!(row.get("path"), Some(&Value::String("x.md".into())));
    assert_eq!(row.get("filename"), Some(&Value::String("x".into())));
    assert_eq!(row.get("count"), Some(&Value::Int(3)));
    assert!(matches!(row.get("ratio"), Some(Value::Float(f)) if f.bits == 0.5f64.to_bits()));
    assert!(row.get("content").is_none());
}

#[test]
fn filter_keeps_exactly_the_passing_rows() {
    let query = parse("SELECT * FROM . WHERE date > DATE('2025-02-01')", &Vec::new()).unwrap();
    let rows = setup_rows(true);
    let kept = execute(&query, &rows, &today()).unwrap();
    let passing: Vec<&Row> = rows
        .iter()
        .filter(|r| mdquery::filter::eval_expr(query.filter.as_ref().unwrap(), r, &today()).unwrap())
        .collect();
    assert_eq!(kept.len(), passing.len());
    assert_eq!(kept.len(), 2);
    for (a, b) in kept.iter().zip(passing.iter()) {
        assert_eq!(a.get("path"), b.get("path"));
    }
}

#[test]
fn group_counts_add_up_to_the_rows() {
    let rows = run("SELECT status, COUNT(*) FROM . GROUP BY status");
    let total: i64 = rows
        .iter()
        .map(|r| match r.get("COUNT(*)") {
            Some(Value::Int(n)) => *n,
            _ => panic!("missing count"),
        })
        .sum();
    assert_eq!(total, 3);
}

#[test]
fn projected_rows_hold_the_header_columns() {
    let query = parse("SELECT title, missing, UPPER(status) FROM .", &Vec::new()).unwrap();
    let rows = execute(&query, &setup_rows(false), &today()).unwrap();
    let names = column_names(&query, rows.first());
    assert_eq!(names, vec!["title", "missing", "UPPER"]);
    for row in &rows {
        assert_eq!(row.keys(), vec!["UPPER".to_string(), "missing".to_string(), "title".to_string()]);
        assert_eq!(row.get("missing"), Some(&Value::Null));
    }
}

#[test]
fn distinct_keeps_one_row_per_key() {
    let rows = run("SELECT DISTINCT status, title FROM .");
    assert_eq!(rows.len(), 3);
    let rows = run("SELECT DISTINCT date FROM . WHERE title != 'Beta'");
    assert_eq!(rows.len(), 2);
}

#[test]
fn snippet_cut_lands_on_a_character_boundary() {
    let text = "é".repeat(50) + " async runtimes";
    let snippet = extract_snippet(&text, "async runtimes", 20);
    assert!(snippet.contains("async runtimes"));
}

#[test]
fn distinct_comes_before_limit() {
    let rows = run("SELECT DISTINCT status FROM . ORDER BY status DESC LIMIT 2");
    let statuses: Vec<_> = rows.iter().map(|r| r.get("status").unwrap().display()).collect();
    assert_eq!(statuses, vec!["published", "draft"]);
}

#[test]
fn limit_applies_to_groups() {
    let rows = run("SELECT status, COUNT(*) FROM . GROUP BY status ORDER BY status LIMIT 1");
    assert_eq!(rows.len(), 1);
    assert_eq!(rows[0].get("status"), Some(&Value::String("draft".into())));
    assert_eq!(rows[0].get("COUNT(*)"), Some(&Value::Int(1)));
}

#[test]
fn len_of_content_reads_the_body() {
    let rows = run("SELECT title, LEN(content) FROM . WHERE title = 'Beta'");
    assert_eq!(rows.len(), 1);
    assert_eq!(rows[0].get("LEN"), Some(&Value::Int(31)));
}

#[test]
fn reads_frontmatter_only() {
    let text = "---\ntitle: Hello World\nstatus: draft\ntags:\n  - rust\n  - cli\n---\nSome body content here.\n";
    let row = file("test.md", text, false);
    assert_eq!(row.get("title"), Some(&Value::String("Hello World".into())));
    assert_eq!(row.get("status"), Some(&Value::String("draft".into())));
    assert!(matches!(row.get("tags"), Some(Value::Array(_))));
    assert!(row.get("content").is_none());
    assert_eq!(row.get("path"), Some(&Value::String("test.md".into())));
    assert_eq!(row.get("filename"), Some(&Value::String("test".into())));
}

#[test]
fn reads_with_content() {
    let row = file("test.md", "---\ntitle: Test\n---\nBody content here.\n", true);
    assert!(row.get("content").is_some());
    if let Some(Value::String(content)) = row.get("content") {
        assert!(content.contains("Body content here"));
    }
}

#[test]
fn reads_file_without_frontmatter() {
    let row = file("plain.md", "Just some markdown without frontmatter.\n", false);
    assert_eq!(row.get("path"), Some(&Value::String("plain.md".into())));
    assert_eq!(row.get("filename"), Some(&Value::String("plain".into())));
    assert!(row.get("title").is_none());
}

#[test]
fn parses_date_in_frontmatter() {
    let row = file("dated.md", "---\ndate: 2025-03-15\n---\n", false);
    assert!(matches!(row.get("date"), Some(Value::Date(_))));
}

#[test]
fn fast_path_matches_full_path() {
    let text = "---\ntitle: Compare\ncount: 42\ntags:\n  - a\n  - b\n---\nBody.\n";
    let fast = file("compare.md", text, false);
    let full = file("compare.md", text, true);
    assert_eq!(fast.get("title"), full.get("title"));
    assert_eq!(fast.get("count"), full.get("count"));
    assert_eq!(fast.get("tags"), full.get("tags"));
}

#[test]
fn front_matter_floats_come_from_the_table() {
    let text = "---\nratio: 0.25\nnested:\n  weight: 1.5\n---\n";
    let lines: Vec<String> = text.lines().map(|l| l.to_string()).collect();
    assert_eq!(frontmatter_float_texts(&lines), vec!["0.25".to_string(), "1.5".to_string()]);
    let row = read_frontmatter(&lines, &Vec::new());
    assert_eq!(row.get("ratio"), Some(&Value::Null));
    let full = file("f.md", text, true);
    assert!(matches!(full.get("ratio"), Some(Value::Float(f)) if f.bits == 0.25f64.to_bits()));
    assert_eq!(full.get("nested"), Some(&Value::String("{weight: Float(1.5)}".into())));
}

#[test]
fn unparsable_front_matter_gives_no_fields() {
    let lines: Vec<String> = ["---", "a: [1, 2", "---"].iter().map(|s| s.to_string()).collect();
    let row = read_frontmatter(&lines, &Vec::new());
    assert!(row.get("a").is_none());
}

#[test]
fn deduplicate_compares_values_not_their_text() {
    let row = |v: Value| {
        let mut r = Row::new();
        r.insert("status".into(), v);
        r
    };
    let mut rows = vec![row(Value::Int(1)), row(Value::String("1".into())), row(Value::Int(1))];
    deduplicate(&mut rows);
    assert_eq!(rows.len(), 2);
    assert_eq!(rows[0].get("status"), Some(&Value::Int(1)));
}

#[test]
fn full_read_is_the_same_each_time() {
    let text = "---\ntitle: Twice\ncount: 7\nnested:\n  only: 1\n---\nBody.\n";
    let (a, body_a) = read_full_text(text, &Vec::new());
    let (b, body_b) = read_full_text(text, &Vec::new());
    assert_eq!(body_a, body_b);
    assert_eq!(body_a, "Body.");
    assert_eq!(a.get("title"), b.get("title"));
    assert_eq!(a.get("count"), Some(&Value::Int(7)));
    assert_eq!(a.get("nested"), Some(&Value::String("{only: Integer(1)}".into())));
}

#[test]
fn nested_mapping_on_the_fast_path_is_its_text() {
    let lines: Vec<String> = ["---", "nested:", "  a: 1", "---"].iter().map(|s| s.to_string()).collect();
    let row = read_frontmatter(&lines, &Vec::new());
    match row.get("nested") {
        Some(Value::String(s)) => assert!(s.starts_with("Mapping(")),
        other => panic!("unexpected {other:?}"),
    }
}
