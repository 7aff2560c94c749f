//! Rendering of result rows: the output formats, the cells of a result, and
//! CSV text (through the `csv` crate). Tables are in `table`; JSON is
//! written by the program around the library.
use vstd::prelude::*;
use crate::row::{spec_get, Row, RowModel};
use crate::sort::row_models;
use crate::text::{lemma_texts_push, push_str, spec_lowercase, str_equal, string_of, texts, to_lowercase};
use crate::value::spec_display;

pub mod table;

verus! {

/// An output format.
#[derive(Debug, Clone, Copy, PartialEq, Eq, Structural)]
pub enum Format {
    Table,
    Json,
    Csv,
}

/// The format that a name gives, whatever its case.
pub open spec fn spec_format(name: Seq<char>) -> Option<Format> {
    let l = spec_lowercase(name);
    if l == "table"@ {
        Some(Format::Table)
    } else if l == "json"@ {
        Some(Format::Json)
    } else if l == "csv"@ {
        Some(Format::Csv)
    } else {
        None
    }
}

/// The message for a name that is no format.
pub open spec fn unknown_format_message(name: Seq<char>) -> Seq<char> {
    "unknown format: "@ + name + " (expected: table, json, csv)"@
}

impl Format {
    /// The format named `s` (`table`, `json` or `csv`, in any case), or the
    /// message of the error.
    pub fn from_str(s: &str) -> (r: Result<Format, String>)
        ensures
            match r {
                Ok(f) => spec_format(s@) == Some(f),
                Err(m) => spec_format(s@) is None && m@ == unknown_format_message(s@),
            },
    {
        let l = to_lowercase(s);
        if str_equal(l.as_str(), "table") {
            Ok(Format::Table)
        } else if str_equal(l.as_str(), "json") {
            Ok(Format::Json)
        } else if str_equal(l.as_str(), "csv") {
            Ok(Format::Csv)
        } else {
            let mut out: Vec<char> = Vec::new();
            push_str(&mut out, "unknown format: ");
            push_str(&mut out, s);
            push_str(&mut out, " (expected: table, json, csv)");
            Err(string_of(&out))
        }
    }
}

/// The text of a cell: the display text of the row's value for the column,
/// `missing` where the row has none.
pub open spec fn cell_text(row: RowModel, col: Seq<char>, missing: Seq<char>) -> Seq<char> {
    match spec_get(row, col) {
        Some(v) => spec_display(v),
        None => missing,
    }
}

/// The cells of a row, one per column.
pub open spec fn row_cells(row: RowModel, cols: Seq<Seq<char>>, missing: Seq<char>) -> Seq<Seq<char>> {
    cols.map_values(|c: Seq<char>| cell_text(row, c, missing))
}

/// The cells of the rows.
pub open spec fn cell_grid(rows: Seq<RowModel>, cols: Seq<Seq<char>>, missing: Seq<char>) -> Seq<Seq<Seq<char>>> {
    rows.map_values(|r: RowModel| row_cells(r, cols, missing))
}

/// The cells of `row` for `columns`.
pub fn cells(row: &Row, columns: &Vec<String>, missing: &str) -> (r: Vec<String>)
    ensures
        texts(r@) == row_cells(row@, texts(columns@), missing@),
{
    let mut out: Vec<String> = Vec::new();
    let mut i: usize = 0;
    while i < columns.len()
        invariant
            i <= columns.len(),
            texts(out@) == row_cells(row@, texts(columns@.take(i as int)), missing@),
        decreases columns.len() - i,
    {
        let text = match row.get(columns[i].as_str()) {
            Some(v) => v.display(),
            None => missing.to_owned(),
        };
        proof {
            lemma_texts_push(out@, text);
            assert(texts(columns@.take(i + 1)) =~= texts(columns@.take(i as int)).push(columns@[i as int]@));
            assert(row_cells(row@, texts(columns@.take(i + 1)), missing@) =~= row_cells(
                row@,
                texts(columns@.take(i as int)),
                missing@,
            ).push(cell_text(row@, columns@[i as int]@, missing@)));
        }
        out.push(text);
        i = i + 1;
    }
    assert(columns@.take(columns.len() as int) =~= columns@);
    out
}

/// A CSV writer into memory. Verus refuses a declaration of `csv::Writer`
/// (its bound `std::io::Write`), so the writer is held in a private field.
#[verifier::external_body]
pub struct CsvOut {
    writer: csv::Writer<Vec<u8>>,
}

/// The records that a CSV writer has been given.
pub uninterp spec fn csv_records(w: CsvOut) -> Seq<Seq<Seq<char>>>;

/// The CSV text of records, as `csv::Writer` writes them with its default
/// settings (comma, quoting where needed, `\n` after each record).
pub uninterp spec fn spec_csv_text(records: Seq<Seq<Seq<char>>>) -> Seq<char>;

/// `csv::Writer::from_writer` on an empty buffer: a writer with no records.
#[verifier::external_body]
fn csv_writer() -> (w: CsvOut)
    ensures
        csv_records(w) == Seq::<Seq<Seq<char>>>::empty(),
{
    CsvOut { writer: csv::Writer::from_writer(Vec::new()) }
}

/// `csv::Writer::write_record`, for a record with as many fields as the
/// first one (the writer refuses others, and leaves what it wrote of them
/// in its buffer). Writing to memory cannot fail otherwise, so the record is
/// taken.
#[verifier::external_body]
fn csv_write(w: &mut CsvOut, fields: &Vec<String>) -> (r: bool)
    requires
        csv_records(*old(w)).len() == 0 || csv_records(*old(w))[0].len() == fields@.len(),
    ensures
        r,
        csv_records(*final(w)) == csv_records(*old(w)).push(texts(fields@)),
{
    w.writer.write_record(fields).is_ok()
}

/// `csv::Writer::into_inner` and `String::from_utf8`: the text written.
/// Flushing into memory cannot fail, and the bytes are the fields' UTF-8
/// with ASCII separators and quotes, so both steps succeed.
#[verifier::external_body]
fn csv_finish(w: CsvOut) -> (r: Option<String>)
    ensures
        r is Some,
        r.unwrap()@ == spec_csv_text(csv_records(w)),
{
    match w.writer.into_inner() {
        Ok(bytes) => String::from_utf8(bytes).ok(),
        Err(_) => None,
    }
}

/// CSV text of the rows: a header of the column names, then one record per
/// row of its cells (an empty field where the row has no such column).
pub fn render_csv(rows: &Vec<Row>, columns: &Vec<String>) -> (r: String)
    ensures
        r@ == spec_csv_text(seq![texts(columns@)] + cell_grid(row_models(rows@), texts(columns@), ""@)),
{
    let ghost grid = cell_grid(row_models(rows@), texts(columns@), ""@);
    let mut w = csv_writer();
    let ok = csv_write(&mut w, columns);
    assert(ok);
    assert(csv_records(w) =~= seq![texts(columns@)] + grid.take(0));
    let mut i: usize = 0;
    while i < rows.len()
        invariant
            i <= rows.len(),
            grid == cell_grid(row_models(rows@), texts(columns@), ""@),
            csv_records(w) == seq![texts(columns@)] + grid.take(i as int),
        decreases rows.len() - i,
    {
        let record = cells(&rows[i], columns, "");
        proof {
            assert(texts(record@).len() == texts(columns@).len());
            assert(grid[i as int] == row_cells(rows@[i as int]@, texts(columns@), ""@));
        }
        let ok = csv_write(&mut w, &record);
        assert(ok);
        assert(csv_records(w) =~= seq![texts(columns@)] + grid.take(i + 1));
        i = i + 1;
    }
    assert(grid.take(rows.len() as int) =~= grid);
    match csv_finish(w) {
        Some(t) => t,
        None => String::new(),
    }
}

} // verus!
