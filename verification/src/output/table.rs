//! Text tables, drawn by the `comfy-table` crate.
use vstd::prelude::*;
use comfy_table::presets::UTF8_FULL_CONDENSED;
use comfy_table::Table;
use crate::output::{cell_grid, cells};
use crate::row::Row;
use crate::sort::row_models;
use crate::text::texts;

verus! {

#[verifier::external_type_specification]
#[verifier::external_body]
pub struct ExTable(Table);

/// The header of a table.
pub uninterp spec fn table_header(t: Table) -> Seq<Seq<char>>;

/// The rows of a table, by their cells' texts.
pub uninterp spec fn table_rows(t: Table) -> Seq<Seq<Seq<char>>>;

/// The text that `comfy-table` draws for a table in the `UTF8_FULL_CONDENSED`
/// preset with this header and these rows. The cells carry no styling and
/// the content arrangement is the default (no width limit), so the text is a
/// function of the cells alone.
pub uninterp spec fn spec_table_text(header: Seq<Seq<char>>, rows: Seq<Seq<Seq<char>>>) -> Seq<char>;

/// `Table::new`, `load_preset(UTF8_FULL_CONDENSED)` and `set_header`: a
/// table with this header and no rows.
#[verifier::external_body]
fn condensed_table(header: &Vec<String>) -> (t: Table)
    ensures
        table_header(t) == texts(header@),
        table_rows(t) == Seq::<Seq<Seq<char>>>::empty(),
{
    let mut t = Table::new();
    t.load_preset(UTF8_FULL_CONDENSED);
    t.set_header(header.as_slice());
    t
}

/// `Table::add_row`: appends a row of cells.
#[verifier::external_body]
fn table_add_row(t: &mut Table, cells: Vec<String>)
    ensures
        table_header(*final(t)) == table_header(*old(t)),
        table_rows(*final(t)) == table_rows(*old(t)).push(texts(cells@)),
{
    t.add_row(cells);
}

/// `Table::to_string`: the drawn table.
#[verifier::external_body]
fn table_text(t: &Table) -> (s: String)
    ensures
        s@ == spec_table_text(table_header(*t), table_rows(*t)),
{
    t.to_string()
}

/// The rows drawn as a table: a header of the column names and one line of
/// cells per row (`null` where the row has no such column).
pub fn render(rows: &Vec<Row>, columns: &Vec<String>) -> (r: String)
    ensures
        r@ == spec_table_text(texts(columns@), cell_grid(row_models(rows@), texts(columns@), "null"@)),
{
    let ghost grid = cell_grid(row_models(rows@), texts(columns@), "null"@);
    let mut t = condensed_table(columns);
    let mut i: usize = 0;
    while i < rows.len()
        invariant
            i <= rows.len(),
            grid == cell_grid(row_models(rows@), texts(columns@), "null"@),
            table_header(t) == texts(columns@),
            table_rows(t) == grid.take(i as int),
        decreases rows.len() - i,
    {
        let record = cells(&rows[i], columns, "null");
        assert(grid[i as int] == texts(record@));
        table_add_row(&mut t, record);
        assert(table_rows(t) =~= grid.take(i + 1));
        i = i + 1;
    }
    assert(grid.take(rows.len() as int) =~= grid);
    table_text(&t)
}

} // verus!
