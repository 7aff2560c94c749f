//! From a markdown file to a row: finding the YAML front matter, turning
//! YAML nodes into values, and the virtual columns of a file.
//!
//! Reading the file and its metadata is the program's part; it hands the
//! results over as plain values.
use vstd::prelude::*;
use crate::calendar::{parse_date, parse_datetime, spec_parse_date, spec_parse_datetime, Date};
use crate::row::{spec_get, Row, RowModel};
use crate::snippet::{trim_chars, trimmed_slice};
use crate::text::{chars_of, push_str, string_of};
use crate::value::{lemma_models_of_len, models_of, Float, Value, ValueModel};

verus! {

broadcast use vstd::std_specs::vec::axiom_vec_decreases_to_view,
    vstd::std_specs::vec::axiom_vec_index_decreases;

/// A YAML node, as either YAML reader gives it (see `frontmatter`).
pub enum FrontNode {
    Null,
    Bool(bool),
    /// A number: `integer` where it is an `i64`, else `float` where it is a double.
    Number { integer: Option<i64>, float: Option<Float> },
    Str(String),
    List(Vec<FrontNode>),
    /// A mapping, by the text the reader displays for it.
    Mapping(String),
    /// A tagged node.
    Tagged(Box<FrontNode>),
}

/// The value of a YAML node. A string that reads as a date
/// (`YYYY-MM-DD`) is a date, else one that reads as a date-time
/// (`YYYY-MM-DDTHH:MM:SS`) is a date-time; a mapping is its text.
pub open spec fn spec_from_yaml(n: FrontNode) -> ValueModel
    decreases n,
{
    match n {
        FrontNode::Null => ValueModel::Null,
        FrontNode::Bool(b) => ValueModel::Bool(b),
        FrontNode::Number { integer, float } => match integer {
            Some(i) => ValueModel::Int(i),
            None => match float {
                Some(f) => ValueModel::Float(f.bits, f.text@),
                None => ValueModel::Null,
            },
        },
        FrontNode::Str(s) => match spec_parse_date(s@) {
            Some(d) => ValueModel::Date(d),
            None => match spec_parse_datetime(s@) {
                Some(t) => ValueModel::DateTime(t.0, t.1, t.2),
                None => ValueModel::Str(s@),
            },
        },
        FrontNode::List(items) => ValueModel::Array(list_from_yaml(items@)),
        FrontNode::Mapping(t) => ValueModel::Str(t@),
        FrontNode::Tagged(inner) => spec_from_yaml(*inner),
    }
}

pub open spec fn list_from_yaml(s: Seq<FrontNode>) -> Seq<ValueModel>
    decreases s,
{
    if s.len() == 0 {
        Seq::empty()
    } else {
        list_from_yaml(s.drop_last()).push(spec_from_yaml(s.last()))
    }
}

impl Value {
    /// The value of a YAML node (see `spec_from_yaml`).
    pub fn from_yaml(yaml: &FrontNode) -> (r: Value)
        ensures
            r@ == spec_from_yaml(*yaml),
        decreases yaml, 1int,
    {
        match yaml {
            FrontNode::Null => Value::Null,
            FrontNode::Bool(b) => Value::Bool(*b),
            FrontNode::Number { integer, float } => match integer {
                Some(i) => Value::Int(*i),
                None => match float {
                    Some(f) => Value::Float(Float::new(f.bits, f.text.clone())),
                    None => Value::Null,
                },
            },
            FrontNode::Str(s) => match parse_date(s.as_str()) {
                Some(d) => Value::Date(d),
                None => match parse_datetime(s.as_str()) {
                    Some(t) => Value::DateTime(t),
                    None => Value::String(s.clone()),
                },
            },
            FrontNode::List(items) => Value::Array(values_from_yaml(items)),
            FrontNode::Mapping(t) => Value::String(t.clone()),
            FrontNode::Tagged(inner) => Value::from_yaml(inner),
        }
    }
}

fn values_from_yaml(items: &Vec<FrontNode>) -> (r: Vec<Value>)
    ensures
        models_of(r@) == list_from_yaml(items@),
    decreases items, 0int,
{
    let mut out: Vec<Value> = Vec::new();
    let mut i: usize = 0;
    assert(items@.take(0) =~= Seq::<FrontNode>::empty());
    while i < items.len()
        invariant
            i <= items.len(),
            models_of(out@) == list_from_yaml(items@.take(i as int)),
        decreases items.len() - i,
    {
        proof {
            assert(decreases_to!(items => items[i as int]));
            assert(items@.take(i + 1).drop_last() =~= items@.take(i as int));
            assert(items@.take(i + 1).last() == items@[i as int]);
        }
        let v = Value::from_yaml(&items[i]);
        let ghost before = out@;
        out.push(v);
        assert(out@.drop_last() =~= before);
        i = i + 1;
    }
    assert(items@.take(items.len() as int) =~= items@);
    out
}

/// A front matter delimiter: `---` with any whitespace around it.
pub open spec fn is_delimiter(line: Seq<char>) -> bool {
    trim_chars(line) == "---"@
}

/// Where a scan of a file's lines for its front matter stands.
pub enum ScanState {
    /// No line read yet.
    Start,
    /// Inside the front matter, with the YAML read so far.
    Inside(String),
    /// Done (no front matter, or past its end), with the YAML.
    Done(String),
}

/// The mathematical content of a `ScanState`.
pub enum ScanModel {
    Start,
    Inside(Seq<char>),
    Done(Seq<char>),
}

impl View for ScanState {
    type V = ScanModel;

    open spec fn view(&self) -> ScanModel {
        match self {
            ScanState::Start => ScanModel::Start,
            ScanState::Inside(y) => ScanModel::Inside(y@),
            ScanState::Done(y) => ScanModel::Done(y@),
        }
    }
}

/// One step of the scan: the first line must be a delimiter, else there is
/// no front matter; the lines after it are YAML up to the next delimiter.
/// A finished scan stays as it is.
pub open spec fn spec_scan(state: ScanModel, line: Seq<char>) -> ScanModel {
    match state {
        ScanModel::Start => if is_delimiter(line) {
            ScanModel::Inside(Seq::empty())
        } else {
            ScanModel::Done(Seq::empty())
        },
        ScanModel::Inside(y) => if is_delimiter(line) {
            ScanModel::Done(y)
        } else {
            ScanModel::Inside(y + line + "\n"@)
        },
        ScanModel::Done(y) => ScanModel::Done(y),
    }
}

/// The scan after the lines `lines`.
pub open spec fn scan_lines(lines: Seq<Seq<char>>) -> ScanModel
    decreases lines.len(),
{
    if lines.len() == 0 {
        ScanModel::Start
    } else {
        spec_scan(scan_lines(lines.drop_last()), lines.last())
    }
}

/// The YAML that a scan has gathered (none before any line).
pub open spec fn scan_yaml(state: ScanModel) -> Seq<char> {
    match state {
        ScanModel::Start => Seq::empty(),
        ScanModel::Inside(y) => y,
        ScanModel::Done(y) => y,
    }
}

/// Whether a line is a front matter delimiter.
pub fn line_is_delimiter(line: &str) -> (r: bool)
    ensures
        r == is_delimiter(line@),
{
    let cs = chars_of(line);
    let t = trimmed_slice(&cs, 0, cs.len());
    assert(cs@.subrange(0, cs@.len() as int) =~= cs@);
    let dashes = chars_of("---");
    crate::text::chars_equal(&t, &dashes)
}

/// One step of the front matter scan (see `spec_scan`).
pub fn scan_line(state: ScanState, line: &str) -> (r: ScanState)
    ensures
        r@ == spec_scan(state@, line@),
{
    match state {
        ScanState::Start => if line_is_delimiter(line) {
            ScanState::Inside(String::new())
        } else {
            ScanState::Done(String::new())
        },
        ScanState::Inside(y) => if line_is_delimiter(line) {
            ScanState::Done(y)
        } else {
            let mut out = chars_of(y.as_str());
            push_str(&mut out, line);
            push_str(&mut out, "\n");
            ScanState::Inside(string_of(&out))
        },
        ScanState::Done(y) => ScanState::Done(y),
    }
}

/// Whether the scan is over: the program reads no further line.
pub fn scan_done(state: &ScanState) -> (r: bool)
    ensures
        r == (state@ is Done),
{
    match state {
        ScanState::Done(_) => true,
        _ => false,
    }
}

/// The YAML gathered by a scan.
pub fn scanned_yaml(state: &ScanState) -> (r: String)
    ensures
        r@ == scan_yaml(state@),
{
    match state {
        ScanState::Start => String::new(),
        ScanState::Inside(y) => y.clone(),
        ScanState::Done(y) => y.clone(),
    }
}

pub open spec fn line_texts(lines: Seq<String>) -> Seq<Seq<char>> {
    lines.map_values(|l: String| l@)
}

/// The YAML front matter of a file's lines.
pub fn frontmatter_yaml(lines: &Vec<String>) -> (r: String)
    ensures
        r@ == scan_yaml(scan_lines(line_texts(lines@))),
{
    let mut state = ScanState::Start;
    let mut i: usize = 0;
    assert(line_texts(lines@).take(0) =~= Seq::<Seq<char>>::empty());
    while i < lines.len()
        invariant
            i <= lines.len(),
            state@ == scan_lines(line_texts(lines@).take(i as int)),
        decreases lines.len() - i,
    {
        assert(line_texts(lines@).take(i + 1).drop_last() =~= line_texts(lines@).take(i as int));
        assert(line_texts(lines@).take(i + 1).last() == lines@[i as int]@);
        state = scan_line(state, lines[i].as_str());
        i = i + 1;
    }
    assert(line_texts(lines@).take(lines.len() as int) =~= line_texts(lines@));
    scanned_yaml(&state)
}

/// The value that the front matter entries give a column: that of the last
/// entry with this key (entries whose key is not a string are left out).
pub open spec fn entry_value(entries: Seq<(FrontNode, FrontNode)>, key: Seq<char>) -> Option<ValueModel>
    decreases entries.len(),
{
    if entries.len() == 0 {
        None
    } else {
        match entries.last().0 {
            FrontNode::Str(k) => if k@ == key {
                Some(spec_from_yaml(entries.last().1))
            } else {
                entry_value(entries.drop_last(), key)
            },
            _ => entry_value(entries.drop_last(), key),
        }
    }
}

/// The row of a file's front matter mapping: each entry with a string key,
/// in order, a later one replacing an earlier one of the same key.
pub fn frontmatter_row(entries: &Vec<(FrontNode, FrontNode)>) -> (r: Row)
    ensures
        forall|k: Seq<char>| #[trigger] spec_get(r@, k) == entry_value(entries@, k),
{
    let mut row = Row::new();
    let mut i: usize = 0;
    while i < entries.len()
        invariant
            i <= entries.len(),
            forall|k: Seq<char>| #[trigger] spec_get(row@, k) == entry_value(entries@.take(i as int), k),
        decreases entries.len() - i,
    {
        assert(entries@.take(i + 1).drop_last() =~= entries@.take(i as int));
        assert(entries@.take(i + 1).last() == entries@[i as int]);
        match &entries[i].0 {
            FrontNode::Str(k) => {
                let v = Value::from_yaml(&entries[i].1);
                row.insert(k.clone(), v);
            },
            _ => {},
        }
        i = i + 1;
    }
    assert(entries@.take(entries.len() as int) =~= entries@);
    row
}

/// What the program knows of a file besides its text: its path relative to
/// the queried directory, its name without extension, and, where its
/// metadata could be read, its size in bytes and (where the system gives
/// one) the local date of its last change.
pub struct FileFacts {
    pub path: String,
    pub filename: String,
    pub metadata: Option<(u64, Option<Date>)>,
}

/// The row of a file: the front matter fields, then `content` (where the
/// body was read), then the virtual columns `path`, `filename`, `size`
/// (the byte count as an `i64`, wrapping as `as` does) and `modified`,
/// each replacing a field of the same name.
pub open spec fn spec_file_row(fields: RowModel, content: Option<Seq<char>>, facts: FileFacts, k: Seq<char>) -> Option<ValueModel> {
    if k == "path"@ {
        Some(ValueModel::Str(facts.path@))
    } else if k == "filename"@ {
        Some(ValueModel::Str(facts.filename@))
    } else if k == "size"@ && facts.metadata is Some {
        Some(ValueModel::Int(#[verifier::truncate] (facts.metadata.unwrap().0 as i64)))
    } else if k == "modified"@ && facts.metadata is Some && facts.metadata.unwrap().1 is Some {
        Some(ValueModel::Date(facts.metadata.unwrap().1.unwrap()@))
    } else if k == "content"@ && content is Some {
        Some(ValueModel::Str(content.unwrap()))
    } else {
        spec_get(fields, k)
    }
}

/// Adds the body and the virtual columns to a file's front matter row (see
/// `spec_file_row`).
pub fn file_row(fields: Row, content: Option<String>, facts: FileFacts) -> (r: Row)
    ensures
        forall|k: Seq<char>| #[trigger] spec_get(r@, k) == spec_file_row(
            fields@,
            match content {
                Some(c) => Some(c@),
                None => None,
            },
            facts,
            k,
        ),
{
    let ghost c = match &content {
        Some(b) => Some(b@),
        None => None,
    };
    let ghost f = fields@;
    let ghost fa = facts;
    proof {
        reveal_strlit("content");
        reveal_strlit("path");
        reveal_strlit("filename");
        reveal_strlit("size");
        reveal_strlit("modified");
        assert("path"@.len() == 4 && "size"@.len() == 4 && "path"@[0] == 'p' && "size"@[0] == 's');
        assert("filename"@.len() == 8 && "modified"@.len() == 8 && "filename"@[0] == 'f');
        assert("modified"@[0] == 'm' && "content"@.len() == 7);
    }
    let mut row = fields;
    match content {
        Some(body) => row.insert("content".to_owned(), Value::String(body)),
        None => {},
    }
    let ghost r1 = row@;
    assert forall|k: Seq<char>| #[trigger] spec_get(r1, k) == (if k == "content"@ && c is Some {
        Some(ValueModel::Str(c.unwrap()))
    } else {
        spec_get(f, k)
    }) by {}
    let path_key = "path".to_owned();
    let name_key = "filename".to_owned();
    assert(path_key@ == "path"@ && name_key@ == "filename"@);
    row.insert(path_key, Value::String(facts.path));
    let ghost rp = row@;
    row.insert(name_key, Value::String(facts.filename));
    let ghost r2 = row@;
    assert forall|k: Seq<char>| #[trigger] spec_get(r2, k) == (if k == "path"@ {
        Some(ValueModel::Str(fa.path@))
    } else if k == "filename"@ {
        Some(ValueModel::Str(fa.filename@))
    } else {
        spec_get(r1, k)
    }) by {
        assert(spec_get(r2, k) == if k == "filename"@ {
            Some(ValueModel::Str(fa.filename@))
        } else {
            spec_get(rp, k)
        });
        assert(spec_get(rp, k) == if k == "path"@ {
            Some(ValueModel::Str(fa.path@))
        } else {
            spec_get(r1, k)
        });
    }
    match facts.metadata {
        Some((size, modified)) => {
            row.insert("size".to_owned(), Value::Int(#[verifier::truncate] (size as i64)));
            match modified {
                Some(d) => row.insert("modified".to_owned(), Value::Date(d)),
                None => {},
            }
        },
        None => {},
    }
    assert forall|k: Seq<char>| #[trigger] spec_get(row@, k) == spec_file_row(f, c, fa, k) by {
        if k != "size"@ && k != "modified"@ {
            assert(spec_get(row@, k) == spec_get(r2, k));
        }
    }
    row
}

/// Law: once the scan is done, further lines change nothing, so the
/// program may stop reading a file there.
pub proof fn law_scan_stops(before: Seq<Seq<char>>, after: Seq<Seq<char>>)
    requires
        scan_lines(before) is Done,
    ensures
        scan_lines(before + after) == scan_lines(before),
    decreases after.len(),
{
    if after.len() == 0 {
        assert(before + after =~= before);
    } else {
        law_scan_stops(before, after.drop_last());
        assert((before + after).drop_last() =~= before + after.drop_last());
    }
}

} // verus!
