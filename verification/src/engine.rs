//! Query execution on rows: filtering, grouping and counting, sorting,
//! paging, projection and de-duplication.
use vstd::prelude::*;
use crate::ast::{Expr, OrderBy, Query, SelectItem};
use crate::calendar::{today, Date};
use crate::filter::{eval_expr, eval_function_pub, eval_to_value_pub, spec_eval, spec_eval_function, spec_passes};
use crate::row::{entries_of, get_or_null, keys_sorted, row_keys, spec_get, Row, RowModel};
use crate::snippet::{extract_snippet, spec_snippet};
use crate::text::{chars_equal, chars_of, compare_chars, lex_sign, push_all, push_str, str_equal, string_of, lemma_lex_sign_basics, lemma_lex_sign_transitive, lemma_texts_push, texts};
use crate::sort::{row_models, sort_rows, sorted_from};
use crate::value::{spec_display, spec_equal, values_equal, Value, ValueModel};

verus! {

broadcast use vstd::std_specs::vec::axiom_vec_decreases_to_view,
    vstd::std_specs::vec::axiom_vec_index_decreases;

/// What a function in the SELECT list evaluates to: `SNIPPET` cuts an
/// excerpt of 80 bytes of context, `MATCH`, `LOWER`, `UPPER` and `LEN` are
/// the filter's functions; anything else (`COUNT` included) is null.
pub open spec fn spec_select_function(name: Seq<char>, args: Seq<Expr>, row: RowModel, today: int) -> Option<ValueModel> {
    if name == "SNIPPET"@ {
        if args.len() != 2 {
            Some(ValueModel::Null)
        } else {
            match spec_eval(args[0], row, today) {
                None => None,
                Some(c) => match spec_eval(args[1], row, today) {
                    None => None,
                    Some(q) => match (c, q) {
                        (ValueModel::Str(t), ValueModel::Str(qq)) => Some(ValueModel::Str(spec_snippet(t, qq, 80))),
                        _ => Some(ValueModel::Null),
                    },
                },
            }
        }
    } else if name == "MATCH"@ {
        if args.len() != 2 {
            Some(ValueModel::Bool(false))
        } else {
            spec_eval_function("MATCH"@, args, row, today)
        }
    } else if name == "LOWER"@ || name == "UPPER"@ || name == "LEN"@ {
        spec_eval_function(name, args, row, today)
    } else {
        Some(ValueModel::Null)
    }
}

/// The column name under which a SELECT function's value appears.
pub open spec fn display_name(name: Seq<char>, args: Seq<Expr>) -> Seq<char> {
    if name == "COUNT"@ {
        "COUNT(*)"@
    } else if name == "SNIPPET"@ {
        if args.len() > 1 {
            match args[1] {
                Expr::Literal(Value::String(q)) => "SNIPPET('"@ + q@ + "')"@,
                _ => "SNIPPET"@,
            }
        } else {
            "SNIPPET"@
        }
    } else {
        name
    }
}

/// The outcome of projecting a row: the whole row (`*`), or the (name, value)
/// pairs that the SELECT list stores, in order (a later pair under the same
/// name replaces an earlier one).
pub enum Projection {
    Whole,
    Pairs(RowModel),
}

/// Projection of `row` by `cols[i..]`, after the pairs `acc`.
pub open spec fn project_from(row: RowModel, cols: Seq<SelectItem>, today: int, i: int, acc: RowModel) -> Option<Projection>
    decreases cols.len() - i,
{
    if i < 0 || i >= cols.len() {
        Some(Projection::Pairs(acc))
    } else {
        match cols[i] {
            SelectItem::Column(name) => project_from(
                row,
                cols,
                today,
                i + 1,
                acc.push((name@, get_or_null(row, name@))),
            ),
            SelectItem::AllColumns => Some(Projection::Whole),
            SelectItem::Function { name, args } => match spec_select_function(name@, args@, row, today) {
                None => None,
                Some(v) => project_from(row, cols, today, i + 1, acc.push((display_name(name@, args@), v))),
            },
        }
    }
}

/// Projection of `row` by the SELECT list `cols`.
pub open spec fn spec_project(row: RowModel, cols: Seq<SelectItem>, today: int) -> Option<Projection> {
    project_from(row, cols, today, 0, Seq::empty())
}

/// Whether `out` is a row that realizes the projection `p` of `row`.
pub open spec fn realizes(out: RowModel, row: RowModel, p: Projection) -> bool {
    match p {
        Projection::Whole => out == row,
        Projection::Pairs(pairs) => keys_sorted(out) && forall|k: Seq<char>| #[trigger] spec_get(out, k) == spec_get(pairs, k),
    }
}

/// The column names that a SELECT item contributes to the result header.
pub open spec fn item_names(item: SelectItem, sample: Option<RowModel>) -> Seq<Seq<char>> {
    match item {
        SelectItem::Column(name) => seq![name@],
        SelectItem::AllColumns => match sample {
            Some(r) => row_keys(r),
            None => Seq::empty(),
        },
        SelectItem::Function { name, args } => seq![display_name(name@, args@)],
    }
}

/// The column names of the result set, in SELECT order.
pub open spec fn spec_column_names(cols: Seq<SelectItem>, sample: Option<RowModel>) -> Seq<Seq<char>>
    decreases cols.len(),
{
    if cols.len() == 0 {
        Seq::empty()
    } else {
        spec_column_names(cols.drop_last(), sample) + item_names(cols.last(), sample)
    }
}

/// Pushing a string pushes its view.

/// The column name for a SELECT function.
pub fn select_function_display_name(name: &str, args: &Vec<Expr>) -> (r: String)
    ensures
        r@ == display_name(name@, args@),
{
    if str_equal(name, "COUNT") {
        "COUNT(*)".to_owned()
    } else if str_equal(name, "SNIPPET") {
        if args.len() > 1 {
            match &args[1] {
                Expr::Literal(Value::String(q)) => {
                    let mut out: Vec<char> = Vec::new();
                    push_str(&mut out, "SNIPPET('");
                    push_str(&mut out, q.as_str());
                    push_str(&mut out, "')");
                    return string_of(&out);
                },
                _ => {},
            }
        }
        "SNIPPET".to_owned()
    } else {
        name.to_owned()
    }
}

/// The value of a function in the SELECT list (see `spec_select_function`).
pub fn eval_select_function(name: &str, args: &Vec<Expr>, row: &Row, today: &Date) -> (r: Option<Value>)
    ensures
        match r {
            Some(v) => spec_select_function(name@, args@, row@, today@) == Some(v@),
            None => spec_select_function(name@, args@, row@, today@) is None,
        },
{
    if str_equal(name, "SNIPPET") {
        if args.len() != 2 {
            return Some(Value::Null);
        }
        let content = match eval_to_value_pub(&args[0], row, today) {
            None => {
                return None;
            },
            Some(c) => c,
        };
        let query = match eval_to_value_pub(&args[1], row, today) {
            None => {
                return None;
            },
            Some(q) => q,
        };
        match (&content, &query) {
            (Value::String(text), Value::String(q)) => Some(
                Value::String(extract_snippet(text.as_str(), q.as_str(), 80)),
            ),
            _ => Some(Value::Null),
        }
    } else if str_equal(name, "MATCH") {
        if args.len() != 2 {
            return Some(Value::Bool(false));
        }
        eval_function_pub("MATCH", args, row, today)
    } else if str_equal(name, "LOWER") || str_equal(name, "UPPER") || str_equal(name, "LEN") {
        eval_function_pub(name, args, row, today)
    } else {
        Some(Value::Null)
    }
}

/// Project a row down to only the selected columns (`*` keeps the whole
/// row); `None` where evaluation panics.
pub fn project(row: &Row, columns: &Vec<SelectItem>, today: &Date) -> (r: Option<Row>)
    ensures
        match (r, spec_project(row@, columns@, today@)) {
            (Some(out), Some(p)) => realizes(out@, row@, p),
            (None, None) => true,
            _ => false,
        },
{
    let mut result = Row::new();
    let ghost mut acc: RowModel = Seq::empty();
    let mut i: usize = 0;
    while i < columns.len()
        invariant
            i <= columns.len(),
            spec_project(row@, columns@, today@) == project_from(row@, columns@, today@, i as int, acc),
            keys_sorted(result@),
            forall|k: Seq<char>| #[trigger] spec_get(result@, k) == spec_get(acc, k),
        decreases columns.len() - i,
    {
        let ghost before = result@;
        match &columns[i] {
            SelectItem::Column(name) => {
                let value = row.get_or_null(name.as_str());
                let ghost v = value@;
                result.insert(name.clone(), value);
                proof {
                    let old_acc = acc;
                    acc = acc.push((name@, v));
                    assert(acc.drop_last() =~= old_acc);
                }
            },
            SelectItem::AllColumns => {
                return Some(row.copy());
            },
            SelectItem::Function { name, args } => {
                let value = match eval_select_function(name.as_str(), args, row, today) {
                    None => {
                        return None;
                    },
                    Some(v) => v,
                };
                let display = select_function_display_name(name.as_str(), args);
                let ghost v = value@;
                let ghost d = display@;
                result.insert(display, value);
                proof {
                    let old_acc = acc;
                    acc = acc.push((d, v));
                    assert(acc.drop_last() =~= old_acc);
                }
            },
        }
        i = i + 1;
    }
    Some(result)
}

/// Get the column names for the result set, preserving SELECT order.
pub fn column_names(query: &Query, sample: Option<&Row>) -> (r: Vec<String>)
    ensures
        texts(r@) == spec_column_names(
            query.columns@,
            match sample {
                Some(row) => Some(row@),
                None => None,
            },
        ),
{
    let ghost smp = match sample {
        Some(row) => Some(row@),
        None => None,
    };
    let mut names: Vec<String> = Vec::new();
    let mut i: usize = 0;
    while i < query.columns.len()
        invariant
            i <= query.columns.len(),
            smp == match sample {
                Some(row) => Some(row@),
                None => None,
            },
            texts(names@) == spec_column_names(query.columns@.take(i as int), smp),
        decreases query.columns.len() - i,
    {
        let ghost before = names@;
        let ghost prefix = query.columns@.take(i as int);
        assert(query.columns@.take(i + 1).drop_last() =~= prefix);
        assert(query.columns@.take(i + 1).last() == query.columns@[i as int]);
        let ghost expected = spec_column_names(prefix, smp) + item_names(query.columns@[i as int], smp);
        assert(spec_column_names(query.columns@.take(i + 1), smp) == expected);
        match &query.columns[i] {
            SelectItem::Column(name) => {
                let c = name.clone();
                let ghost cv = c;
                names.push(c);
                proof {
                    lemma_texts_push(before, cv);
                    assert(item_names(query.columns@[i as int], smp) == seq![name@]);
                    assert(texts(names@) =~= expected);
                }
            },
            SelectItem::AllColumns => {
                if let Some(row) = sample {
                    let keys = row.keys();
                    let mut j: usize = 0;
                    while j < keys.len()
                        invariant
                            j <= keys.len(),
                            texts(keys@) == row_keys(row@),
                            texts(names@) == texts(before)
                                + row_keys(row@).take(j as int),
                        decreases keys.len() - j,
                    {
                        let ghost nb = names@;
                        names.push(keys[j].clone());
                        proof {
                            lemma_texts_push(nb, keys@[j as int]);
                            assert(texts(keys@)[j as int] == keys@[j as int]@);
                            assert(row_keys(row@).take(j + 1) =~= row_keys(row@).take(j as int).push(
                                row_keys(row@)[j as int],
                            ));
                            assert(texts(names@) =~= texts(before)
                                + row_keys(row@).take(j + 1));
                        }
                        j = j + 1;
                    }
                    assert(row_keys(row@).take(j as int) =~= row_keys(row@));
                    assert(smp == Some(row@));
                    assert(item_names(query.columns@[i as int], smp) == row_keys(row@));
                    assert(texts(names@) =~= expected);
                } else {
                    assert(item_names(query.columns@[i as int], smp) == Seq::<Seq<char>>::empty());
                    assert(texts(names@) =~= expected);
                }
            },
            SelectItem::Function { name, args } => {
                let d = select_function_display_name(name.as_str(), args);
                let ghost dv = d;
                names.push(d);
                proof {
                    lemma_texts_push(before, dv);
                    assert(texts(names@) =~= expected);
                }
            },
        }
        assert(texts(names@) =~= expected);
        i = i + 1;
    }
    assert(query.columns@.take(i as int) =~= query.columns@);
    names
}

/// Two rows hold equal fields: the same column names, with values equal
/// as `==` on values says (see `spec_equal`).
pub open spec fn rows_equal(a: RowModel, b: RowModel) -> bool {
    a.len() == b.len() && forall|i: int|
        0 <= i < a.len() ==> #[trigger] a[i].0 == b[i].0 && spec_equal(a[i].1, b[i].1)
}

/// Whether a row before position `i` has fields equal to the row at `i`.
pub open spec fn seen_before(rows: Seq<RowModel>, i: int) -> bool {
    exists|j: int| 0 <= j < i && rows_equal(#[trigger] rows[j], rows[i])
}

/// The rows whose key no earlier row has, in order.
pub open spec fn spec_dedup(rows: Seq<RowModel>) -> Seq<RowModel>
    decreases rows.len(),
{
    if rows.len() == 0 {
        Seq::empty()
    } else {
        let prev = spec_dedup(rows.drop_last());
        if seen_before(rows, rows.len() - 1) {
            prev
        } else {
            prev.push(rows.last())
        }
    }
}

/// Whether two rows hold equal fields (see `rows_equal`).
fn same_fields(a: &Row, b: &Row) -> (r: bool)
    ensures
        r == rows_equal(a@, b@),
{
    if a.len() != b.len() {
        return false;
    }
    let mut i: usize = 0;
    while i < a.len()
        invariant
            i <= a@.len() == b@.len(),
            forall|j: int| 0 <= j < i ==> #[trigger] a@[j].0 == b@[j].0 && spec_equal(a@[j].1, b@[j].1),
        decreases a@.len() - i,
    {
        let (ka, va) = a.entry(i);
        let (kb, vb) = b.entry(i);
        if !str_equal(ka.as_str(), kb.as_str()) || !values_equal(va, vb) {
            return false;
        }
        i = i + 1;
    }
    true
}

/// Remove duplicate rows based on all field values: a row is kept when no
/// earlier row holds equal fields. The rows kept so far are compared
/// directly, where a hash set of keys would need a hash of values.
pub fn deduplicate(rows: &mut Vec<Row>)
    ensures
        row_models(final(rows)@) == spec_dedup(row_models(old(rows)@)),
{
    let ghost input = row_models(rows@);
    let mut taken: Vec<Row> = Vec::new();
    std::mem::swap(&mut taken, rows);
    assert(row_models(taken@) == input);
    assert(row_models(rows@) =~= spec_dedup(input.take(0)));
    let mut i: usize = 0;
    while i < taken.len()
        invariant
            i <= taken.len(),
            row_models(taken@) == input,
            input.len() == taken.len(),
            row_models(rows@) == spec_dedup(input.take(i as int)),
        decreases taken.len() - i,
    {
        let mut found = false;
        let mut m: usize = 0;
        while m < i
            invariant
                m <= i < taken.len(),
                row_models(taken@) == input,
                found == exists|q: int| 0 <= q < m && rows_equal(#[trigger] input[q], input[i as int]),
            decreases i - m,
        {
            assert(input[m as int] == taken@[m as int]@ && input[i as int] == taken@[i as int]@);
            if same_fields(&taken[m], &taken[i]) {
                found = true;
            }
            m = m + 1;
        }
        proof {
            lemma_dedup_step(input, i as int);
            let t = input.take(i + 1);
            if found {
                let q = choose|q: int| 0 <= q < i && rows_equal(#[trigger] input[q], input[i as int]);
                assert(t[q] == input[q]);
                assert(seen_before(t, i as int));
            } else {
                assert forall|j: int| 0 <= j < i implies !rows_equal(#[trigger] t[j], t[i as int]) by {
                    assert(t[j] == input[j]);
                }
            }
        }
        if !found {
            let ghost before = rows@;
            rows.push(taken[i].copy());
            assert(row_models(rows@) =~= row_models(before).push(input[i as int]));
        }
        i = i + 1;
    }
    assert(input.take(i as int) =~= input);
}

/// One step of `spec_dedup` over a growing prefix.
pub proof fn lemma_dedup_step(input: Seq<RowModel>, i: int)
    requires
        0 <= i < input.len(),
    ensures
        spec_dedup(input.take(i + 1)) == if seen_before(input.take(i + 1), i) {
            spec_dedup(input.take(i))
        } else {
            spec_dedup(input.take(i)).push(input[i])
        },
{
    let t = input.take(i + 1);
    assert(t.drop_last() =~= input.take(i));
}
/// One part of a GROUP BY key: the display text of a column's value, or
/// `NULL` for a missing column or any other expression.
pub open spec fn key_part(e: Expr, row: RowModel) -> Seq<char> {
    match e {
        Expr::Column(name) => match spec_get(row, name@) {
            Some(v) => spec_display(v),
            None => "NULL"@,
        },
        _ => "NULL"@,
    }
}

/// The GROUP BY key of a row.
pub open spec fn group_key(gb: Seq<Expr>, row: RowModel) -> Seq<Seq<char>> {
    gb.map_values(|e: Expr| key_part(e, row))
}

/// Lexicographic order of keys (sequences of strings), as a sign.
pub open spec fn keys_sign(a: Seq<Seq<char>>, b: Seq<Seq<char>>) -> int
    decreases a.len(),
{
    if a.len() == 0 && b.len() == 0 {
        0
    } else if a.len() == 0 {
        -1
    } else if b.len() == 0 {
        1
    } else if lex_sign(a[0], b[0]) != 0 {
        lex_sign(a[0], b[0])
    } else {
        keys_sign(a.drop_first(), b.drop_first())
    }
}

/// A group: its key, the position of its first row, and its number of rows.
/// The groups are kept in a vector in ascending key order, as an ordered
/// map of keys to groups would walk them (a map keyed by texts leaves
/// Verus unable to follow its lookups).
pub type GroupModel = (Seq<Seq<char>>, int, int);

/// The first position from `from` on whose key is not below `k`.
pub open spec fn key_position(gs: Seq<GroupModel>, k: Seq<Seq<char>>, from: int) -> int
    decreases gs.len() - from,
{
    if from < 0 || from >= gs.len() || keys_sign(gs[from].0, k) >= 0 {
        from
    } else {
        key_position(gs, k, from + 1)
    }
}

/// The groups after the row at `idx`, with key `k`, joins them: counted in
/// its key's group, or starting a new group at the key's place in order.
pub open spec fn add_to_groups(gs: Seq<GroupModel>, k: Seq<Seq<char>>, idx: int) -> Seq<GroupModel> {
    let p = key_position(gs, k, 0);
    if 0 <= p < gs.len() && keys_sign(gs[p].0, k) == 0 {
        gs.update(p, (gs[p].0, gs[p].1, gs[p].2 + 1))
    } else {
        gs.insert(p, (k, idx, 1))
    }
}

/// The groups of the first `n` rows, in ascending key order.
pub open spec fn groups_upto(rows: Seq<RowModel>, gb: Seq<Expr>, n: int) -> Seq<GroupModel>
    decreases n,
{
    if n <= 0 || n > rows.len() {
        Seq::empty()
    } else {
        add_to_groups(groups_upto(rows, gb, n - 1), group_key(gb, rows[n - 1]), n - 1)
    }
}

/// The groups of the rows, in ascending key order.
pub open spec fn spec_groups(rows: Seq<RowModel>, gb: Seq<Expr>) -> Seq<GroupModel> {
    groups_upto(rows, gb, rows.len() as int)
}

/// The pairs that a group's result row stores: the selected columns of its
/// first row, and its count under `COUNT(*)`.
pub open spec fn group_pairs(cols: Seq<SelectItem>, sample: RowModel, count: int) -> RowModel
    decreases cols.len(),
{
    if cols.len() == 0 {
        Seq::empty()
    } else {
        let prev = group_pairs(cols.drop_last(), sample, count);
        match cols.last() {
            SelectItem::Column(name) => prev.push((name@, get_or_null(sample, name@))),
            SelectItem::Function { name, .. } => if name@ == "COUNT"@ {
                prev.push(("COUNT(*)"@, ValueModel::Int(count as i64)))
            } else {
                prev
            },
            SelectItem::AllColumns => prev,
        }
    }
}

/// The pairs of the single result row of an aggregate without GROUP BY: the
/// count under `COUNT(*)` for each `COUNT` selected.
pub open spec fn count_pairs(cols: Seq<SelectItem>, count: int) -> RowModel
    decreases cols.len(),
{
    if cols.len() == 0 {
        Seq::empty()
    } else {
        let prev = count_pairs(cols.drop_last(), count);
        match cols.last() {
            SelectItem::Function { name, .. } => if name@ == "COUNT"@ {
                prev.push(("COUNT(*)"@, ValueModel::Int(count as i64)))
            } else {
                prev
            },
            _ => prev,
        }
    }
}

/// Whether `out` is a row that stores `pairs`.
pub open spec fn realizes_pairs(out: RowModel, pairs: RowModel) -> bool {
    keys_sorted(out) && forall|k: Seq<char>| #[trigger] spec_get(out, k) == spec_get(pairs, k)
}

/// The pairs of each result row of an aggregate, before ORDER BY.
pub open spec fn spec_aggregate_pairs(rows: Seq<RowModel>, cols: Seq<SelectItem>, gb: Seq<Expr>) -> Seq<RowModel> {
    if gb.len() == 0 {
        seq![count_pairs(cols, rows.len() as int)]
    } else {
        spec_groups(rows, gb).map_values(|g: GroupModel| group_pairs(cols, rows[g.1], g.2))
    }
}

/// Whether `out` is the result of aggregating `rows`: one row per group (a
/// single row without GROUP BY), sorted by ORDER BY when grouped.
pub open spec fn aggregated(
    rows: Seq<RowModel>,
    cols: Seq<SelectItem>,
    gb: Seq<Expr>,
    obs: Seq<OrderBy>,
    out: Seq<RowModel>,
) -> bool {
    let expected = spec_aggregate_pairs(rows, cols, gb);
    exists|grouped: Seq<RowModel>|
        #![trigger grouped.len()]
        grouped.len() == expected.len() && (forall|g: int|
            0 <= g < grouped.len() ==> realizes_pairs(#[trigger] grouped[g], expected[g])) && (if gb.len()
            > 0 && obs.len() > 0 {
            sorted_from(obs, grouped, out)
        } else {
            out == grouped
        })
}

/// The GROUP BY key of a row.
fn group_key_of(gb: &Vec<Expr>, row: &Row) -> (r: Vec<Vec<char>>)
    ensures
        r@.map_values(|v: Vec<char>| v@) == group_key(gb@, row@),
{
    let mut r: Vec<Vec<char>> = Vec::new();
    let mut i: usize = 0;
    while i < gb.len()
        invariant
            i <= gb.len(),
            r@.map_values(|v: Vec<char>| v@) == group_key(gb@, row@).take(i as int),
        decreases gb.len() - i,
    {
        let part: Vec<char> = match &gb[i] {
            Expr::Column(name) => match row.get(name.as_str()) {
                Some(v) => {
                    let t = v.display();
                    chars_of(t.as_str())
                },
                None => chars_of("NULL"),
            },
            _ => chars_of("NULL"),
        };
        let ghost before = r@;
        r.push(part);
        assert(r@.map_values(|v: Vec<char>| v@) =~= group_key(gb@, row@).take(i + 1)) by {
            assert(r@.map_values(|v: Vec<char>| v@) =~= before.map_values(|v: Vec<char>| v@).push(
                key_part(gb@[i as int], row@),
            ));
        }
        i = i + 1;
    }
    assert(group_key(gb@, row@).take(i as int) =~= group_key(gb@, row@));
    r
}

/// The order of two keys as a sign (see `keys_sign`).
fn compare_keys(a: &Vec<Vec<char>>, b: &Vec<Vec<char>>) -> (r: i8)
    ensures
        r == keys_sign(a@.map_values(|v: Vec<char>| v@), b@.map_values(|v: Vec<char>| v@)),
{
    let ghost am = a@.map_values(|v: Vec<char>| v@);
    let ghost bm = b@.map_values(|v: Vec<char>| v@);
    let mut i: usize = 0;
    assert(am.skip(0) =~= am);
    assert(bm.skip(0) =~= bm);
    loop
        invariant
            i <= a.len(),
            i <= b.len(),
            am == a@.map_values(|v: Vec<char>| v@),
            bm == b@.map_values(|v: Vec<char>| v@),
            keys_sign(am, bm) == keys_sign(am.skip(i as int), bm.skip(i as int)),
        decreases a.len() - i,
    {
        if i == a.len() && i == b.len() {
            return 0;
        }
        if i == a.len() {
            return -1;
        }
        if i == b.len() {
            return 1;
        }
        let c = compare_chars(&a[i], &b[i]);
        assert(am.skip(i as int)[0] == a@[i as int]@);
        assert(bm.skip(i as int)[0] == b@[i as int]@);
        if c != 0 {
            return c;
        }
        assert(am.skip(i as int).drop_first() =~= am.skip(i + 1));
        assert(bm.skip(i as int).drop_first() =~= bm.skip(i + 1));
        i = i + 1;
    }
}

/// The model of the groups built so far.
pub open spec fn groups_model(gs: Seq<(Vec<Vec<char>>, usize, usize)>) -> Seq<GroupModel> {
    gs.map_values(
        |g: (Vec<Vec<char>>, usize, usize)| (g.0@.map_values(|v: Vec<char>| v@), g.1 as int, g.2 as int),
    )
}

/// Buckets rows by their GROUP BY key (see `spec_groups`).
fn group_rows(rows: &Vec<Row>, gb: &Vec<Expr>) -> (r: Vec<(Vec<Vec<char>>, usize, usize)>)
    ensures
        groups_model(r@) == spec_groups(row_models(rows@), gb@),
        forall|g: int| 0 <= g < r@.len() ==> (#[trigger] r@[g]).1 < rows.len() && r@[g].2 <= rows.len(),
{
    let ghost input = row_models(rows@);
    let mut groups: Vec<(Vec<Vec<char>>, usize, usize)> = Vec::new();
    let mut i: usize = 0;
    while i < rows.len()
        invariant
            i <= rows.len(),
            input == row_models(rows@),
            groups_model(groups@) == groups_upto(input, gb@, i as int),
            forall|g: int| 0 <= g < groups@.len() ==> (#[trigger] groups@[g]).1 < i && groups@[g].2 <= i,
        decreases rows.len() - i,
    {
        let key = group_key_of(gb, &rows[i]);
        let ghost km = key@.map_values(|v: Vec<char>| v@);
        let ghost gm = groups_model(groups@);
        assert(input[i as int] == rows@[i as int]@);
        let mut p: usize = 0;
        while p < groups.len() && compare_keys(&groups[p].0, &key) < 0
            invariant
                p <= groups.len(),
                gm == groups_model(groups@),
                km == key@.map_values(|v: Vec<char>| v@),
                key_position(gm, km, 0) == key_position(gm, km, p as int),
            decreases groups.len() - p,
        {
            p = p + 1;
        }
        let same = p < groups.len() && compare_keys(&groups[p].0, &key) == 0;
        assert(key_position(gm, km, p as int) == p as int);
        if same {
            let (k0, first, count) = groups.remove(p);
            groups.insert(p, (k0, first, count + 1));
            assert(groups_model(groups@) =~= gm.update(p as int, (gm[p as int].0, gm[p as int].1, gm[p as int].2 + 1)));
        } else {
            groups.insert(p, (key, i, 1));
            assert(groups_model(groups@) =~= gm.insert(p as int, (km, i as int, 1)));
        }
        i = i + 1;
    }
    groups
}

/// The result row of a group: the selected columns of its first row and
/// its count under `COUNT(*)`.
fn group_row(cols: &Vec<SelectItem>, sample: &Row, count: usize) -> (r: Row)
    ensures
        realizes_pairs(r@, group_pairs(cols@, sample@, count as int)),
{
    let mut result = Row::new();
    let mut i: usize = 0;
    while i < cols.len()
        invariant
            i <= cols.len(),
            realizes_pairs(result@, group_pairs(cols@.take(i as int), sample@, count as int)),
        decreases cols.len() - i,
    {
        let ghost prev = group_pairs(cols@.take(i as int), sample@, count as int);
        assert(cols@.take(i + 1).drop_last() =~= cols@.take(i as int));
        match &cols[i] {
            SelectItem::Column(name) => {
                let value = sample.get_or_null(name.as_str());
                result.insert(name.clone(), value);
                assert(prev.push((name@, get_or_null(sample@, name@))).drop_last() =~= prev);
            },
            SelectItem::Function { name, .. } => {
                if str_equal(name.as_str(), "COUNT") {
                    result.insert("COUNT(*)".to_owned(), Value::Int(count as i64));
                    assert(prev.push(("COUNT(*)"@, ValueModel::Int(count as i64))).drop_last() =~= prev);
                }
            },
            SelectItem::AllColumns => {},
        }
        i = i + 1;
    }
    assert(cols@.take(i as int) =~= cols@);
    result
}

/// The single result row of an aggregate without GROUP BY.
fn count_row(cols: &Vec<SelectItem>, count: usize) -> (r: Row)
    ensures
        realizes_pairs(r@, count_pairs(cols@, count as int)),
{
    let mut result = Row::new();
    let mut i: usize = 0;
    while i < cols.len()
        invariant
            i <= cols.len(),
            realizes_pairs(result@, count_pairs(cols@.take(i as int), count as int)),
        decreases cols.len() - i,
    {
        let ghost prev = count_pairs(cols@.take(i as int), count as int);
        assert(cols@.take(i + 1).drop_last() =~= cols@.take(i as int));
        match &cols[i] {
            SelectItem::Function { name, .. } => {
                if str_equal(name.as_str(), "COUNT") {
                    result.insert("COUNT(*)".to_owned(), Value::Int(count as i64));
                    assert(prev.push(("COUNT(*)"@, ValueModel::Int(count as i64))).drop_last() =~= prev);
                }
            },
            _ => {},
        }
        i = i + 1;
    }
    assert(cols@.take(i as int) =~= cols@);
    result
}

/// Aggregate rows: COUNT(*) over all rows without GROUP BY, else one row
/// per group (ascending by key), then ORDER BY.
pub fn aggregate(
    rows: &Vec<Row>,
    columns: &Vec<SelectItem>,
    group_by: &Vec<Expr>,
    order_by: &Vec<OrderBy>,
) -> (r: Vec<Row>)
    ensures
        aggregated(row_models(rows@), columns@, group_by@, order_by@, row_models(r@)),
{
    let ghost input = row_models(rows@);
    if group_by.len() == 0 {
        let result = count_row(columns, rows.len());
        let mut out: Vec<Row> = Vec::new();
        out.push(result);
        proof {
            let expected = spec_aggregate_pairs(input, columns@, group_by@);
            let grouped = row_models(out@);
            assert(grouped.len() == expected.len());
            assert(grouped[0] == out@[0]@);
        }
        return out;
    }
    let groups = group_rows(rows, group_by);
    let mut result_rows: Vec<Row> = Vec::new();
    let ghost gs = spec_groups(input, group_by@);
    let ghost expected = spec_aggregate_pairs(input, columns@, group_by@);
    let mut g: usize = 0;
    while g < groups.len()
        invariant
            g <= groups.len(),
            groups_model(groups@) == gs,
            expected == gs.map_values(|gm: GroupModel| group_pairs(columns@, input[gm.1], gm.2)),
            input == row_models(rows@),
            forall|q: int| 0 <= q < groups@.len() ==> (#[trigger] groups@[q]).1 < rows.len(),
            result_rows.len() == g,
            forall|q: int| 0 <= q < g ==> realizes_pairs(#[trigger] row_models(result_rows@)[q], expected[q]),
        decreases groups.len() - g,
    {
        let first = groups[g].1;
        let count = groups[g].2;
        let row = group_row(columns, &rows[first], count);
        let ghost before = result_rows@;
        result_rows.push(row);
        proof {
            assert(gs[g as int] == (groups@[g as int].0@.map_values(|v: Vec<char>| v@), first as int, count as int));
            assert(input[first as int] == rows@[first as int]@);
            assert forall|q: int| 0 <= q < g + 1 implies realizes_pairs(#[trigger] row_models(result_rows@)[q], expected[q]) by {
                if q < g {
                    assert(row_models(result_rows@)[q] == row_models(before)[q]);
                }
            }
        }
        g = g + 1;
    }
    let ghost grouped = row_models(result_rows@);
    if order_by.len() > 0 {
        sort_rows(&mut result_rows, order_by);
    }
    proof {
        assert(grouped.len() == expected.len());
    }
    result_rows
}

/// The rows that pass the WHERE filter, in order; `None` where evaluating
/// the filter panics on some row.
pub open spec fn spec_filter_rows(rows: Seq<RowModel>, filter: Option<Expr>, today: int) -> Option<Seq<RowModel>>
    decreases rows.len(),
{
    if rows.len() == 0 {
        Some(Seq::empty())
    } else {
        match spec_filter_rows(rows.drop_last(), filter, today) {
            None => None,
            Some(prev) => match filter {
                None => Some(prev.push(rows.last())),
                Some(e) => match spec_passes(e, rows.last(), today) {
                    None => None,
                    Some(true) => Some(prev.push(rows.last())),
                    Some(false) => Some(prev),
                },
            },
        }
    }
}

/// OFFSET, then LIMIT.
pub open spec fn page(s: Seq<RowModel>, offset: Option<usize>, limit: Option<usize>) -> Seq<RowModel> {
    let a = match offset {
        Some(o) => if o >= s.len() {
            Seq::empty()
        } else {
            s.skip(o as int)
        },
        None => s,
    };
    match limit {
        Some(l) => if l < a.len() {
            a.take(l as int)
        } else {
            a
        },
        None => a,
    }
}

/// Whether `p` holds the projections of the rows `w`.
pub open spec fn projected(w: Seq<RowModel>, cols: Seq<SelectItem>, today: int, p: Seq<RowModel>) -> bool {
    &&& p.len() == w.len()
    &&& forall|i: int|
        0 <= i < w.len() ==> match #[trigger] spec_project(w[i], cols, today) {
            Some(pr) => realizes(p[i], w[i], pr),
            None => false,
        }
}

/// The sorted rows that a non-aggregate query projects: all of them under
/// DISTINCT (which comes before OFFSET and LIMIT), else the page.
pub open spec fn finish_window(s: Seq<RowModel>, query: Query) -> Seq<RowModel> {
    if query.distinct {
        s
    } else {
        page(s, query.offset, query.limit)
    }
}

/// What a non-aggregate query makes of the sorted rows `s`: the page
/// projected; under DISTINCT, all rows projected and de-duplicated, then
/// the page of those. `None` where a projection panics.
pub open spec fn finishes(s: Seq<RowModel>, query: Query, today: int, r: Option<Seq<RowModel>>) -> bool {
    let w = finish_window(s, query);
    match r {
        None => exists|i: int| 0 <= i < w.len() && (#[trigger] spec_project(w[i], query.columns@, today)) is None,
        Some(out) => exists|p: Seq<RowModel>|
            #![trigger projected(w, query.columns@, today, p)]
            projected(w, query.columns@, today, p) && out == (if query.distinct {
                page(spec_dedup(p), query.offset, query.limit)
            } else {
                p
            }),
    }
}

/// Whether `r` is the result of running `query` over `rows` on the day
/// `today`: filter, then either aggregate and page the groups, or sort and
/// finish (see `finishes`).
pub open spec fn executes(query: Query, rows: Seq<RowModel>, today: int, r: Option<Seq<RowModel>>) -> bool {
    match spec_filter_rows(rows, query.filter, today) {
        None => r is None,
        Some(f) => if query.is_aggregate {
            r matches Some(out) && exists|groups: Seq<RowModel>|
                aggregated(f, query.columns@, query.group_by@, query.order_by@, groups) && out == page(
                    groups,
                    query.offset,
                    query.limit,
                )
        } else {
            exists|s: Seq<RowModel>|
                (if query.order_by.len() > 0 {
                    sorted_from(query.order_by@, f, s)
                } else {
                    s == f
                }) && finishes(s, query, today, r)
        },
    }
}

/// The OFFSET and LIMIT window of `rows`, as indices.
fn page_bounds(len: usize, offset: Option<usize>, limit: Option<usize>) -> (r: (usize, usize))
    ensures
        r.0 <= r.1 <= len,
        forall|s: Seq<RowModel>| s.len() == len ==> #[trigger] page(s, offset, limit) =~= s.subrange(r.0 as int, r.1 as int),
{
    let start = match offset {
        Some(o) => if o >= len {
            len
        } else {
            o
        },
        None => 0,
    };
    let end = match limit {
        Some(l) => if l < len - start {
            start + l
        } else {
            len
        },
        None => len,
    };
    (start, end)
}

/// The rows of the OFFSET and LIMIT window.
pub fn page_rows(rows: &Vec<Row>, offset: Option<usize>, limit: Option<usize>) -> (r: Vec<Row>)
    ensures
        row_models(r@) == page(row_models(rows@), offset, limit),
{
    let (start, end) = page_bounds(rows.len(), offset, limit);
    let ghost want = row_models(rows@).subrange(start as int, end as int);
    let mut out: Vec<Row> = Vec::new();
    let mut k = start;
    while k < end
        invariant
            start <= k <= end <= rows.len(),
            row_models(out@) == row_models(rows@).subrange(start as int, k as int),
        decreases end - k,
    {
        let ghost before = row_models(out@);
        let row = rows[k].copy();
        out.push(row);
        assert(row_models(out@) =~= before.push(rows@[k as int]@));
        assert(row_models(out@) =~= row_models(rows@).subrange(start as int, k + 1));
        k = k + 1;
    }
    out
}

/// The models of an optional result.
pub open spec fn result_models(r: Option<Vec<Row>>) -> Option<Seq<RowModel>> {
    match r {
        Some(v) => Some(row_models(v@)),
        None => None,
    }
}

/// Execute a parsed query against the rows read from the markdown files, on
/// the day `today` (what `NOW()` means): filter, then either aggregate, or
/// sort, project, de-duplicate and page. `None` where evaluation has no
/// result (date arithmetic out of range).
pub fn execute(query: &Query, rows: &Vec<Row>, today: &Date) -> (r: Option<Vec<Row>>)
    ensures
        executes(*query, row_models(rows@), today@, result_models(r)),
{
    let ghost input = row_models(rows@);
    let mut kept: Vec<Row> = Vec::new();
    let mut i: usize = 0;
    while i < rows.len()
        invariant
            i <= rows.len(),
            input == row_models(rows@),
            spec_filter_rows(input.take(i as int), query.filter, today@) == Some(row_models(kept@)),
        decreases rows.len() - i,
    {
        let ghost before = row_models(kept@);
        proof {
            assert(input.take(i + 1).drop_last() =~= input.take(i as int));
            assert(input.take(i + 1).last() == rows@[i as int]@);
        }
        match &query.filter {
            Some(f) => match eval_expr(f, &rows[i], today) {
                None => {
                    proof {
                        lemma_filter_none_extends(input, query.filter, today@, i as int + 1);
                    }
                    return None;
                },
                Some(pass) => {
                    if pass {
                        kept.push(rows[i].copy());
                        assert(row_models(kept@) =~= before.push(rows@[i as int]@));
                    }
                },
            },
            None => {
                kept.push(rows[i].copy());
                assert(row_models(kept@) =~= before.push(rows@[i as int]@));
            },
        }
        i = i + 1;
    }
    assert(input.take(i as int) =~= input);
    let ghost f = row_models(kept@);
    if query.is_aggregate {
        let groups = aggregate(&kept, &query.columns, &query.group_by, &query.order_by);
        return Some(page_rows(&groups, query.offset, query.limit));
    }
    if query.order_by.len() > 0 {
        sort_rows(&mut kept, &query.order_by);
    }
    let ghost s = row_models(kept@);
    let len = kept.len();
    let (start, end) = if query.distinct {
        (0, len)
    } else {
        page_bounds(len, query.offset, query.limit)
    };
    let ghost w = finish_window(s, *query);
    proof {
        assert(w =~= s.subrange(start as int, end as int));
    }
    let mut out: Vec<Row> = Vec::new();
    let mut k = start;
    while k < end
        invariant
            start <= k <= end <= kept.len(),
            s == row_models(kept@),
            w == s.subrange(start as int, end as int),
            w == finish_window(s, *query),
            input == row_models(rows@),
            spec_filter_rows(input, query.filter, today@) == Some(f),
            !query.is_aggregate,
            if query.order_by.len() > 0 {
                sorted_from(query.order_by@, f, s)
            } else {
                s == f
            },
            out.len() == k - start,
            forall|q: int| 0 <= q < k - start ==> match #[trigger] spec_project(w[q], query.columns@, today@) {
                Some(pr) => realizes(row_models(out@)[q], w[q], pr),
                None => false,
            },
        decreases end - k,
    {
        let ghost before = out@;
        match project(&kept[k], &query.columns, today) {
            None => {
                proof {
                    assert(w[k - start] == s[k as int]);
                    assert((spec_project(w[k - start], query.columns@, today@)) is None);
                    assert(exists|i: int| 0 <= i < w.len() && (#[trigger] spec_project(w[i], query.columns@, today@)) is None);
                    assert(finishes(s, *query, today@, None));
                    assert(input == row_models(rows@));
                    assert(executes(*query, row_models(rows@), today@, None));
                }
                return None;
            },
            Some(row) => {
                out.push(row);
                proof {
                    assert(w[k - start] == s[k as int]);
                    assert forall|q: int| 0 <= q < k + 1 - start implies match #[trigger] spec_project(w[q], query.columns@, today@) {
                        Some(pr) => realizes(row_models(out@)[q], w[q], pr),
                        None => false,
                    } by {
                        if q < k - start {
                            assert(row_models(out@)[q] == row_models(before)[q]);
                        }
                    }
                }
            },
        }
        k = k + 1;
    }
    let ghost pm = row_models(out@);
    proof {
        assert(projected(w, query.columns@, today@, pm));
    }
    if query.distinct {
        deduplicate(&mut out);
        let paged = page_rows(&out, query.offset, query.limit);
        proof {
            assert(projected(w, query.columns@, today@, pm) && row_models(paged@) == page(spec_dedup(pm), query.offset, query.limit));
            assert(finishes(s, *query, today@, Some(row_models(paged@))));
        }
        return Some(paged);
    }
    proof {
        assert(projected(w, query.columns@, today@, pm) && row_models(out@) == pm);
        assert(finishes(s, *query, today@, Some(row_models(out@))));
    }
    Some(out)
}

/// A row whose filter panics makes every longer prefix panic too.
pub proof fn lemma_filter_none_extends(rows: Seq<RowModel>, filter: Option<Expr>, today: int, n: int)
    requires
        0 < n <= rows.len(),
        spec_filter_rows(rows.take(n), filter, today) is None,
    ensures
        spec_filter_rows(rows, filter, today) is None,
    decreases rows.len() - n,
{
    if n < rows.len() {
        assert(rows.take(n + 1).drop_last() =~= rows.take(n));
        lemma_filter_none_extends(rows, filter, today, n + 1);
    } else {
        assert(rows.take(n) =~= rows);
    }
}

/// `execute` on today's date, as the local clock gives it.
pub fn execute_now(query: &Query, rows: &Vec<Row>) -> (r: Option<Vec<Row>>)
    ensures
        exists|d: Date| executes(*query, row_models(rows@), d@, result_models(r)),
{
    let d = today();
    execute(query, rows, &d)
}

/// The positions in `rows` of the rows that the filter keeps.
proof fn lemma_filter_positions(rows: Seq<RowModel>, e: Expr, today: int) -> (idx: Seq<int>)
    requires
        spec_filter_rows(rows, Some(e), today) is Some,
    ensures
        idx.len() == spec_filter_rows(rows, Some(e), today).unwrap().len(),
        forall|i: int|
            0 <= i < idx.len() ==> 0 <= #[trigger] idx[i] < rows.len() && rows[idx[i]]
                == spec_filter_rows(rows, Some(e), today).unwrap()[i],
        forall|i: int, j: int| 0 <= i < j < idx.len() ==> #[trigger] idx[i] < #[trigger] idx[j],
        forall|j: int| 0 <= j < rows.len() ==> (spec_passes(e, #[trigger] rows[j], today) == Some(true) <==> exists|i: int| 0 <= i < idx.len() && idx[i] == j),
        forall|j: int| 0 <= j < rows.len() ==> spec_passes(e, #[trigger] rows[j], today) is Some,
    decreases rows.len(),
{
    if rows.len() == 0 {
        Seq::empty()
    } else {
        let prev = rows.drop_last();
        let pidx = lemma_filter_positions(prev, e, today);
        let last = rows.len() - 1;
        assert forall|j: int| 0 <= j < last implies rows[j] == prev[j] by {}
        if spec_passes(e, rows.last(), today) == Some(true) {
            let idx = pidx.push(last);
            assert forall|j: int| 0 <= j < rows.len() implies (spec_passes(e, #[trigger] rows[j], today) == Some(true) <==> exists|i: int| 0 <= i < idx.len() && idx[i] == j) by {
                if j < last {
                    if spec_passes(e, rows[j], today) == Some(true) {
                        let i = choose|i: int| 0 <= i < pidx.len() && pidx[i] == j;
                        assert(idx[i] == j);
                    }
                    if exists|i: int| 0 <= i < idx.len() && idx[i] == j {
                        let i = choose|i: int| 0 <= i < idx.len() && idx[i] == j;
                        assert(i < pidx.len());
                        assert(pidx[i] == j);
                    }
                } else {
                    assert(idx[idx.len() - 1] == j);
                }
            }
            idx
        } else {
            assert forall|j: int| 0 <= j < rows.len() implies (spec_passes(e, #[trigger] rows[j], today) == Some(true) <==> exists|i: int| 0 <= i < pidx.len() && pidx[i] == j) by {
                if j < last {
                    assert(rows[j] == prev[j]);
                }
            }
            pidx
        }
    }
}

/// Law: the rows that the WHERE filter keeps are exactly those that pass
/// it, in their order in the input.
pub proof fn law_filter_keeps_exactly_passing_rows(rows: Seq<RowModel>, e: Expr, today: int, kept: Seq<RowModel>)
    requires
        spec_filter_rows(rows, Some(e), today) == Some(kept),
    ensures
        forall|i: int| 0 <= i < kept.len() ==> spec_passes(e, #[trigger] kept[i], today) == Some(true),
        exists|idx: Seq<int>|
            idx.len() == kept.len() && (forall|i: int|
                0 <= i < idx.len() ==> 0 <= #[trigger] idx[i] < rows.len() && rows[idx[i]] == kept[i])
                && (forall|i: int, j: int| 0 <= i < j < idx.len() ==> #[trigger] idx[i] < #[trigger] idx[j])
                && (forall|j: int|
                0 <= j < rows.len() ==> (spec_passes(e, #[trigger] rows[j], today) == Some(true) <==> exists|i: int|
                    0 <= i < idx.len() && idx[i] == j)),
{
    let idx = lemma_filter_positions(rows, e, today);
    assert forall|i: int| 0 <= i < kept.len() implies spec_passes(e, #[trigger] kept[i], today) == Some(true) by {
        let j = idx[i];
        assert(rows[j] == kept[i]);
        assert(exists|i2: int| 0 <= i2 < idx.len() && idx[i2] == j);
    }
}

/// De-duplication keeps at most the rows it is given, and only those.
proof fn lemma_dedup_members(rows: Seq<RowModel>)
    ensures
        spec_dedup(rows).len() <= rows.len(),
        forall|i: int|
            0 <= i < spec_dedup(rows).len() ==> exists|j: int| 0 <= j < rows.len() && #[trigger] spec_dedup(rows)[i] == rows[j],
    decreases rows.len(),
{
    if rows.len() > 0 {
        let prev = rows.drop_last();
        lemma_dedup_members(prev);
        let p = spec_dedup(prev);
        let q = spec_dedup(rows);
        assert forall|i: int| 0 <= i < q.len() implies exists|j: int| 0 <= j < rows.len() && #[trigger] q[i] == rows[j] by {
            if i < p.len() {
                assert(q[i] == p[i]);
                let j = choose|j: int| 0 <= j < prev.len() && p[i] == prev[j];
                assert(rows[j] == prev[j]);
            } else {
                assert(q[i] == rows[rows.len() - 1]);
            }
        }
    }
}

/// De-duplication keeps no row whose fields equal an earlier kept row's.
proof fn lemma_dedup_distinct(rows: Seq<RowModel>)
    ensures
        forall|i: int, j: int|
            0 <= i < j < spec_dedup(rows).len() ==> !rows_equal(#[trigger] spec_dedup(rows)[i], #[trigger] spec_dedup(rows)[j]),
    decreases rows.len(),
{
    if rows.len() > 0 {
        let prev = rows.drop_last();
        let last = rows.len() - 1;
        lemma_dedup_distinct(prev);
        lemma_dedup_members(prev);
        let p = spec_dedup(prev);
        if !seen_before(rows, last) {
            let q = p.push(rows.last());
            assert forall|i: int, j: int| 0 <= i < j < q.len() implies !rows_equal(#[trigger] q[i], #[trigger] q[j]) by {
                if j == q.len() - 1 {
                    let k = choose|k: int| 0 <= k < prev.len() && #[trigger] p[i] == prev[k];
                    assert(rows[k] == prev[k]);
                    if rows_equal(q[i], q[j]) {
                        assert(rows_equal(rows[k], rows[last]));
                        assert(seen_before(rows, last));
                    }
                } else {
                    assert(q[i] == p[i] && q[j] == p[j]);
                }
            }
        }
    }
}

/// De-duplication keeps every row that no earlier row equals.
proof fn lemma_dedup_keeps_firsts(rows: Seq<RowModel>)
    ensures
        forall|j: int|
            #![trigger rows[j]]
            0 <= j < rows.len() && !seen_before(rows, j) ==> exists|i: int| 0 <= i < spec_dedup(rows).len() && #[trigger] spec_dedup(rows)[i] == rows[j],
    decreases rows.len(),
{
    if rows.len() > 0 {
        let prev = rows.drop_last();
        let last = rows.len() - 1;
        lemma_dedup_keeps_firsts(prev);
        let p = spec_dedup(prev);
        let q = spec_dedup(rows);
        assert forall|j: int| #![trigger rows[j]] 0 <= j < rows.len() && !seen_before(rows, j) implies exists|i: int| 0 <= i < q.len() && #[trigger] q[i] == rows[j] by {
            if j < last {
                assert(rows[j] == prev[j]);
                if seen_before(prev, j) {
                    let w = choose|w: int| 0 <= w < j && rows_equal(#[trigger] prev[w], prev[j]);
                    assert(rows[w] == prev[w]);
                    assert(seen_before(rows, j));
                }
                let i = choose|i: int| 0 <= i < p.len() && #[trigger] p[i] == prev[j];
                assert(q[i] == p[i]);
            } else {
                assert(q[q.len() - 1] == rows[j]);
            }
        }
    }
}

/// Law: DISTINCT keeps only input rows, no two with equal fields, and
/// every row whose fields no earlier row holds.
pub proof fn law_distinct_keys(rows: Seq<RowModel>)
    ensures
        forall|i: int, j: int|
            0 <= i < j < spec_dedup(rows).len() ==> !rows_equal(#[trigger] spec_dedup(rows)[i], #[trigger] spec_dedup(rows)[j]),
        forall|i: int|
            0 <= i < spec_dedup(rows).len() ==> exists|j: int| 0 <= j < rows.len() && #[trigger] spec_dedup(rows)[i] == rows[j],
        forall|j: int|
            #![trigger rows[j]]
            0 <= j < rows.len() && !seen_before(rows, j) ==> exists|i: int| 0 <= i < spec_dedup(rows).len() && #[trigger] spec_dedup(rows)[i] == rows[j],
{
    lemma_dedup_members(rows);
    lemma_dedup_distinct(rows);
    lemma_dedup_keeps_firsts(rows);
}

/// Law: a query with `LIMIT n` gives at most `n` rows (an aggregate gives
/// its groups), and one whose `OFFSET` reaches past the rows that pass the
/// filter gives none.
pub proof fn law_limit_and_offset(query: Query, rows: Seq<RowModel>, today: int, out: Seq<RowModel>)
    requires
        executes(query, rows, today, Some(out)),
        !query.is_aggregate,
    ensures
        query.limit matches Some(n) ==> out.len() <= n,
        (spec_filter_rows(rows, query.filter, today) matches Some(f) && query.offset matches Some(o) && o >= f.len()) ==> out.len() == 0,
{
    let f = spec_filter_rows(rows, query.filter, today).unwrap();
    let s = choose|s: Seq<RowModel>|
        (if query.order_by.len() > 0 {
            sorted_from(query.order_by@, f, s)
        } else {
            s == f
        }) && finishes(s, query, today, Some(out));
    let w = finish_window(s, query);
    let p = choose|p: Seq<RowModel>|
        projected(w, query.columns@, today, p) && out == (if query.distinct {
            page(spec_dedup(p), query.offset, query.limit)
        } else {
            p
        });
    lemma_dedup_members(p);
    if query.order_by.len() > 0 {
        assert(s.len() == f.len());
    }
}

/// The number of rows that the groups count.
pub open spec fn group_total(gs: Seq<GroupModel>) -> int
    decreases gs.len(),
{
    if gs.len() == 0 {
        0
    } else {
        group_total(gs.drop_last()) + gs.last().2
    }
}

proof fn lemma_total_update(gs: Seq<GroupModel>, p: int, g: GroupModel)
    requires
        0 <= p < gs.len(),
    ensures
        group_total(gs.update(p, g)) == group_total(gs) - gs[p].2 + g.2,
    decreases gs.len(),
{
    if p == gs.len() - 1 {
        assert(gs.update(p, g).drop_last() =~= gs.drop_last());
    } else {
        lemma_total_update(gs.drop_last(), p, g);
        assert(gs.update(p, g).drop_last() =~= gs.drop_last().update(p, g));
    }
}

proof fn lemma_total_insert(gs: Seq<GroupModel>, p: int, g: GroupModel)
    requires
        0 <= p <= gs.len(),
    ensures
        group_total(gs.insert(p, g)) == group_total(gs) + g.2,
    decreases gs.len(),
{
    if p == gs.len() {
        assert(gs.insert(p, g).drop_last() =~= gs);
    } else {
        lemma_total_insert(gs.drop_last(), p, g);
        assert(gs.insert(p, g).drop_last() =~= gs.drop_last().insert(p, g));
    }
}

proof fn lemma_key_position_range(gs: Seq<GroupModel>, k: Seq<Seq<char>>, from: int)
    requires
        0 <= from <= gs.len(),
    ensures
        from <= key_position(gs, k, from) <= gs.len(),
    decreases gs.len() - from,
{
    if from < gs.len() && keys_sign(gs[from].0, k) < 0 {
        lemma_key_position_range(gs, k, from + 1);
    }
}

proof fn lemma_groups_total(rows: Seq<RowModel>, gb: Seq<Expr>, n: int)
    requires
        0 <= n <= rows.len(),
    ensures
        group_total(groups_upto(rows, gb, n)) == n,
    decreases n,
{
    if n > 0 {
        lemma_groups_total(rows, gb, n - 1);
        let gs = groups_upto(rows, gb, n - 1);
        let k = group_key(gb, rows[n - 1]);
        lemma_key_position_range(gs, k, 0);
        let p = key_position(gs, k, 0);
        if 0 <= p < gs.len() && keys_sign(gs[p].0, k) == 0 {
            lemma_total_update(gs, p, (gs[p].0, gs[p].1, gs[p].2 + 1));
        } else {
            lemma_total_insert(gs, p, (k, n - 1, 1));
        }
    }
}

/// Law: GROUP BY puts every row in exactly one group: the groups' counts
/// add up to the number of rows.
pub proof fn law_group_counts_add_up(rows: Seq<RowModel>, gb: Seq<Expr>)
    ensures
        group_total(spec_groups(rows, gb)) == rows.len(),
{
    lemma_groups_total(rows, gb, rows.len() as int);
}

/// A SELECT list without `*`.
pub open spec fn no_star(cols: Seq<SelectItem>) -> bool {
    forall|i: int| 0 <= i < cols.len() ==> !(#[trigger] cols[i] is AllColumns)
}

proof fn lemma_project_keys(row: RowModel, cols: Seq<SelectItem>, today: int, i: int, acc: RowModel)
    requires
        0 <= i <= cols.len(),
        no_star(cols),
        forall|k: Seq<char>| #[trigger] spec_get(acc, k) is Some <==> spec_column_names(cols.take(i), None).contains(k),
    ensures
        match project_from(row, cols, today, i, acc) {
            Some(Projection::Pairs(p)) => forall|k: Seq<char>|
                #[trigger] spec_get(p, k) is Some <==> spec_column_names(cols, None).contains(k),
            Some(Projection::Whole) => false,
            None => true,
        },
    decreases cols.len() - i,
{
    if i == cols.len() {
        assert(cols.take(i) =~= cols);
    } else {
        assert(!(cols[i] is AllColumns));
        let names = spec_column_names(cols.take(i), None);
        assert(cols.take(i + 1).drop_last() =~= cols.take(i));
        assert(cols.take(i + 1).last() == cols[i]);
        let next_names = spec_column_names(cols.take(i + 1), None);
        let n = match cols[i] {
            SelectItem::Column(name) => name@,
            SelectItem::Function { name, args } => display_name(name@, args@),
            SelectItem::AllColumns => Seq::empty(),
        };
        assert(next_names == names + seq![n]);
        let v = match cols[i] {
            SelectItem::Column(name) => Some(get_or_null(row, name@)),
            SelectItem::Function { name, args } => spec_select_function(name@, args@, row, today),
            SelectItem::AllColumns => None,
        };
        if let Some(val) = v {
            let next = acc.push((n, val));
            assert(next.drop_last() =~= acc);
            assert forall|k: Seq<char>| #[trigger] spec_get(next, k) is Some <==> next_names.contains(k) by {
                assert(next.last() == (n, val));
                assert(spec_get(next, k) == if k == n {
                    Some(val)
                } else {
                    spec_get(acc, k)
                });
                assert(spec_get(acc, k) is Some <==> names.contains(k));
                if k == n {
                    assert(next_names[names.len() as int] == n);
                } else {
                    if names.contains(k) {
                        let w = choose|w: int| 0 <= w < names.len() && names[w] == k;
                        assert(next_names[w] == k);
                    }
                    if next_names.contains(k) {
                        let w = choose|w: int| 0 <= w < next_names.len() && next_names[w] == k;
                        assert(w < names.len());
                        assert(names[w] == k);
                    }
                }
            }
            lemma_project_keys(row, cols, today, i + 1, next);
        }
    }
}

/// Law: for a SELECT list without `*`, each projected row holds a value
/// under exactly the column names of the result's header.
pub proof fn law_projection_matches_header(row: RowModel, cols: Seq<SelectItem>, today: int)
    requires
        no_star(cols),
    ensures
        match spec_project(row, cols, today) {
            Some(Projection::Pairs(p)) => forall|k: Seq<char>|
                #[trigger] spec_get(p, k) is Some <==> spec_column_names(cols, None).contains(k),
            Some(Projection::Whole) => false,
            None => true,
        },
{
    assert(cols.take(0) =~= Seq::<SelectItem>::empty());
    assert forall|k: Seq<char>| #[trigger] spec_get(Seq::<(Seq<char>, ValueModel)>::empty(), k) is Some <==> spec_column_names(cols.take(0), None).contains(k) by {
        assert(spec_column_names(cols.take(0), None) =~= Seq::<Seq<char>>::empty());
    }
    lemma_project_keys(row, cols, today, 0, Seq::empty());
}

/// Law: an aggregate gives the OFFSET/LIMIT window of its groups' rows:
/// one row without GROUP BY, else one row per group of the rows that pass
/// the filter.
pub proof fn law_aggregate_rows(query: Query, rows: Seq<RowModel>, today: int, out: Seq<RowModel>)
    requires
        executes(query, rows, today, Some(out)),
        query.is_aggregate,
    ensures
        exists|groups: Seq<RowModel>|
            #![trigger groups.len()]
            out == page(groups, query.offset, query.limit) && groups.len() == (if query.group_by.len() == 0 {
                1
            } else {
                spec_groups(spec_filter_rows(rows, query.filter, today).unwrap(), query.group_by@).len() as int
            }),
{
    let f = spec_filter_rows(rows, query.filter, today).unwrap();
    let groups = choose|groups: Seq<RowModel>|
        aggregated(f, query.columns@, query.group_by@, query.order_by@, groups) && out == page(
            groups,
            query.offset,
            query.limit,
        );
    let expected = spec_aggregate_pairs(f, query.columns@, query.group_by@);
    let grouped = choose|grouped: Seq<RowModel>|
        #![trigger grouped.len()]
        grouped.len() == expected.len() && (forall|g: int|
            0 <= g < grouped.len() ==> realizes_pairs(#[trigger] grouped[g], expected[g])) && (if query.group_by@.len() > 0
            && query.order_by@.len() > 0 {
            sorted_from(query.order_by@, grouped, groups)
        } else {
            groups == grouped
        });
    assert(grouped.len() == expected.len());
    if query.group_by@.len() > 0 && query.order_by@.len() > 0 {
        assert(groups.len() == grouped.len());
    }
    assert(groups.len() == (if query.group_by.len() == 0 {
        1
    } else {
        spec_groups(f, query.group_by@).len() as int
    }));
}

proof fn lemma_keys_sign_basics(a: Seq<Seq<char>>, b: Seq<Seq<char>>)
    ensures
        keys_sign(a, b) == -keys_sign(b, a),
        -1 <= keys_sign(a, b) <= 1,
        (keys_sign(a, b) == 0) == (a == b),
    decreases a.len(),
{
    if a.len() > 0 && b.len() > 0 {
        lemma_lex_sign_basics(a[0], b[0]);
        lemma_keys_sign_basics(a.drop_first(), b.drop_first());
        if a[0] == b[0] && a.drop_first() == b.drop_first() {
            assert(a =~= seq![a[0]] + a.drop_first());
            assert(b =~= seq![b[0]] + b.drop_first());
        }
    }
    if a.len() == 0 && b.len() == 0 {
        assert(a =~= b);
    }
}

proof fn lemma_keys_sign_transitive(a: Seq<Seq<char>>, b: Seq<Seq<char>>, c: Seq<Seq<char>>)
    requires
        keys_sign(a, b) < 0,
        keys_sign(b, c) < 0,
    ensures
        keys_sign(a, c) < 0,
    decreases a.len(),
{
    if a.len() > 0 && b.len() > 0 && c.len() > 0 {
        lemma_lex_sign_basics(a[0], b[0]);
        lemma_lex_sign_basics(b[0], c[0]);
        lemma_lex_sign_basics(a[0], c[0]);
        if lex_sign(a[0], b[0]) < 0 && lex_sign(b[0], c[0]) < 0 {
            lemma_lex_sign_transitive(a[0], b[0], c[0]);
        }
        if lex_sign(a[0], b[0]) == 0 && lex_sign(b[0], c[0]) == 0 {
            lemma_keys_sign_transitive(a.drop_first(), b.drop_first(), c.drop_first());
        }
    }
}

proof fn lemma_key_position(gs: Seq<GroupModel>, k: Seq<Seq<char>>, from: int)
    requires
        0 <= from <= gs.len(),
    ensures
        from <= key_position(gs, k, from) <= gs.len(),
        forall|i: int| from <= i < key_position(gs, k, from) ==> keys_sign(#[trigger] gs[i].0, k) < 0,
        key_position(gs, k, from) < gs.len() ==> keys_sign(gs[key_position(gs, k, from)].0, k) >= 0,
    decreases gs.len() - from,
{
    if from < gs.len() && keys_sign(gs[from].0, k) < 0 {
        lemma_key_position(gs, k, from + 1);
    }
}

/// The number of the first `n` rows whose GROUP BY key is `k`.
pub open spec fn key_count(rows: Seq<RowModel>, gb: Seq<Expr>, k: Seq<Seq<char>>, n: int) -> int
    decreases n,
{
    if n <= 0 {
        0
    } else {
        key_count(rows, gb, k, n - 1) + if group_key(gb, rows[n - 1]) == k {
            1int
        } else {
            0int
        }
    }
}

/// A group `x` of the first `n` rows: its row is the first of its key, and
/// it counts the rows of its key.
#[verifier::opaque]
pub open spec fn group_ok(rows: Seq<RowModel>, gb: Seq<Expr>, x: GroupModel, n: int) -> bool {
    &&& 0 <= x.1 < n
    &&& group_key(gb, rows[x.1]) == x.0
    &&& forall|r: int| 0 <= r < x.1 ==> group_key(gb, #[trigger] rows[r]) != x.0
    &&& x.2 == key_count(rows, gb, x.0, n)
}

/// The keys of the groups ascend strictly.
#[verifier::opaque]
pub open spec fn keys_ascending(gs: Seq<GroupModel>) -> bool {
    forall|i: int, j: int| 0 <= i < j < gs.len() ==> keys_sign(#[trigger] gs[i].0, #[trigger] gs[j].0) < 0
}

/// Every one of the first `n` rows has the key of some group.
#[verifier::opaque]
pub open spec fn keys_covered(rows: Seq<RowModel>, gb: Seq<Expr>, gs: Seq<GroupModel>, n: int) -> bool {
    forall|r: int| 0 <= r < n ==> exists|g: int| 0 <= g < gs.len() && (#[trigger] gs[g]).0 == group_key(gb, #[trigger] rows[r])
}

/// `gs` groups the first `n` rows: one group per key that occurs, in
/// strictly ascending key order, each with the first row of its key and the
/// number of rows of its key.
pub open spec fn groups_of_rows(rows: Seq<RowModel>, gb: Seq<Expr>, gs: Seq<GroupModel>, n: int) -> bool {
    &&& keys_ascending(gs)
    &&& forall|g: int| 0 <= g < gs.len() ==> group_ok(rows, gb, #[trigger] gs[g], n)
    &&& keys_covered(rows, gb, gs, n)
}

proof fn lemma_key_count_zero(rows: Seq<RowModel>, gb: Seq<Expr>, k: Seq<Seq<char>>, m: int)
    requires
        0 <= m <= rows.len(),
        forall|r: int| 0 <= r < m ==> group_key(gb, #[trigger] rows[r]) != k,
    ensures
        key_count(rows, gb, k, m) == 0,
    decreases m,
{
    if m > 0 {
        lemma_key_count_zero(rows, gb, k, m - 1);
    }
}

/// A group of another key stays a group when a row is added.
proof fn lemma_group_ok_other(rows: Seq<RowModel>, gb: Seq<Expr>, x: GroupModel, n: int)
    requires
        0 < n <= rows.len(),
        group_ok(rows, gb, x, n - 1),
        x.0 != group_key(gb, rows[n - 1]),
    ensures
        group_ok(rows, gb, x, n),
{
    reveal(group_ok);
}

/// The group of the added row's key counts it.
proof fn lemma_group_ok_counted(rows: Seq<RowModel>, gb: Seq<Expr>, x: GroupModel, n: int)
    requires
        0 < n <= rows.len(),
        group_ok(rows, gb, x, n - 1),
        x.0 == group_key(gb, rows[n - 1]),
    ensures
        group_ok(rows, gb, (x.0, x.1, x.2 + 1), n),
{
    reveal(group_ok);
}

/// Distinct positions hold distinct keys.
proof fn lemma_keys_distinct(gs: Seq<GroupModel>, i: int, j: int)
    requires
        keys_ascending(gs),
        0 <= i < gs.len(),
        0 <= j < gs.len(),
        i != j,
    ensures
        gs[i].0 != gs[j].0,
{
    reveal(keys_ascending);
    if i < j {
        assert(keys_sign(gs[i].0, gs[j].0) < 0);
        lemma_keys_sign_basics(gs[i].0, gs[j].0);
    } else {
        assert(keys_sign(gs[j].0, gs[i].0) < 0);
        lemma_keys_sign_basics(gs[j].0, gs[i].0);
    }
}

/// A row whose key has a group is counted in it.
proof fn lemma_step_update(rows: Seq<RowModel>, gb: Seq<Expr>, gs: Seq<GroupModel>, n: int, p: int)
    requires
        0 < n <= rows.len(),
        groups_of_rows(rows, gb, gs, n - 1),
        0 <= p < gs.len(),
        gs[p].0 == group_key(gb, rows[n - 1]),
    ensures
        groups_of_rows(rows, gb, gs.update(p, (gs[p].0, gs[p].1, gs[p].2 + 1)), n),
{
    let out = gs.update(p, (gs[p].0, gs[p].1, gs[p].2 + 1));
    assert(keys_ascending(out)) by {
        reveal(keys_ascending);
        assert forall|i: int, j: int| 0 <= i < j < out.len() implies keys_sign(#[trigger] out[i].0, #[trigger] out[j].0) < 0 by {
            assert(keys_sign(gs[i].0, gs[j].0) < 0);
        }
    }
    assert forall|g: int| 0 <= g < out.len() implies group_ok(rows, gb, #[trigger] out[g], n) by {
        assert(group_ok(rows, gb, gs[g], n - 1));
        if g != p {
            lemma_keys_distinct(gs, g, p);
            lemma_group_ok_other(rows, gb, gs[g], n);
        } else {
            lemma_group_ok_counted(rows, gb, gs[g], n);
        }
    }
    assert(keys_covered(rows, gb, out, n)) by {
        reveal(keys_covered);
        assert forall|r: int| 0 <= r < n implies exists|g: int| 0 <= g < out.len() && (#[trigger] out[g]).0 == group_key(gb, #[trigger] rows[r]) by {
            if r < n - 1 {
                let g = choose|g: int| 0 <= g < gs.len() && (#[trigger] gs[g]).0 == group_key(gb, #[trigger] rows[r]);
                assert(out[g].0 == gs[g].0);
            } else {
                assert(out[p].0 == group_key(gb, rows[r]));
            }
        }
    }
}

/// The keys stay ascending when `k` goes in at its place.
proof fn lemma_ascending_insert(gs: Seq<GroupModel>, p: int, x: GroupModel)
    requires
        keys_ascending(gs),
        0 <= p <= gs.len(),
        forall|i: int| 0 <= i < p ==> keys_sign(#[trigger] gs[i].0, x.0) < 0,
        forall|j: int| p <= j < gs.len() ==> keys_sign(x.0, #[trigger] gs[j].0) < 0,
    ensures
        keys_ascending(gs.insert(p, x)),
{
    reveal(keys_ascending);
    let out = gs.insert(p, x);
    gs.insert_ensures(p, x);
    assert forall|i: int, j: int| 0 <= i < j < out.len() implies keys_sign(#[trigger] out[i].0, #[trigger] out[j].0) < 0 by {
        if j < p {
            assert(keys_sign(gs[i].0, gs[j].0) < 0);
        } else if j == p {
        } else if i < p {
            assert(out[j] == gs[j - 1]);
            lemma_keys_sign_transitive(gs[i].0, x.0, gs[j - 1].0);
        } else if i == p {
            assert(out[j] == gs[j - 1]);
        } else {
            assert(out[i] == gs[i - 1]);
            assert(out[j] == gs[j - 1]);
            assert(keys_sign(gs[i - 1].0, gs[j - 1].0) < 0);
        }
    }
}

/// A row whose key has no group starts one at its key's place.
proof fn lemma_step_insert(rows: Seq<RowModel>, gb: Seq<Expr>, gs: Seq<GroupModel>, n: int, p: int)
    requires
        0 < n <= rows.len(),
        groups_of_rows(rows, gb, gs, n - 1),
        0 <= p <= gs.len(),
        forall|i: int| 0 <= i < p ==> keys_sign(#[trigger] gs[i].0, group_key(gb, rows[n - 1])) < 0,
        p < gs.len() ==> keys_sign(gs[p].0, group_key(gb, rows[n - 1])) > 0,
    ensures
        groups_of_rows(rows, gb, gs.insert(p, (group_key(gb, rows[n - 1]), n - 1, 1int)), n),
{
    let k = group_key(gb, rows[n - 1]);
    let x: GroupModel = (k, n - 1, 1int);
    let out = gs.insert(p, x);
    gs.insert_ensures(p, x);
    assert forall|j: int| p <= j < gs.len() implies keys_sign(k, #[trigger] gs[j].0) < 0 by {
        lemma_keys_sign_basics(gs[p].0, k);
        if j > p {
            assert(keys_sign(gs[p].0, gs[j].0) < 0) by {
                reveal(keys_ascending);
            }
            lemma_keys_sign_transitive(k, gs[p].0, gs[j].0);
        }
    }
    assert forall|g: int| 0 <= g < gs.len() implies #[trigger] gs[g].0 != k by {
        if g < p {
            lemma_keys_sign_basics(gs[g].0, k);
        } else {
            lemma_keys_sign_basics(k, gs[g].0);
        }
    }
    assert forall|r: int| 0 <= r < n - 1 implies group_key(gb, #[trigger] rows[r]) != k by {
        reveal(keys_covered);
        let g = choose|g: int| 0 <= g < gs.len() && (#[trigger] gs[g]).0 == group_key(gb, #[trigger] rows[r]);
    }
    lemma_key_count_zero(rows, gb, k, n - 1);
    assert(group_ok(rows, gb, x, n)) by {
        reveal(group_ok);
    }
    lemma_ascending_insert(gs, p, x);
    assert forall|g: int| 0 <= g < out.len() implies group_ok(rows, gb, #[trigger] out[g], n) by {
        if g < p {
            assert(group_ok(rows, gb, gs[g], n - 1));
            lemma_group_ok_other(rows, gb, gs[g], n);
        } else if g > p {
            assert(out[g] == gs[g - 1]);
            assert(group_ok(rows, gb, gs[g - 1], n - 1));
            lemma_group_ok_other(rows, gb, gs[g - 1], n);
        }
    }
    assert(keys_covered(rows, gb, out, n)) by {
        reveal(keys_covered);
        assert forall|r: int| 0 <= r < n implies exists|g: int| 0 <= g < out.len() && (#[trigger] out[g]).0 == group_key(gb, #[trigger] rows[r]) by {
            if r < n - 1 {
                let g = choose|g: int| 0 <= g < gs.len() && (#[trigger] gs[g]).0 == group_key(gb, #[trigger] rows[r]);
                if g < p {
                    assert(out[g].0 == gs[g].0);
                } else {
                    assert(out[g + 1].0 == gs[g].0);
                }
            } else {
                assert(out[p].0 == group_key(gb, rows[r]));
            }
        }
    }
}

proof fn lemma_groups_of_rows(rows: Seq<RowModel>, gb: Seq<Expr>, n: int)
    requires
        0 <= n <= rows.len(),
    ensures
        groups_of_rows(rows, gb, groups_upto(rows, gb, n), n),
    decreases n,
{
    if n > 0 {
        lemma_groups_of_rows(rows, gb, n - 1);
        let gs = groups_upto(rows, gb, n - 1);
        let k = group_key(gb, rows[n - 1]);
        lemma_key_position(gs, k, 0);
        let p = key_position(gs, k, 0);
        if 0 <= p < gs.len() && keys_sign(gs[p].0, k) == 0 {
            lemma_keys_sign_basics(gs[p].0, k);
            lemma_step_update(rows, gb, gs, n, p);
        } else {
            lemma_step_insert(rows, gb, gs, n, p);
        }
        assert(groups_upto(rows, gb, n) == add_to_groups(gs, k, n - 1));
    } else {
        reveal(keys_ascending);
        reveal(keys_covered);
    }
}

/// Law: GROUP BY makes one group per key that occurs among the rows, in
/// ascending key order; each holds the first row of its key (whose columns
/// the result row shows) and counts the rows of its key.
pub proof fn law_groups_are_the_keys(rows: Seq<RowModel>, gb: Seq<Expr>)
    ensures
        groups_of_rows(rows, gb, spec_groups(rows, gb), rows.len() as int),
{
    lemma_groups_of_rows(rows, gb, rows.len() as int);
}

/// Law: a GROUP BY key has one part per GROUP BY expression, each the key
/// part of that expression on the row; so two rows share a key exactly
/// when they agree on every grouped expression.
pub proof fn law_group_key_parts(gb: Seq<Expr>, r1: RowModel, r2: RowModel)
    ensures
        group_key(gb, r1).len() == gb.len(),
        forall|i: int| 0 <= i < gb.len() ==> #[trigger] group_key(gb, r1)[i] == key_part(gb[i], r1),
        group_key(gb, r1) == group_key(gb, r2) <==> forall|i: int| 0 <= i < gb.len() ==> #[trigger] key_part(gb[i], r1)
            == key_part(gb[i], r2),
{
    assert(group_key(gb, r2).len() == gb.len());
    if forall|i: int| 0 <= i < gb.len() ==> #[trigger] key_part(gb[i], r1) == key_part(gb[i], r2) {
        assert(group_key(gb, r1) =~= group_key(gb, r2));
    }
    if group_key(gb, r1) == group_key(gb, r2) {
        assert forall|i: int| 0 <= i < gb.len() implies #[trigger] key_part(gb[i], r1) == key_part(gb[i], r2) by {
            assert(group_key(gb, r1)[i] == group_key(gb, r2)[i]);
        }
    }
}

} // verus!
