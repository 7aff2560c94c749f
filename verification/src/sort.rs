//! ORDER BY: a stable sort of rows by a list of keys.
use vstd::prelude::*;
use crate::ast::{Expr, OrderBy, OrderDir};
use crate::row::{get_or_null, Row, RowModel};
use crate::value::{compare_sign, compare_values, copy_value, Value, ValueModel};
use crate::text::{lemma_lex_sign_basics, lemma_lex_sign_transitive, lex_sign};
use crate::float::float_is_nan;

verus! {

/// The models of a sequence of rows.
pub open spec fn row_models(rows: Seq<Row>) -> Seq<RowModel> {
    rows.map_values(|r: Row| r@)
}

/// What an ORDER BY key is on a row: a column's value (null when missing), a
/// literal, or null for any other expression.
pub open spec fn resolve_key(e: Expr, row: RowModel) -> ValueModel {
    match e {
        Expr::Column(name) => get_or_null(row, name@),
        Expr::Literal(v) => v@,
        _ => ValueModel::Null,
    }
}

/// How one key orders two rows: the values' ordering (incomparable values
/// count as equal), reversed for a descending key; a sign -1, 0 or 1.
pub open spec fn key_sign(ob: OrderBy, a: RowModel, b: RowModel) -> int {
    let s = match compare_sign(resolve_key(ob.expr, a), resolve_key(ob.expr, b)) {
        Some(s) => s,
        None => 0,
    };
    if ob.dir == OrderDir::Desc {
        -s
    } else {
        s
    }
}

/// How the keys order two rows: the first key that tells them apart decides.
pub open spec fn row_order(obs: Seq<OrderBy>, a: RowModel, b: RowModel) -> int
    decreases obs.len(),
{
    if obs.len() == 0 {
        0
    } else {
        let s = key_sign(obs[0], a, b);
        if s != 0 {
            s
        } else {
            row_order(obs.drop_first(), a, b)
        }
    }
}

/// Whether `p` is a permutation of `0..n`.
pub open spec fn is_permutation(p: Seq<int>, n: int) -> bool {
    &&& p.len() == n
    &&& forall|k: int| 0 <= k < n ==> 0 <= #[trigger] p[k] < n
    &&& forall|k: int, l: int| 0 <= k < l < n ==> #[trigger] p[k] != #[trigger] p[l]
}

/// Whether the keys order the rows `rows` as a total preorder: antisymmetric
/// and transitive on them. (With values of one comparable kind per key this
/// holds; across kinds, or with NaN, it may not.)
pub open spec fn total_preorder_on(obs: Seq<OrderBy>, rows: Seq<RowModel>) -> bool {
    &&& forall|i: int, j: int|
        0 <= i < rows.len() && 0 <= j < rows.len() ==> row_order(obs, #[trigger] rows[i], #[trigger] rows[j])
            == -row_order(obs, rows[j], rows[i])
    &&& forall|i: int, j: int, k: int|
        0 <= i < rows.len() && 0 <= j < rows.len() && 0 <= k < rows.len() && row_order(
            obs,
            #[trigger] rows[i],
            #[trigger] rows[j],
        ) <= 0 && row_order(obs, rows[j], #[trigger] rows[k]) <= 0 ==> row_order(obs, rows[i], rows[k]) <= 0
}

/// `out` is `input` rearranged by `p`, in key order, equal rows in their
/// order of the input.
pub open spec fn stably_sorted(obs: Seq<OrderBy>, input: Seq<RowModel>, out: Seq<RowModel>, p: Seq<int>) -> bool {
    forall|k: int, l: int|
        0 <= k < l < out.len() ==> row_order(obs, #[trigger] out[k], #[trigger] out[l]) <= 0 && (row_order(
            obs,
            out[k],
            out[l],
        ) == 0 ==> p[k] < p[l])
}

/// Moving the row at `i` back to `j` keeps the rows a rearrangement of the
/// input and, under a total preorder, extends the sorted prefix by one.
proof fn lemma_insert_step(
    obs: Seq<OrderBy>,
    input: Seq<RowModel>,
    before: Seq<RowModel>,
    after: Seq<RowModel>,
    pb: Seq<int>,
    n: int,
    i: int,
    j: int,
)
    requires
        0 <= j <= i < n,
        input.len() == n,
        before.len() == n,
        after == before.remove(i).insert(j, before[i]),
        is_permutation(pb, n),
        forall|k: int| 0 <= k < n ==> #[trigger] before[k] == input[pb[k]],
        forall|k: int| 0 <= k < i ==> #[trigger] pb[k] < i,
        forall|k: int| i <= k < n ==> #[trigger] pb[k] == k,
        forall|m: int| j <= m < i ==> row_order(obs, #[trigger] before[m], before[i]) > 0,
        j > 0 ==> row_order(obs, before[j - 1], before[i]) <= 0,
        total_preorder_on(obs, input) ==> stably_sorted(obs, input, before.take(i), pb),
    ensures
        ({
            let p = pb.remove(i).insert(j, pb[i]);
            &&& is_permutation(p, n)
            &&& forall|k: int| 0 <= k < n ==> #[trigger] after[k] == input[p[k]]
            &&& forall|k: int| 0 <= k < i + 1 ==> #[trigger] p[k] < i + 1
            &&& forall|k: int| i + 1 <= k < n ==> #[trigger] p[k] == k
            &&& total_preorder_on(obs, input) ==> stably_sorted(obs, input, after.take(i + 1), p)
        }),
{
    let p = pb.remove(i).insert(j, pb[i]);
    assert forall|k: int| #![trigger p[k]] 0 <= k < n implies p[k] == pb[moved_from(k, i, j)] && after[k] == before[moved_from(k, i, j)] by {}
    assert forall|k: int, l: int| 0 <= k < l < n implies #[trigger] p[k] != #[trigger] p[l] by {
        assert(p[k] == pb[moved_from(k, i, j)]);
        assert(p[l] == pb[moved_from(l, i, j)]);
    }
    assert forall|k: int| 0 <= k < n implies #[trigger] after[k] == input[p[k]] by {
        assert(p[k] == pb[moved_from(k, i, j)]);
    }
    assert forall|k: int| 0 <= k < i + 1 implies #[trigger] p[k] < i + 1 by {
        assert(p[k] == pb[moved_from(k, i, j)]);
    }
    assert forall|k: int| i + 1 <= k < n implies #[trigger] p[k] == k by {
        assert(p[k] == pb[moved_from(k, i, j)]);
    }
    if total_preorder_on(obs, input) {
        lemma_insert_sorted(obs, input, before, after, pb, p, n, i, j);
    }
}

/// Where the row now at `k` stood before the row at `i` moved back to `j`.
pub open spec fn moved_from(k: int, i: int, j: int) -> int {
    if k < j {
        k
    } else if k == j {
        i
    } else if k <= i {
        k - 1
    } else {
        k
    }
}

proof fn lemma_moved_at(
    p: Seq<int>,
    pb: Seq<int>,
    after: Seq<RowModel>,
    before: Seq<RowModel>,
    n: int,
    i: int,
    j: int,
    k: int,
)
    requires
        0 <= k < n,
        forall|k: int| #![trigger p[k]] 0 <= k < n ==> p[k] == pb[moved_from(k, i, j)] && after[k] == before[moved_from(k, i, j)],
    ensures
        p[k] == pb[moved_from(k, i, j)],
        after[k] == before[moved_from(k, i, j)],
{
    assert(p[k] == pb[moved_from(k, i, j)]);
}

proof fn lemma_insert_sorted(
    obs: Seq<OrderBy>,
    input: Seq<RowModel>,
    before: Seq<RowModel>,
    after: Seq<RowModel>,
    pb: Seq<int>,
    p: Seq<int>,
    n: int,
    i: int,
    j: int,
)
    requires
        0 <= j <= i < n,
        input.len() == n,
        before.len() == n,
        after.len() == n,
        p.len() == n,
        pb.len() == n,
        forall|k: int| #![trigger p[k]] 0 <= k < n ==> p[k] == pb[moved_from(k, i, j)] && after[k] == before[moved_from(k, i, j)],
        forall|k: int| 0 <= k < n ==> 0 <= #[trigger] pb[k] < n,
        forall|k: int| 0 <= k < n ==> #[trigger] before[k] == input[pb[k]],
        forall|k: int| 0 <= k < i ==> #[trigger] pb[k] < i,
        pb[i] == i,
        forall|m: int| j <= m < i ==> row_order(obs, #[trigger] before[m], before[i]) > 0,
        j > 0 ==> row_order(obs, before[j - 1], before[i]) <= 0,
        total_preorder_on(obs, input),
        stably_sorted(obs, input, before.take(i), pb),
    ensures
        stably_sorted(obs, input, after.take(i + 1), p),
{
    let out = after.take(i + 1);
    let prev = before.take(i);
    assert forall|k: int, l: int| 0 <= k < l < out.len() implies row_order(
        obs,
        #[trigger] out[k],
        #[trigger] out[l],
    ) <= 0 && (row_order(obs, out[k], out[l]) == 0 ==> p[k] < p[l]) by {
        let kk = moved_from(k, i, j);
        let ll = moved_from(l, i, j);
        assert(out.len() == i + 1);
        assert(0 <= k < n && 0 <= l < n);
        assert(out[k] == after[k]);
        assert(out[l] == after[l]);
        lemma_moved_at(p, pb, after, before, n, i, j, k);
        lemma_moved_at(p, pb, after, before, n, i, j, l);
        assert(out[k] == before[kk] && p[k] == pb[kk]);
        assert(out[l] == before[ll] && p[l] == pb[ll]);
        if k != j && l != j {
            assert(kk < ll < i);
            assert(prev[kk] == before[kk] && prev[ll] == before[ll]);
        } else if k == j {
            assert(j <= ll < i);
            assert(row_order(obs, before[ll], before[i]) > 0);
            assert(row_order(obs, input[pb[ll]], input[pb[i]]) == -row_order(obs, input[pb[i]], input[pb[ll]]));
        } else {
            assert(kk < j);
            let t = j - 1;
            assert(prev[kk] == before[kk] && prev[t] == before[t]);
            if kk < t {
                assert(row_order(obs, prev[kk], prev[t]) <= 0);
                assert(row_order(obs, input[pb[kk]], input[pb[t]]) <= 0);
            }
            assert(row_order(obs, input[pb[t]], input[pb[i]]) <= 0);
            assert(row_order(obs, input[pb[kk]], input[pb[i]]) <= 0);
            assert(pb[kk] < i);
        }
    }
}

/// Whether `out` is what the sort makes of `input`: a rearrangement of it,
/// which, when the keys order the rows as a total preorder, is in key order
/// with equal rows in their input order.
pub open spec fn sorted_from(obs: Seq<OrderBy>, input: Seq<RowModel>, out: Seq<RowModel>) -> bool {
    &&& out.len() == input.len()
    &&& exists|p: Seq<int>|
        #![trigger is_permutation(p, input.len() as int)]
        is_permutation(p, input.len() as int) && (forall|k: int|
            0 <= k < p.len() ==> #[trigger] out[k] == input[p[k]]) && (total_preorder_on(obs, input)
            ==> stably_sorted(obs, input, out, p))
}

/// The value of an ORDER BY key on a row.
fn resolve_expr(expr: &Expr, row: &Row) -> (r: Value)
    ensures
        r@ == resolve_key(*expr, row@),
{
    match expr {
        Expr::Column(name) => row.get_or_null(name.as_str()),
        Expr::Literal(val) => copy_value(val),
        _ => Value::Null,
    }
}

/// How the keys order two rows (see `row_order`).
pub fn compare_rows(order_by: &Vec<OrderBy>, a: &Row, b: &Row) -> (r: i8)
    ensures
        r == row_order(order_by@, a@, b@),
{
    let mut i: usize = 0;
    assert(order_by@.skip(0) =~= order_by@);
    while i < order_by.len()
        invariant
            i <= order_by.len(),
            row_order(order_by@, a@, b@) == row_order(order_by@.skip(i as int), a@, b@),
        decreases order_by.len() - i,
    {
        let ob = &order_by[i];
        let a_val = resolve_expr(&ob.expr, a);
        let b_val = resolve_expr(&ob.expr, b);
        let c: i8 = match compare_values(&a_val, &b_val) {
            Some(s) => s,
            None => 0,
        };
        let c = match ob.dir {
            OrderDir::Asc => c,
            OrderDir::Desc => -c,
        };
        assert(order_by@.skip(i as int)[0] == order_by@[i as int]);
        assert(order_by@.skip(i as int).drop_first() =~= order_by@.skip(i + 1));
        if c != 0 {
            return c;
        }
        i = i + 1;
    }
    0
}

/// Sort rows by the ORDER BY clauses: a stable insertion sort. The result is
/// always a rearrangement of the rows; when the keys order the rows as a
/// total preorder it is sorted, equal rows keeping their order.
pub fn sort_rows(rows: &mut Vec<Row>, order_by: &Vec<OrderBy>)
    ensures
        sorted_from(order_by@, row_models(old(rows)@), row_models(final(rows)@)),
{
    let ghost input = row_models(rows@);
    let ghost n = rows@.len() as int;
    let ghost mut p: Seq<int> = Seq::new(n as nat, |k: int| k);
    let len = rows.len();
    let mut i: usize = 0;
    while i < len
        invariant
            len == n == rows@.len(),
            input.len() == n,
            i <= len,
            is_permutation(p, n),
            forall|k: int| 0 <= k < n ==> #[trigger] row_models(rows@)[k] == input[p[k]],
            forall|k: int| 0 <= k < i ==> #[trigger] p[k] < i,
            forall|k: int| i <= k < n ==> #[trigger] p[k] == k,
            total_preorder_on(order_by@, input) ==> stably_sorted(
                order_by@,
                input,
                row_models(rows@).take(i as int),
                p,
            ),
        decreases len - i,
    {
        let mut j = i;
        while j > 0 && compare_rows(order_by, &rows[j - 1], &rows[i]) > 0
            invariant
                j <= i < len == rows@.len(),
                forall|m: int| j <= m < i ==> row_order(order_by@, #[trigger] row_models(rows@)[m], row_models(rows@)[i as int]) > 0,
            decreases j,
        {
            j = j - 1;
        }
        let ghost before = row_models(rows@);
        let ghost pb = p;
        proof {
            if j > 0 {
                assert(row_order(order_by@, before[j - 1], before[i as int]) <= 0);
            }
        }
        let x = rows.remove(i);
        rows.insert(j, x);
        proof {
            assert(row_models(rows@) =~= before.remove(i as int).insert(j as int, before[i as int]));
            p = pb.remove(i as int).insert(j as int, pb[i as int]);
            lemma_insert_step(order_by@, input, before, row_models(rows@), pb, n, i as int, j as int);
        }
        i = i + 1;
    }
    proof {
        assert(row_models(rows@).take(n) =~= row_models(rows@));
        assert(is_permutation(p, input.len() as int));
    }
}

/// Two values of one comparable kind: both integers, both doubles other
/// than NaN, both strings, dates, date-times or booleans.
pub open spec fn same_kind(x: ValueModel, y: ValueModel) -> bool {
    match (x, y) {
        (ValueModel::Int(_), ValueModel::Int(_)) => true,
        (ValueModel::Float(a, _), ValueModel::Float(b, _)) => !float_is_nan(a) && !float_is_nan(b),
        (ValueModel::Str(_), ValueModel::Str(_)) => true,
        (ValueModel::Date(_), ValueModel::Date(_)) => true,
        (ValueModel::DateTime(_, _, _), ValueModel::DateTime(_, _, _)) => true,
        (ValueModel::Bool(_), ValueModel::Bool(_)) => true,
        _ => false,
    }
}

/// Each key gives all the rows values of one comparable kind.
pub open spec fn one_kind_per_key(obs: Seq<OrderBy>, rows: Seq<RowModel>) -> bool {
    forall|o: int, i: int, j: int|
        0 <= o < obs.len() && 0 <= i < rows.len() && 0 <= j < rows.len() ==> #[trigger] same_kind(
            resolve_key(obs[o].expr, rows[i]),
            resolve_key(obs[o].expr, rows[j]),
        )
}

/// Values of one kind compare, antisymmetrically and transitively.
proof fn lemma_compare_kind(x: ValueModel, y: ValueModel, z: ValueModel)
    requires
        same_kind(x, y),
        same_kind(y, z),
    ensures
        compare_sign(x, y) is Some,
        compare_sign(x, y) == Some(-compare_sign(y, x).unwrap()),
        compare_sign(x, y).unwrap() <= 0 && compare_sign(y, z).unwrap() <= 0 ==> compare_sign(x, z).unwrap() <= 0,
{
    if let (ValueModel::Str(a), ValueModel::Str(b), ValueModel::Str(c)) = (x, y, z) {
        lemma_lex_sign_basics(a, b);
        lemma_lex_sign_basics(b, c);
        lemma_lex_sign_basics(a, c);
        if lex_sign(a, b) < 0 && lex_sign(b, c) < 0 {
            lemma_lex_sign_transitive(a, b, c);
        }
    }
}

/// One key orders rows of one kind as a total preorder.
proof fn lemma_key_sign_kind(ob: OrderBy, a: RowModel, b: RowModel, c: RowModel)
    requires
        same_kind(resolve_key(ob.expr, a), resolve_key(ob.expr, b)),
        same_kind(resolve_key(ob.expr, b), resolve_key(ob.expr, c)),
        same_kind(resolve_key(ob.expr, a), resolve_key(ob.expr, c)),
    ensures
        key_sign(ob, a, b) == -key_sign(ob, b, a),
        key_sign(ob, a, b) <= 0 && key_sign(ob, b, c) <= 0 ==> key_sign(ob, a, c) <= 0,
{
    let (x, y, z) = (resolve_key(ob.expr, a), resolve_key(ob.expr, b), resolve_key(ob.expr, c));
    lemma_compare_kind(x, y, z);
    lemma_compare_kind(z, y, x);
    lemma_compare_kind(y, z, x);
    lemma_compare_kind(x, z, y);
    lemma_compare_kind(y, x, z);
}

proof fn lemma_row_order_kind(obs: Seq<OrderBy>, a: RowModel, b: RowModel, c: RowModel)
    requires
        forall|o: int| 0 <= o < obs.len() ==> {
            &&& same_kind(resolve_key((#[trigger] obs[o]).expr, a), resolve_key(obs[o].expr, b))
            &&& same_kind(resolve_key(obs[o].expr, b), resolve_key(obs[o].expr, c))
            &&& same_kind(resolve_key(obs[o].expr, a), resolve_key(obs[o].expr, c))
        },
    ensures
        row_order(obs, a, b) == -row_order(obs, b, a),
        row_order(obs, a, b) <= 0 && row_order(obs, b, c) <= 0 ==> row_order(obs, a, c) <= 0,
    decreases obs.len(),
{
    if obs.len() > 0 {
        let ob = obs[0];
        assert(same_kind(resolve_key(ob.expr, a), resolve_key(ob.expr, b)));
        assert(same_kind(resolve_key(ob.expr, b), resolve_key(ob.expr, c)));
        assert(same_kind(resolve_key(ob.expr, a), resolve_key(ob.expr, c)));
        lemma_key_sign_kind(ob, a, b, c);
        lemma_key_sign_kind(ob, c, b, a);
        lemma_key_sign_kind(ob, b, c, a);
        lemma_key_sign_kind(ob, c, a, b);
        let rest = obs.drop_first();
        assert forall|o: int| 0 <= o < rest.len() implies {
            &&& same_kind(resolve_key((#[trigger] rest[o]).expr, a), resolve_key(rest[o].expr, b))
            &&& same_kind(resolve_key(rest[o].expr, b), resolve_key(rest[o].expr, c))
            &&& same_kind(resolve_key(rest[o].expr, a), resolve_key(rest[o].expr, c))
        } by {
            assert(rest[o] == obs[o + 1]);
        }
        lemma_row_order_kind(rest, a, b, c);
    }
}

/// Law: where every key gives the rows values of one comparable kind, the
/// keys order the rows as a total preorder, so that the sort is stable and
/// sorted (see `sorted_from`).
pub proof fn law_one_kind_total_preorder(obs: Seq<OrderBy>, rows: Seq<RowModel>)
    requires
        one_kind_per_key(obs, rows),
    ensures
        total_preorder_on(obs, rows),
{
    assert forall|i: int, j: int, k: int|
        0 <= i < rows.len() && 0 <= j < rows.len() && 0 <= k < rows.len() implies row_order(obs, rows[i], rows[j])
        == -row_order(obs, rows[j], rows[i]) && (row_order(obs, rows[i], rows[j]) <= 0 && row_order(
        obs,
        rows[j],
        rows[k],
    ) <= 0 ==> row_order(obs, rows[i], rows[k]) <= 0) by {
        assert forall|o: int| 0 <= o < obs.len() implies {
            &&& same_kind(resolve_key((#[trigger] obs[o]).expr, rows[i]), resolve_key(obs[o].expr, rows[j]))
            &&& same_kind(resolve_key(obs[o].expr, rows[j]), resolve_key(obs[o].expr, rows[k]))
            &&& same_kind(resolve_key(obs[o].expr, rows[i]), resolve_key(obs[o].expr, rows[k]))
        } by {
            assert(same_kind(resolve_key(obs[o].expr, rows[i]), resolve_key(obs[o].expr, rows[j])));
            assert(same_kind(resolve_key(obs[o].expr, rows[j]), resolve_key(obs[o].expr, rows[k])));
            assert(same_kind(resolve_key(obs[o].expr, rows[i]), resolve_key(obs[o].expr, rows[k])));
        }
        lemma_row_order_kind(obs, rows[i], rows[j], rows[k]);
    }
}

/// Law: the keys order rows lexicographically. The first key that tells
/// two rows apart decides, with its own sign; where the first key ties, the
/// remaining keys decide; and rows tie only when every key ties.
pub proof fn law_row_order_lexicographic(obs: Seq<OrderBy>, a: RowModel, b: RowModel)
    ensures
        row_order(obs, a, b) == 0 <==> forall|i: int| 0 <= i < obs.len() ==> #[trigger] key_sign(obs[i], a, b) == 0,
        row_order(obs, a, b) != 0 ==> exists|i: int|
            0 <= i < obs.len() && #[trigger] key_sign(obs[i], a, b) == row_order(obs, a, b) && forall|j: int|
                0 <= j < i ==> #[trigger] key_sign(obs[j], a, b) == 0,
        obs.len() > 0 && key_sign(obs[0], a, b) == 0 ==> row_order(obs, a, b) == row_order(obs.drop_first(), a, b),
        obs.len() > 0 && key_sign(obs[0], a, b) != 0 ==> row_order(obs, a, b) == key_sign(obs[0], a, b),
    decreases obs.len(),
{
    if obs.len() > 0 {
        let rest = obs.drop_first();
        law_row_order_lexicographic(rest, a, b);
        assert forall|i: int| 0 <= i < rest.len() implies #[trigger] rest[i] == obs[i + 1] by {}
        if key_sign(obs[0], a, b) == 0 {
            if forall|i: int| 0 <= i < rest.len() ==> #[trigger] key_sign(rest[i], a, b) == 0 {
                assert forall|i: int| 0 <= i < obs.len() implies #[trigger] key_sign(obs[i], a, b) == 0 by {
                    if i > 0 {
                        assert(key_sign(rest[i - 1], a, b) == 0);
                    }
                }
            }
            if forall|i: int| 0 <= i < obs.len() ==> #[trigger] key_sign(obs[i], a, b) == 0 {
                assert forall|i: int| 0 <= i < rest.len() implies #[trigger] key_sign(rest[i], a, b) == 0 by {
                    assert(key_sign(obs[i + 1], a, b) == 0);
                }
            }
            if row_order(obs, a, b) != 0 {
                let i = choose|i: int|
                    0 <= i < rest.len() && #[trigger] key_sign(rest[i], a, b) == row_order(rest, a, b) && forall|j: int|
                        0 <= j < i ==> #[trigger] key_sign(rest[j], a, b) == 0;
                assert(key_sign(obs[i + 1], a, b) == row_order(obs, a, b));
                assert forall|j: int| 0 <= j < i + 1 implies #[trigger] key_sign(obs[j], a, b) == 0 by {
                    if j > 0 {
                        assert(key_sign(rest[j - 1], a, b) == 0);
                    }
                }
            }
        } else {
            assert(key_sign(obs[0], a, b) == row_order(obs, a, b));
        }
    }
}

/// Law: an ascending key orders two rows as their values for the key
/// compare (incomparable values tie), and a descending key the other way
/// round.
pub proof fn law_key_direction(e: Expr, a: RowModel, b: RowModel)
    ensures
        compare_sign(resolve_key(e, a), resolve_key(e, b)) matches Some(s) ==> key_sign(
            OrderBy { expr: e, dir: OrderDir::Asc },
            a,
            b,
        ) == s,
        compare_sign(resolve_key(e, a), resolve_key(e, b)) is None ==> key_sign(OrderBy { expr: e, dir: OrderDir::Asc }, a, b)
            == 0,
        key_sign(OrderBy { expr: e, dir: OrderDir::Desc }, a, b) == -key_sign(OrderBy { expr: e, dir: OrderDir::Asc }, a, b),
{
}

} // verus!
