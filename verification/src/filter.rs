//! Evaluation of expressions against a row.
//!
//! Evaluation is partial: date arithmetic that leaves the calendar's range
//! has no result (`None`), and the program stops on it. `NOW()` is the date
//! passed in as `today`.
use vstd::prelude::*;
use crate::ast::{BinOp, Expr};
use crate::calendar::{date_add_days, date_sub_days, day_in_range, parse_date, spec_parse_date, Date};
use crate::fuzzy::{match_text, spec_fuzzy_match, spec_match};
use crate::like::{like_match, spec_like};
use crate::row::{get_or_null, spec_get, Row, RowModel};
use crate::text::{chars_of, find_first, spec_lowercase, spec_uppercase, str_equal, to_lowercase, to_uppercase, utf8_len, utf8_prefix_len};
use crate::value::{
    law_compare_antisymmetric, law_equal_symmetric, lemma_compare_sign_range,
    compare_sign, compare_values, copy_value, spec_contains, spec_equal, spec_truthy,
    values_equal, Value, ValueModel,
};

verus! {

broadcast use vstd::std_specs::vec::axiom_vec_decreases_to_view,
    vstd::std_specs::vec::axiom_vec_index_decreases;

/// The result of a binary operator on two evaluated operands.
pub open spec fn apply_binop(op: BinOp, l: ValueModel, r: ValueModel) -> ValueModel {
    match op {
        BinOp::And => ValueModel::Bool(spec_truthy(l) && spec_truthy(r)),
        BinOp::Or => ValueModel::Bool(spec_truthy(l) || spec_truthy(r)),
        BinOp::Eq => ValueModel::Bool(spec_equal(l, r)),
        BinOp::NotEq => ValueModel::Bool(!spec_equal(l, r)),
        BinOp::Lt => ValueModel::Bool(compare_sign(l, r) == Some(-1int)),
        BinOp::LtEq => ValueModel::Bool(
            compare_sign(l, r) is Some && compare_sign(l, r) != Some(1int),
        ),
        BinOp::Gt => ValueModel::Bool(compare_sign(l, r) == Some(1int)),
        BinOp::GtEq => ValueModel::Bool(
            compare_sign(l, r) is Some && compare_sign(l, r) != Some(-1int),
        ),
    }
}

/// The value of `e` on the row `row`, or `None` where evaluation panics.
pub open spec fn spec_eval(e: Expr, row: RowModel, today: int) -> Option<ValueModel>
    decreases e,
{
    match e {
        Expr::Column(name) => Some(get_or_null(row, name@)),
        Expr::Literal(v) => Some(v@),
        Expr::BinaryOp { left, op, right } => match spec_eval(*left, row, today) {
            None => None,
            Some(l) => match spec_eval(*right, row, today) {
                None => None,
                Some(r) => Some(apply_binop(op, l, r)),
            },
        },
        Expr::Not(inner) => match spec_eval(*inner, row, today) {
            None => None,
            Some(v) => Some(ValueModel::Bool(!spec_truthy(v))),
        },
        Expr::Like { expr, pattern } => match spec_eval(*expr, row, today) {
            None => None,
            Some(v) => match spec_eval(*pattern, row, today) {
                None => None,
                Some(p) => Some(
                    ValueModel::Bool(
                        match (v, p) {
                            (ValueModel::Str(s), ValueModel::Str(q)) => spec_like(s, q),
                            _ => false,
                        },
                    ),
                ),
            },
        },
        Expr::InList { expr, list, negated } => match spec_eval(*expr, row, today) {
            None => None,
            Some(v) => match spec_in_list(list@, v, row, today) {
                None => None,
                Some(m) => Some(ValueModel::Bool(if negated { !m } else { m })),
            },
        },
        Expr::IsNull(inner) => match spec_eval(*inner, row, today) {
            None => None,
            Some(v) => Some(ValueModel::Bool(v is Null)),
        },
        Expr::Function { name, args } => spec_eval_function(name@, args@, row, today),
    }
}

/// Whether some item of `list` evaluates to a value equal to `v`, the items
/// evaluated in order until the first match.
pub open spec fn spec_in_list(list: Seq<Expr>, v: ValueModel, row: RowModel, today: int) -> Option<
    bool,
>
    decreases list,
{
    if list.len() == 0 {
        Some(false)
    } else {
        match spec_eval(list[0], row, today) {
            None => None,
            Some(x) => if spec_equal(x, v) {
                Some(true)
            } else {
                spec_in_list(list.drop_first(), v, row, today)
            },
        }
    }
}

/// `date` moved by `n` days (forward when `forward`; a negative `n` moves
/// the other way), or `None` where `chrono` cannot represent the result.
pub open spec fn shift_date(date: int, n: i64, forward: bool) -> Option<ValueModel> {
    let target = if forward {
        date + n
    } else {
        date - n
    };
    let magnitude = if n >= 0 {
        n as int
    } else {
        -n
    };
    if magnitude <= i32::MAX && day_in_range(target) {
        Some(ValueModel::Date(target))
    } else {
        None
    }
}

/// Value of a function call. Every function but `NOW` checks its number of
/// arguments first and evaluates its arguments in order.
pub open spec fn spec_eval_function(name: Seq<char>, args: Seq<Expr>, row: RowModel, today: int) -> Option<
    ValueModel,
>
    decreases args,
{
    if name == "MATCH"@ || name == "CONTAINS"@ {
        if args.len() != 2 {
            Some(ValueModel::Bool(false))
        } else {
            match spec_eval(args[0], row, today) {
                None => None,
                Some(a) => match spec_eval(args[1], row, today) {
                    None => None,
                    Some(b) => Some(
                        ValueModel::Bool(
                            if name == "MATCH"@ {
                                match (a, b) {
                                    (ValueModel::Str(t), ValueModel::Str(q)) => spec_match(t, q),
                                    _ => false,
                                }
                            } else {
                                spec_contains(a, b)
                            },
                        ),
                    ),
                },
            }
        }
    } else if name == "NOW"@ {
        Some(ValueModel::Date(today))
    } else if name == "DATE_SUB"@ || name == "DATE_ADD"@ {
        if args.len() != 2 {
            Some(ValueModel::Null)
        } else {
            match spec_eval(args[0], row, today) {
                None => None,
                Some(a) => match spec_eval(args[1], row, today) {
                    None => None,
                    Some(b) => match (a, b) {
                        (ValueModel::Date(d), ValueModel::Int(n)) => shift_date(d, n, name == "DATE_ADD"@),
                        _ => Some(ValueModel::Null),
                    },
                },
            }
        }
    } else if name == "DATE"@ || name == "LOWER"@ || name == "UPPER"@ || name == "LEN"@ {
        if args.len() != 1 {
            Some(ValueModel::Null)
        } else {
            match spec_eval(args[0], row, today) {
                None => None,
                Some(v) => Some(unary_function(name, v)),
            }
        }
    } else {
        Some(ValueModel::Null)
    }
}

/// The one-argument functions on an evaluated argument.
pub open spec fn unary_function(name: Seq<char>, v: ValueModel) -> ValueModel {
    if name == "DATE"@ {
        match v {
            ValueModel::Str(s) => match spec_parse_date(s) {
                Some(d) => ValueModel::Date(d),
                None => ValueModel::Null,
            },
            ValueModel::Date(_) => v,
            _ => ValueModel::Null,
        }
    } else if name == "LOWER"@ {
        match v {
            ValueModel::Str(s) => ValueModel::Str(spec_lowercase(s)),
            _ => v,
        }
    } else if name == "UPPER"@ {
        match v {
            ValueModel::Str(s) => ValueModel::Str(spec_uppercase(s)),
            _ => v,
        }
    } else {
        match v {
            ValueModel::Str(s) => ValueModel::Int(utf8_len(s) as i64),
            ValueModel::Array(items) => ValueModel::Int(items.len() as i64),
            _ => ValueModel::Null,
        }
    }
}

/// Whether a row passes a WHERE expression: its value is truthy.
pub open spec fn spec_passes(e: Expr, row: RowModel, today: int) -> Option<bool> {
    match spec_eval(e, row, today) {
        None => None,
        Some(v) => Some(spec_truthy(v)),
    }
}

/// Truthiness of a value: null is false, a boolean is itself, anything else
/// is true.
pub fn is_truthy(val: &Value) -> (r: bool)
    ensures
        r == spec_truthy(val@),
{
    match val {
        Value::Null => false,
        Value::Bool(b) => *b,
        _ => true,
    }
}

/// Evaluate a WHERE expression against a row, returning true if the row
/// passes; `None` where evaluation panics.
pub fn eval_expr(expr: &Expr, row: &Row, today: &Date) -> (r: Option<bool>)
    ensures
        r == spec_passes(*expr, row@, today@),
{
    match eval_to_value(expr, row, today) {
        None => None,
        Some(v) => Some(is_truthy(&v)),
    }
}

/// The value of an expression (used by projection).
pub fn eval_to_value_pub(expr: &Expr, row: &Row, today: &Date) -> (r: Option<Value>)
    ensures
        match r {
            Some(v) => spec_eval(*expr, row@, today@) == Some(v@),
            None => spec_eval(*expr, row@, today@) is None,
        },
{
    eval_to_value(expr, row, today)
}

/// The value of a function call (used by projection).
pub fn eval_function_pub(name: &str, args: &Vec<Expr>, row: &Row, today: &Date) -> (r: Option<Value>)
    ensures
        match r {
            Some(v) => spec_eval_function(name@, args@, row@, today@) == Some(v@),
            None => spec_eval_function(name@, args@, row@, today@) is None,
        },
{
    eval_function(name, args, row, today)
}

/// The boolean result of a binary operator on two values.
fn binop_value(op: BinOp, l: &Value, r: &Value) -> (v: Value)
    ensures
        v@ == apply_binop(op, l@, r@),
{
    match op {
        BinOp::And => Value::Bool(is_truthy(l) && is_truthy(r)),
        BinOp::Or => Value::Bool(is_truthy(l) || is_truthy(r)),
        BinOp::Eq => Value::Bool(values_equal(l, r)),
        BinOp::NotEq => Value::Bool(!values_equal(l, r)),
        BinOp::Lt => Value::Bool(
            match compare_values(l, r) {
                Some(s) => s == -1,
                None => false,
            },
        ),
        BinOp::LtEq => Value::Bool(
            match compare_values(l, r) {
                Some(s) => s != 1,
                None => false,
            },
        ),
        BinOp::Gt => Value::Bool(
            match compare_values(l, r) {
                Some(s) => s == 1,
                None => false,
            },
        ),
        BinOp::GtEq => Value::Bool(
            match compare_values(l, r) {
                Some(s) => s != -1,
                None => false,
            },
        ),
    }
}

fn eval_to_value(expr: &Expr, row: &Row, today: &Date) -> (r: Option<Value>)
    ensures
        match r {
            Some(v) => spec_eval(*expr, row@, today@) == Some(v@),
            None => spec_eval(*expr, row@, today@) is None,
        },
    decreases expr, 2int,
{
    match expr {
        Expr::Column(name) => Some(row.get_or_null(name.as_str())),
        Expr::Literal(val) => Some(copy_value(val)),
        Expr::BinaryOp { left, op, right } => {
            let l = match eval_to_value(left, row, today) {
                None => {
                    return None;
                },
                Some(l) => l,
            };
            let r = match eval_to_value(right, row, today) {
                None => {
                    return None;
                },
                Some(r) => r,
            };
            Some(binop_value(*op, &l, &r))
        },
        Expr::Not(inner) => match eval_to_value(inner, row, today) {
            None => None,
            Some(v) => Some(Value::Bool(!is_truthy(&v))),
        },
        Expr::Like { expr, pattern } => {
            let v = match eval_to_value(expr, row, today) {
                None => {
                    return None;
                },
                Some(v) => v,
            };
            let p = match eval_to_value(pattern, row, today) {
                None => {
                    return None;
                },
                Some(p) => p,
            };
            match (&v, &p) {
                (Value::String(s), Value::String(q)) => Some(
                    Value::Bool(like_match(s.as_str(), q.as_str())),
                ),
                _ => Some(Value::Bool(false)),
            }
        },
        Expr::InList { expr, list, negated } => {
            let v = match eval_to_value(expr, row, today) {
                None => {
                    return None;
                },
                Some(v) => v,
            };
            match eval_in_list(list, &v, row, today) {
                None => None,
                Some(m) => Some(Value::Bool(if *negated { !m } else { m })),
            }
        },
        Expr::IsNull(inner) => match eval_to_value(inner, row, today) {
            None => None,
            Some(v) => Some(
                Value::Bool(
                    match v {
                        Value::Null => true,
                        _ => false,
                    },
                ),
            ),
        },
        Expr::Function { name, args } => eval_function(name.as_str(), args, row, today),
    }
}

fn eval_in_list(list: &Vec<Expr>, v: &Value, row: &Row, today: &Date) -> (r: Option<bool>)
    ensures
        r == spec_in_list(list@, v@, row@, today@),
    decreases list, 1int,
{
    let mut i: usize = 0;
    assert(list@.skip(0) =~= list@);
    while i < list.len()
        invariant
            i <= list.len(),
            spec_in_list(list@, v@, row@, today@) == spec_in_list(list@.skip(i as int), v@, row@, today@),
        decreases list.len() - i,
    {
        proof {
            assert(decreases_to!(list => list[i as int]));
            assert(list@.skip(i as int)[0] == list@[i as int]);
            assert(list@.skip(i as int).drop_first() =~= list@.skip(i + 1));
        }
        match eval_to_value(&list[i], row, today) {
            None => {
                return None;
            },
            Some(x) => {
                if values_equal(&x, v) {
                    return Some(true);
                }
            },
        }
        i = i + 1;
    }
    Some(false)
}

fn eval_function(name: &str, args: &Vec<Expr>, row: &Row, today: &Date) -> (r: Option<Value>)
    ensures
        match r {
            Some(v) => spec_eval_function(name@, args@, row@, today@) == Some(v@),
            None => spec_eval_function(name@, args@, row@, today@) is None,
        },
    decreases args, 1int,
{
    let is_match = str_equal(name, "MATCH");
    let is_contains = str_equal(name, "CONTAINS");
    let is_now = str_equal(name, "NOW");
    let is_sub = str_equal(name, "DATE_SUB");
    let is_add = str_equal(name, "DATE_ADD");
    let is_date = str_equal(name, "DATE");
    let is_lower = str_equal(name, "LOWER");
    let is_upper = str_equal(name, "UPPER");
    let is_len = str_equal(name, "LEN");
    if is_match || is_contains {
        if args.len() != 2 {
            return Some(Value::Bool(false));
        }
        proof {
            assert(decreases_to!(args => args[0]));
            assert(decreases_to!(args => args[1]));
        }
        let a = match eval_to_value(&args[0], row, today) {
            None => {
                return None;
            },
            Some(a) => a,
        };
        let b = match eval_to_value(&args[1], row, today) {
            None => {
                return None;
            },
            Some(b) => b,
        };
        if is_match {
            match (&a, &b) {
                (Value::String(t), Value::String(q)) => Some(
                    Value::Bool(match_text(t.as_str(), q.as_str())),
                ),
                _ => Some(Value::Bool(false)),
            }
        } else {
            Some(Value::Bool(a.contains(&b)))
        }
    } else if is_now {
        Some(Value::Date(*today))
    } else if is_sub || is_add {
        if args.len() != 2 {
            return Some(Value::Null);
        }
        proof {
            assert(decreases_to!(args => args[0]));
            assert(decreases_to!(args => args[1]));
        }
        let a = match eval_to_value(&args[0], row, today) {
            None => {
                return None;
            },
            Some(a) => a,
        };
        let b = match eval_to_value(&args[1], row, today) {
            None => {
                return None;
            },
            Some(b) => b,
        };
        match (&a, &b) {
            (Value::Date(d), Value::Int(n)) => {
                let magnitude: u64 = if *n >= 0 {
                    *n as u64
                } else {
                    (0i128 - *n as i128) as u64
                };
                let moved = if is_add == (*n >= 0) {
                    date_add_days(d, magnitude)
                } else {
                    date_sub_days(d, magnitude)
                };
                match moved {
                    Some(x) => Some(Value::Date(x)),
                    None => None,
                }
            },
            _ => Some(Value::Null),
        }
    } else if is_date || is_lower || is_upper || is_len {
        if args.len() != 1 {
            return Some(Value::Null);
        }
        proof {
            assert(decreases_to!(args => args[0]));
        }
        let v = match eval_to_value(&args[0], row, today) {
            None => {
                return None;
            },
            Some(v) => v,
        };
        if is_date {
            match v {
                Value::String(s) => match parse_date(s.as_str()) {
                    Some(d) => Some(Value::Date(d)),
                    None => Some(Value::Null),
                },
                Value::Date(_) => Some(v),
                _ => Some(Value::Null),
            }
        } else if is_lower {
            match v {
                Value::String(s) => Some(Value::String(to_lowercase(s.as_str()))),
                _ => Some(v),
            }
        } else if is_upper {
            match v {
                Value::String(s) => Some(Value::String(to_uppercase(s.as_str()))),
                _ => Some(v),
            }
        } else {
            match v {
                Value::String(s) => {
                    let cs = chars_of(s.as_str());
                    let n = utf8_prefix_len(&cs, cs.len());
                    assert(cs@.take(cs.len() as int) =~= cs@);
                    Some(Value::Int(n as i64))
                },
                Value::Array(arr) => {
                    proof {
                        crate::value::lemma_models_of_len(arr@);
                    }
                    Some(Value::Int(arr.len() as i64))
                },
                _ => Some(Value::Null),
            }
        }
    } else {
        Some(Value::Null)
    }
}

/// Law: `DATE_SUB(DATE_ADD(d, n), n)` is `d` wherever `DATE_ADD(d, n)`
/// is defined, and `DATE_ADD(DATE_SUB(d, n), n)` likewise.
pub proof fn law_date_add_sub_inverse(date: int, n: i64)
    requires
        day_in_range(date),
    ensures
        shift_date(date, n, true) matches Some(ValueModel::Date(t)) ==> shift_date(t, n, false) == Some(
            ValueModel::Date(date),
        ),
        shift_date(date, n, false) matches Some(ValueModel::Date(t)) ==> shift_date(t, n, true) == Some(
            ValueModel::Date(date),
        ),
{
}

/// The expression names no column `content`, at any depth.
pub open spec fn content_free(e: Expr) -> bool
    decreases e,
{
    match e {
        Expr::Column(name) => name@ != "content"@,
        Expr::Literal(_) => true,
        Expr::BinaryOp { left, right, .. } => content_free(*left) && content_free(*right),
        Expr::Not(inner) => content_free(*inner),
        Expr::IsNull(inner) => content_free(*inner),
        Expr::Like { expr, pattern } => content_free(*expr) && content_free(*pattern),
        Expr::InList { expr, list, .. } => content_free(*expr) && all_content_free(list@),
        Expr::Function { args, .. } => all_content_free(args@),
    }
}

pub open spec fn all_content_free(s: Seq<Expr>) -> bool
    decreases s,
{
    s.len() == 0 || (content_free(s[0]) && all_content_free(s.drop_first()))
}

/// The two rows agree on every column but `content`.
pub open spec fn agree_but_content(a: RowModel, b: RowModel) -> bool {
    forall|k: Seq<char>| k != "content"@ ==> #[trigger] spec_get(a, k) == spec_get(b, k)
}

proof fn lemma_eval_without_content(e: Expr, a: RowModel, b: RowModel, today: int)
    requires
        content_free(e),
        agree_but_content(a, b),
    ensures
        spec_eval(e, a, today) == spec_eval(e, b, today),
    decreases e, 2int,
{
    match e {
        Expr::Column(name) => {
            assert(spec_get(a, name@) == spec_get(b, name@));
        },
        Expr::Literal(_) => {},
        Expr::BinaryOp { left, right, .. } => {
            lemma_eval_without_content(*left, a, b, today);
            lemma_eval_without_content(*right, a, b, today);
        },
        Expr::Not(inner) => lemma_eval_without_content(*inner, a, b, today),
        Expr::IsNull(inner) => lemma_eval_without_content(*inner, a, b, today),
        Expr::Like { expr, pattern } => {
            lemma_eval_without_content(*expr, a, b, today);
            lemma_eval_without_content(*pattern, a, b, today);
        },
        Expr::InList { expr, list, .. } => {
            lemma_eval_without_content(*expr, a, b, today);
            match spec_eval(*expr, a, today) {
                Some(v) => lemma_in_list_without_content(list@, v, a, b, today),
                None => {},
            }
        },
        Expr::Function { name, args } => lemma_function_without_content(name@, args@, a, b, today),
    }
}

proof fn lemma_in_list_without_content(list: Seq<Expr>, v: ValueModel, a: RowModel, b: RowModel, today: int)
    requires
        all_content_free(list),
        agree_but_content(a, b),
    ensures
        spec_in_list(list, v, a, today) == spec_in_list(list, v, b, today),
    decreases list, 1int,
{
    if list.len() > 0 {
        lemma_eval_without_content(list[0], a, b, today);
        lemma_in_list_without_content(list.drop_first(), v, a, b, today);
    }
}

proof fn lemma_function_without_content(name: Seq<char>, args: Seq<Expr>, a: RowModel, b: RowModel, today: int)
    requires
        all_content_free(args),
        agree_but_content(a, b),
    ensures
        spec_eval_function(name, args, a, today) == spec_eval_function(name, args, b, today),
    decreases args, 1int,
{
    if args.len() > 0 {
        lemma_eval_without_content(args[0], a, b, today);
        if args.len() > 1 {
            assert(all_content_free(args.drop_first()));
            assert(content_free(args.drop_first()[0]));
            assert(args.drop_first()[0] == args[1]);
            lemma_eval_without_content(args[1], a, b, today);
        }
    }
}

/// Law: an expression that names no column `content` evaluates alike on two
/// rows that differ in `content` only, so a filter of that kind may be run
/// on rows read without the body of their file.
pub proof fn law_eval_ignores_content(e: Expr, a: RowModel, b: RowModel, today: int)
    requires
        content_free(e),
        agree_but_content(a, b),
    ensures
        spec_eval(e, a, today) == spec_eval(e, b, today),
        spec_passes(e, a, today) == spec_passes(e, b, today),
{
    lemma_eval_without_content(e, a, b, today);
}

/// The operator that compares the other way round: `<` and `>`, `<=` and
/// `>=` trade places; the others are symmetric.
pub open spec fn mirror(op: BinOp) -> BinOp {
    match op {
        BinOp::Lt => BinOp::Gt,
        BinOp::Gt => BinOp::Lt,
        BinOp::LtEq => BinOp::GtEq,
        BinOp::GtEq => BinOp::LtEq,
        _ => op,
    }
}

/// Law: swapping the operands of a binary operator and mirroring it gives
/// the same result (`a < b` is `b > a`, `a = b` is `b = a`, and so on).
pub proof fn law_swap_operands(a: Expr, op: BinOp, b: Expr, row: RowModel, today: int)
    ensures
        spec_eval(Expr::BinaryOp { left: Box::new(a), op: op, right: Box::new(b) }, row, today)
            == spec_eval(Expr::BinaryOp { left: Box::new(b), op: mirror(op), right: Box::new(a) }, row, today),
{
    match (spec_eval(a, row, today), spec_eval(b, row, today)) {
        (Some(l), Some(r)) => {
            law_equal_symmetric(l, r);
            law_compare_antisymmetric(l, r);
            lemma_compare_sign_range(l, r);
            assert(apply_binop(op, l, r) == apply_binop(mirror(op), r, l));
        },
        _ => {},
    }
}

/// Where every item evaluates, `spec_in_list` says whether some item is
/// equal to `v`.
proof fn lemma_in_list_exists(list: Seq<Expr>, v: ValueModel, row: RowModel, today: int)
    requires
        forall|i: int| 0 <= i < list.len() ==> (#[trigger] spec_eval(list[i], row, today)) is Some,
    ensures
        spec_in_list(list, v, row, today) == Some(
            exists|i: int| 0 <= i < list.len() && spec_equal(#[trigger] spec_eval(list[i], row, today).unwrap(), v),
        ),
    decreases list.len(),
{
    if list.len() > 0 {
        let rest = list.drop_first();
        assert forall|i: int| 0 <= i < rest.len() implies (#[trigger] spec_eval(rest[i], row, today)) is Some by {
            assert(rest[i] == list[i + 1]);
        }
        lemma_in_list_exists(rest, v, row, today);
        assert(spec_eval(list[0], row, today) is Some);
        if exists|i: int| 0 <= i < list.len() && spec_equal(#[trigger] spec_eval(list[i], row, today).unwrap(), v) {
            let i = choose|i: int| 0 <= i < list.len() && spec_equal(#[trigger] spec_eval(list[i], row, today).unwrap(), v);
            if i > 0 {
                assert(rest[i - 1] == list[i]);
            }
        }
        if exists|i: int| 0 <= i < rest.len() && spec_equal(#[trigger] spec_eval(rest[i], row, today).unwrap(), v) {
            let i = choose|i: int| 0 <= i < rest.len() && spec_equal(#[trigger] spec_eval(rest[i], row, today).unwrap(), v);
            assert(rest[i] == list[i + 1]);
        }
    }
}

/// Law: where the operand and every item evaluate, `e IN (list)` says
/// whether some item equals `e` (and `NOT IN` the opposite).
pub proof fn law_in_list_is_membership(e: Expr, list: Vec<Expr>, negated: bool, row: RowModel, today: int)
    requires
        spec_eval(e, row, today) is Some,
        forall|i: int| 0 <= i < list.len() ==> (#[trigger] spec_eval(list@[i], row, today)) is Some,
    ensures
        spec_eval(Expr::InList { expr: Box::new(e), list: list, negated: negated }, row, today) == Some(
            ValueModel::Bool(
                negated != exists|i: int| 0 <= i < list.len()
                    && spec_equal(#[trigger] spec_eval(list@[i], row, today).unwrap(), spec_eval(e, row, today).unwrap()),
            ),
        ),
{
    lemma_in_list_exists(list@, spec_eval(e, row, today).unwrap(), row, today);
}

/// The names of the functions differ from one another.
proof fn lemma_function_names_differ()
    ensures
        "MATCH"@ != "NOW"@,
        "CONTAINS"@ != "NOW"@,
        "MATCH"@ != "DATE_SUB"@,
        "MATCH"@ != "DATE_ADD"@,
        "CONTAINS"@ != "DATE_SUB"@,
        "CONTAINS"@ != "DATE_ADD"@,
        "MATCH"@ != "DATE"@,
        "MATCH"@ != "LOWER"@,
        "MATCH"@ != "UPPER"@,
        "MATCH"@ != "LEN"@,
        "CONTAINS"@ != "DATE"@,
        "CONTAINS"@ != "LOWER"@,
        "CONTAINS"@ != "UPPER"@,
        "CONTAINS"@ != "LEN"@,
        "NOW"@ != "DATE_SUB"@,
        "NOW"@ != "DATE_ADD"@,
        "NOW"@ != "DATE"@,
        "NOW"@ != "LOWER"@,
        "NOW"@ != "UPPER"@,
        "NOW"@ != "LEN"@,
        "DATE_SUB"@ != "DATE"@,
        "DATE_SUB"@ != "LOWER"@,
        "DATE_SUB"@ != "UPPER"@,
        "DATE_SUB"@ != "LEN"@,
        "DATE_ADD"@ != "DATE"@,
        "DATE_ADD"@ != "LOWER"@,
        "DATE_ADD"@ != "UPPER"@,
        "DATE_ADD"@ != "LEN"@,
        "DATE_ADD"@ != "DATE_SUB"@,
{
    reveal_strlit("MATCH");
    reveal_strlit("CONTAINS");
    reveal_strlit("NOW");
    reveal_strlit("DATE_SUB");
    reveal_strlit("DATE_ADD");
    reveal_strlit("DATE");
    reveal_strlit("LOWER");
    reveal_strlit("UPPER");
    reveal_strlit("LEN");
    assert("MATCH"@.len() != "NOW"@.len());
    assert("CONTAINS"@.len() != "NOW"@.len());
    assert("MATCH"@.len() != "DATE_SUB"@.len());
    assert("MATCH"@.len() != "DATE_ADD"@.len());
    assert("CONTAINS"@[0] != "DATE_SUB"@[0]);
    assert("CONTAINS"@[0] != "DATE_ADD"@[0]);
    assert("MATCH"@.len() != "DATE"@.len());
    assert("MATCH"@[0] != "LOWER"@[0]);
    assert("MATCH"@[0] != "UPPER"@[0]);
    assert("MATCH"@.len() != "LEN"@.len());
    assert("CONTAINS"@.len() != "DATE"@.len());
    assert("CONTAINS"@.len() != "LOWER"@.len());
    assert("CONTAINS"@.len() != "UPPER"@.len());
    assert("CONTAINS"@.len() != "LEN"@.len());
    assert("NOW"@.len() != "DATE_SUB"@.len());
    assert("NOW"@.len() != "DATE_ADD"@.len());
    assert("NOW"@.len() != "DATE"@.len());
    assert("NOW"@.len() != "LOWER"@.len());
    assert("NOW"@.len() != "UPPER"@.len());
    assert("NOW"@[0] != "LEN"@[0]);
    assert("DATE_SUB"@.len() != "DATE"@.len());
    assert("DATE_SUB"@.len() != "LOWER"@.len());
    assert("DATE_SUB"@.len() != "UPPER"@.len());
    assert("DATE_SUB"@.len() != "LEN"@.len());
    assert("DATE_ADD"@.len() != "DATE"@.len());
    assert("DATE_ADD"@.len() != "LOWER"@.len());
    assert("DATE_ADD"@.len() != "UPPER"@.len());
    assert("DATE_ADD"@.len() != "LEN"@.len());
    assert("DATE_ADD"@[5] != "DATE_SUB"@[5]);
}

/// Law: `DATE_SUB(DATE_ADD(a, m), m)` gives back the date `a` evaluates to,
/// wherever `DATE_ADD(a, m)` stays in the calendar's range (`b` stands for
/// the inner call, or any expression with its value).
pub proof fn law_date_add_then_sub(a: Expr, m: Expr, b: Expr, row: RowModel, today: int, d: int, n: i64)
    requires
        spec_eval(a, row, today) == Some(ValueModel::Date(d)),
        spec_eval(m, row, today) == Some(ValueModel::Int(n)),
        day_in_range(d),
        0 <= n,
        day_in_range(d + n),
        spec_eval(b, row, today) == spec_eval_function("DATE_ADD"@, seq![a, m], row, today),
    ensures
        spec_eval_function("DATE_ADD"@, seq![a, m], row, today) == Some(ValueModel::Date(d + n)),
        spec_eval_function("DATE_SUB"@, seq![b, m], row, today) == Some(ValueModel::Date(d)),
{
    lemma_function_names_differ();
    assert(seq![a, m][0] == a && seq![a, m][1] == m);
    assert(seq![b, m][0] == b && seq![b, m][1] == m);
}

/// Law: a function called with the wrong number of arguments, or one the
/// language does not know, gives `false` (`MATCH`, `CONTAINS`) or null.
pub proof fn law_function_arity(name: Seq<char>, args: Seq<Expr>, row: RowModel, today: int)
    ensures
        (name == "MATCH"@ || name == "CONTAINS"@) && args.len() != 2 ==> spec_eval_function(name, args, row, today)
            == Some(ValueModel::Bool(false)),
        (name == "DATE_SUB"@ || name == "DATE_ADD"@) && args.len() != 2 ==> spec_eval_function(name, args, row, today)
            == Some(ValueModel::Null),
        (name == "DATE"@ || name == "LOWER"@ || name == "UPPER"@ || name == "LEN"@) && args.len() != 1
            ==> spec_eval_function(name, args, row, today) == Some(ValueModel::Null),
        !(name == "MATCH"@ || name == "CONTAINS"@ || name == "NOW"@ || name == "DATE_SUB"@ || name == "DATE_ADD"@
            || name == "DATE"@ || name == "LOWER"@ || name == "UPPER"@ || name == "LEN"@) ==> spec_eval_function(
            name,
            args,
            row,
            today,
        ) == Some(ValueModel::Null),
{
    lemma_function_names_differ();
}

/// Law: `MATCH(a, b)` on two strings is true where nucleo's fuzzy pattern
/// scores the text, true where the lowercase query occurs in the lowercase
/// text, and false otherwise; on anything but two strings it is false.
pub proof fn law_match_function(a: Expr, b: Expr, row: RowModel, today: int)
    requires
        spec_eval(a, row, today) is Some,
        spec_eval(b, row, today) is Some,
    ensures
        ({
            let r = spec_eval_function("MATCH"@, seq![a, b], row, today);
            match (spec_eval(a, row, today).unwrap(), spec_eval(b, row, today).unwrap()) {
                (ValueModel::Str(t), ValueModel::Str(q)) => {
                    &&& r matches Some(ValueModel::Bool(m))
                    &&& spec_fuzzy_match(t, q) ==> r == Some(ValueModel::Bool(true))
                    &&& find_first(spec_lowercase(t), spec_lowercase(q)) is Some ==> r == Some(ValueModel::Bool(true))
                    &&& !spec_fuzzy_match(t, q) && find_first(spec_lowercase(t), spec_lowercase(q)) is None ==> r
                        == Some(ValueModel::Bool(false))
                },
                _ => r == Some(ValueModel::Bool(false)),
            }
        }),
{
    assert(seq![a, b][0] == a && seq![a, b][1] == b);
}

} // verus!
