//! The dynamic value of a frontmatter field or virtual column, with its
//! display text, equality, containment and ordering.
use vstd::prelude::*;
use core::cmp::Ordering;
use crate::calendar::{
    date_text, datetime_text, spec_date_text, spec_datetime_text, Date, DateTime,
};
use crate::float::{float_eq, float_is_nan, float_key, float_key_of, int_as_float_key, int_float_key, is_nan_bits};
use crate::text::{
    chars_of, compare_strs, find_chars_from, find_first, find_from, i64_text, int_text, lex_sign, push_all,
    push_str, string_of,
};

verus! {

broadcast use vstd::std_specs::vec::axiom_vec_decreases_to_view,
    vstd::std_specs::vec::axiom_vec_index_decreases;

/// A double-precision number, held as its IEEE-754 bit pattern together with
/// the text that Rust's `Display` writes for it. The library never computes
/// with doubles: it compares them through their bits and shows the text.
#[derive(Clone, Debug)]
pub struct Float {
    pub bits: u64,
    pub text: String,
}

impl Float {
    /// The number with bit pattern `bits`, displayed as `text`.
    pub fn new(bits: u64, text: String) -> (r: Float)
        ensures
            r.bits == bits,
            r.text@ == text@,
    {
        Float { bits, text }
    }
}

/// Dynamic value type for frontmatter fields and virtual columns.
#[derive(Debug)]
pub enum Value {
    Null,
    Bool(bool),
    Int(i64),
    Float(Float),
    String(String),
    Date(Date),
    DateTime(DateTime),
    Array(Vec<Value>),
}

/// The mathematical content of a `Value`.
pub enum ValueModel {
    Null,
    Bool(bool),
    Int(i64),
    /// Bit pattern and display text.
    Float(u64, Seq<char>),
    Str(Seq<char>),
    /// Day number.
    Date(int),
    /// Day number, second of the day, nanosecond.
    DateTime(int, int, int),
    Array(Seq<ValueModel>),
}

pub open spec fn model_of(v: Value) -> ValueModel
    decreases v,
{
    match v {
        Value::Null => ValueModel::Null,
        Value::Bool(b) => ValueModel::Bool(b),
        Value::Int(i) => ValueModel::Int(i),
        Value::Float(f) => ValueModel::Float(f.bits, f.text@),
        Value::String(s) => ValueModel::Str(s@),
        Value::Date(d) => ValueModel::Date(d@),
        Value::DateTime(t) => ValueModel::DateTime(t@.0, t@.1, t@.2),
        Value::Array(arr) => ValueModel::Array(models_of(arr@)),
    }
}

pub open spec fn models_of(s: Seq<Value>) -> Seq<ValueModel>
    decreases s,
{
    if s.len() == 0 {
        Seq::empty()
    } else {
        models_of(s.drop_last()).push(model_of(s.last()))
    }
}

impl View for Value {
    type V = ValueModel;

    open spec fn view(&self) -> ValueModel {
        model_of(*self)
    }
}

pub proof fn lemma_models_of_len(s: Seq<Value>)
    ensures
        models_of(s).len() == s.len(),
    decreases s.len(),
{
    if s.len() > 0 {
        lemma_models_of_len(s.drop_last());
    }
}

pub proof fn lemma_models_of_index(s: Seq<Value>, i: int)
    requires
        0 <= i < s.len(),
    ensures
        models_of(s).len() == s.len(),
        models_of(s)[i] == model_of(s[i]),
    decreases s.len(),
{
    lemma_models_of_len(s);
    if i < s.len() - 1 {
        lemma_models_of_index(s.drop_last(), i);
    }
}

/// The display text of a value.
pub open spec fn spec_display(v: ValueModel) -> Seq<char>
    decreases v,
{
    match v {
        ValueModel::Null => "null"@,
        ValueModel::Bool(b) => if b {
            "true"@
        } else {
            "false"@
        },
        ValueModel::Int(i) => int_text(i as int),
        ValueModel::Float(_, text) => text,
        ValueModel::Str(s) => s,
        ValueModel::Date(d) => spec_date_text(d),
        ValueModel::DateTime(d, s, n) => spec_datetime_text(d, s, n),
        ValueModel::Array(items) => "["@ + display_join(items) + "]"@,
    }
}

/// The display texts of `items` joined by `", "`.
pub open spec fn display_join(items: Seq<ValueModel>) -> Seq<char>
    decreases items,
{
    if items.len() == 0 {
        Seq::empty()
    } else if items.len() == 1 {
        spec_display(items[0])
    } else {
        display_join(items.drop_last()) + ", "@ + spec_display(items.last())
    }
}

/// Equality of values: same variant and equal contents, doubles compared as
/// `f64 ==` does, arrays element by element.
pub open spec fn spec_equal(a: ValueModel, b: ValueModel) -> bool
    decreases a,
{
    match (a, b) {
        (ValueModel::Null, ValueModel::Null) => true,
        (ValueModel::Bool(x), ValueModel::Bool(y)) => x == y,
        (ValueModel::Int(x), ValueModel::Int(y)) => x == y,
        (ValueModel::Float(x, _), ValueModel::Float(y, _)) => float_eq(x, y),
        (ValueModel::Str(x), ValueModel::Str(y)) => x == y,
        (ValueModel::Date(x), ValueModel::Date(y)) => x == y,
        (ValueModel::DateTime(x1, x2, x3), ValueModel::DateTime(y1, y2, y3)) => x1 == y1 && x2
            == y2 && x3 == y3,
        (ValueModel::Array(x), ValueModel::Array(y)) => x.len() == y.len() && all_equal(x, y),
        _ => false,
    }
}

/// Whether `x` and `y` are equal element by element (`y` at least as long).
pub open spec fn all_equal(x: Seq<ValueModel>, y: Seq<ValueModel>) -> bool
    decreases x,
{
    if x.len() == 0 {
        true
    } else {
        all_equal(x.drop_last(), y.take(x.len() - 1)) && spec_equal(x.last(), y[x.len() - 1])
    }
}

/// Whether some element of `items` equals `v`.
pub open spec fn any_equal(items: Seq<ValueModel>, v: ValueModel) -> bool
    decreases items.len(),
{
    if items.len() == 0 {
        false
    } else {
        any_equal(items.drop_last(), v) || spec_equal(items.last(), v)
    }
}

/// `CONTAINS`: array membership, or substring of a string.
pub open spec fn spec_contains(a: ValueModel, b: ValueModel) -> bool {
    match a {
        ValueModel::Array(items) => any_equal(items, b),
        ValueModel::Str(h) => match b {
            ValueModel::Str(n) => find_first(h, n) is Some,
            _ => false,
        },
        _ => false,
    }
}

/// The sign (-1, 0 or 1) of `x - y`.
pub open spec fn sign(x: int, y: int) -> int {
    if x < y {
        -1
    } else if x > y {
        1
    } else {
        0
    }
}

/// The ordering of two values as a sign, where they are comparable: numbers
/// with numbers (an integer against a double as `as f64` rounds it; NaN
/// against nothing), strings, dates, date-times and booleans each among
/// themselves.
pub open spec fn compare_sign(a: ValueModel, b: ValueModel) -> Option<int> {
    match (a, b) {
        (ValueModel::Int(x), ValueModel::Int(y)) => Some(sign(x as int, y as int)),
        (ValueModel::Float(x, _), ValueModel::Float(y, _)) => if float_is_nan(x) || float_is_nan(
            y,
        ) {
            None
        } else {
            Some(sign(float_key(x), float_key(y)))
        },
        (ValueModel::Int(x), ValueModel::Float(y, _)) => if float_is_nan(y) {
            None
        } else {
            Some(sign(int_float_key(x), float_key(y)))
        },
        (ValueModel::Float(x, _), ValueModel::Int(y)) => if float_is_nan(x) {
            None
        } else {
            Some(sign(float_key(x), int_float_key(y)))
        },
        (ValueModel::Str(x), ValueModel::Str(y)) => Some(lex_sign(x, y)),
        (ValueModel::Date(x), ValueModel::Date(y)) => Some(sign(x, y)),
        (ValueModel::DateTime(x1, x2, x3), ValueModel::DateTime(y1, y2, y3)) => if x1 != y1 {
            Some(sign(x1, y1))
        } else if x2 != y2 {
            Some(sign(x2, y2))
        } else {
            Some(sign(x3, y3))
        },
        (ValueModel::Bool(x), ValueModel::Bool(y)) => Some(
            sign(if x { 1int } else { 0int }, if y { 1int } else { 0int }),
        ),
        _ => None,
    }
}

/// A comparison yields -1, 0 or 1.
pub proof fn lemma_compare_sign_range(a: ValueModel, b: ValueModel)
    ensures
        compare_sign(a, b) matches Some(s) ==> -1 <= s <= 1,
{
    if let (ValueModel::Str(x), ValueModel::Str(y)) = (a, b) {
        crate::text::lemma_lex_sign_basics(x, y);
    }
}

/// The `Ordering` for a sign.
pub open spec fn ordering_of(s: int) -> Ordering {
    if s < 0 {
        Ordering::Less
    } else if s > 0 {
        Ordering::Greater
    } else {
        Ordering::Equal
    }
}

/// The ordering of two values, where they are comparable (see `compare_sign`).
pub open spec fn compare_models(a: ValueModel, b: ValueModel) -> Option<Ordering> {
    match compare_sign(a, b) {
        Some(s) => Some(ordering_of(s)),
        None => None,
    }
}

/// Truthiness: null is false, a boolean is itself, anything else is true.
pub open spec fn spec_truthy(v: ValueModel) -> bool {
    match v {
        ValueModel::Null => false,
        ValueModel::Bool(b) => b,
        _ => true,
    }
}

/// A copy of `v` with the same content.
pub fn copy_value(v: &Value) -> (r: Value)
    ensures
        r@ == v@,
    decreases v, 1int,
{
    match v {
        Value::Null => Value::Null,
        Value::Bool(b) => Value::Bool(*b),
        Value::Int(i) => Value::Int(*i),
        Value::Float(f) => Value::Float(Float { bits: f.bits, text: f.text.clone() }),
        Value::String(s) => Value::String(s.clone()),
        Value::Date(d) => Value::Date(*d),
        Value::DateTime(t) => Value::DateTime(*t),
        Value::Array(arr) => Value::Array(copy_values(arr)),
    }
}

/// Copies of the values `arr`, with the same content.
pub fn copy_values(arr: &Vec<Value>) -> (r: Vec<Value>)
    ensures
        models_of(r@) == models_of(arr@),
        r@.len() == arr@.len(),
    decreases arr, 0int,
{
    let mut out: Vec<Value> = Vec::new();
    let mut i: usize = 0;
    while i < arr.len()
        invariant
            i <= arr.len(),
            out@.len() == i,
            models_of(out@) == models_of(arr@.take(i as int)),
        decreases arr.len() - i,
    {
        proof {
            assert(decreases_to!(arr => arr[i as int]));
        }
        let c = copy_value(&arr[i]);
        let ghost before = out@;
        out.push(c);
        assert(out@.drop_last() =~= before);
        assert(arr@.take(i + 1).drop_last() =~= arr@.take(i as int));
        i = i + 1;
    }
    assert(arr@.take(arr.len() as int) =~= arr@);
    out
}

/// Whether two values are equal (see `spec_equal`).
pub fn values_equal(a: &Value, b: &Value) -> (r: bool)
    ensures
        r == spec_equal(a@, b@),
    decreases a, 1int,
{
    match (a, b) {
        (Value::Null, Value::Null) => true,
        (Value::Bool(x), Value::Bool(y)) => *x == *y,
        (Value::Int(x), Value::Int(y)) => *x == *y,
        (Value::Float(x), Value::Float(y)) => !is_nan_bits(x.bits) && !is_nan_bits(y.bits)
            && float_key_of(x.bits) == float_key_of(y.bits),
        (Value::String(x), Value::String(y)) => *x == *y,
        (Value::Date(x), Value::Date(y)) => x.same_day(y),
        (Value::DateTime(x), Value::DateTime(y)) => x.date().same_day(&y.date()) && x.seconds()
            == y.seconds() && x.nanos() == y.nanos(),
        (Value::Array(x), Value::Array(y)) => {
            proof {
                lemma_models_of_len(x@);
                lemma_models_of_len(y@);
            }
            if x.len() != y.len() {
                return false;
            }
            arrays_equal(x, y)
        },
        _ => false,
    }
}

/// Whether two arrays of equal length are equal element by element.
fn arrays_equal(x: &Vec<Value>, y: &Vec<Value>) -> (r: bool)
    requires
        x.len() == y.len(),
    ensures
        r == all_equal(models_of(x@), models_of(y@)),
    decreases x, 0int,
{
    proof {
        lemma_models_of_len(x@);
        lemma_models_of_len(y@);
        lemma_all_equal_pointwise(models_of(x@), models_of(y@));
    }
    let mut i: usize = 0;
    while i < x.len()
        invariant
            i <= x.len() == y.len(),
            models_of(x@).len() == x.len(),
            models_of(y@).len() == y.len(),
            forall|j: int| 0 <= j < i ==> spec_equal(#[trigger] models_of(x@)[j], models_of(y@)[j]),
        decreases x.len() - i,
    {
        proof {
            assert(decreases_to!(x => x[i as int]));
            lemma_models_of_index(x@, i as int);
            lemma_models_of_index(y@, i as int);
        }
        if !values_equal(&x[i], &y[i]) {
            proof {
                lemma_all_equal_pointwise(models_of(x@), models_of(y@));
            }
            return false;
        }
        i = i + 1;
    }
    true
}

/// `all_equal` holds exactly when every position is equal.
pub proof fn lemma_all_equal_pointwise(x: Seq<ValueModel>, y: Seq<ValueModel>)
    requires
        x.len() <= y.len(),
    ensures
        all_equal(x, y) == (forall|j: int| 0 <= j < x.len() ==> spec_equal(#[trigger] x[j], y[j])),
    decreases x.len(),
{
    if x.len() > 0 {
        lemma_all_equal_pointwise(x.drop_last(), y.take(x.len() - 1));
        assert forall|j: int| 0 <= j < x.len() - 1 implies #[trigger] x.drop_last()[j] == x[j]
            && y.take(x.len() - 1)[j] == y[j] by {}
        if all_equal(x, y) {
            assert forall|j: int| 0 <= j < x.len() implies spec_equal(#[trigger] x[j], y[j]) by {
                if j < x.len() - 1 {
                    assert(x.drop_last()[j] == x[j]);
                }
            }
        }
        if forall|j: int| 0 <= j < x.len() ==> spec_equal(#[trigger] x[j], y[j]) {
            assert forall|j: int| 0 <= j < x.len() - 1 implies spec_equal(
                #[trigger] x.drop_last()[j],
                y.take(x.len() - 1)[j],
            ) by {
                assert(x.drop_last()[j] == x[j]);
            }
        }
    }
}

impl Value {
    /// Returns a display-friendly string representation.
    pub fn display(&self) -> (r: String)
        ensures
            r@ == spec_display(self@),
        decreases self, 1int,
    {
        match self {
            Value::Null => "null".to_owned(),
            Value::Bool(b) => if *b {
                "true".to_owned()
            } else {
                "false".to_owned()
            },
            Value::Int(i) => i64_text(*i),
            Value::Float(f) => f.text.clone(),
            Value::String(s) => s.clone(),
            Value::Date(d) => date_text(d),
            Value::DateTime(t) => datetime_text(t),
            Value::Array(arr) => display_array(arr),
        }
    }

    /// Check if this value contains another value (for CONTAINS operator).
    /// Works on arrays (membership) and strings (substring).
    pub fn contains(&self, other: &Value) -> (r: bool)
        ensures
            r == spec_contains(self@, other@),
    {
        match self {
            Value::Array(arr) => {
                proof {
                    lemma_models_of_len(arr@);
                }
                let mut i: usize = 0;
                while i < arr.len()
                    invariant
                        i <= arr.len(),
                        models_of(arr@).len() == arr.len(),
                        self@ == ValueModel::Array(models_of(arr@)),
                        !any_equal(models_of(arr@).take(i as int), other@),
                    decreases arr.len() - i,
                {
                    proof {
                        lemma_models_of_index(arr@, i as int);
                        assert(models_of(arr@).take(i + 1).drop_last() =~= models_of(arr@).take(
                            i as int,
                        ));
                    }
                    if values_equal(&arr[i], other) {
                        proof {
                            let t = models_of(arr@).take(i + 1);
                            assert(t.last() == models_of(arr@)[i as int]);
                            assert(any_equal(t, other@));
                            lemma_any_equal_prefix(models_of(arr@), other@, i + 1);
                        }
                        return true;
                    }
                    i = i + 1;
                }
                assert(models_of(arr@).take(i as int) =~= models_of(arr@));
                false
            },
            Value::String(h) => match other {
                Value::String(n) => {
                    let hc = chars_of(h.as_str());
                    let nc = chars_of(n.as_str());
                    find_chars_from(&hc, &nc, 0).is_some()
                },
                _ => false,
            },
            _ => false,
        }
    }

    /// Compare two values, returning an ordering if comparable.
    pub fn partial_cmp(&self, other: &Value) -> (r: Option<Ordering>)
        ensures
            r == compare_models(self@, other@),
    {
        match compare_values(self, other) {
            None => None,
            Some(s) => if s < 0 {
                Some(Ordering::Less)
            } else if s > 0 {
                Some(Ordering::Greater)
            } else {
                Some(Ordering::Equal)
            },
        }
    }
}

/// A match of `items` with `v` inside a prefix is a match of the whole.
pub proof fn lemma_any_equal_prefix(items: Seq<ValueModel>, v: ValueModel, k: int)
    requires
        0 <= k <= items.len(),
        any_equal(items.take(k), v),
    ensures
        any_equal(items, v),
    decreases items.len() - k,
{
    if k < items.len() {
        assert(items.take(k + 1).drop_last() =~= items.take(k));
        lemma_any_equal_prefix(items, v, k + 1);
    } else {
        assert(items.take(k) =~= items);
    }
}

/// The display text of an array: `[a, b, ...]`.
fn display_array(arr: &Vec<Value>) -> (r: String)
    ensures
        r@ == "["@ + display_join(models_of(arr@)) + "]"@,
    decreases arr, 0int,
{
    proof {
        lemma_models_of_len(arr@);
    }
    let mut out: Vec<char> = Vec::new();
    push_str(&mut out, "[");
    let mut i: usize = 0;
    while i < arr.len()
        invariant
            i <= arr.len(),
            models_of(arr@).len() == arr.len(),
            out@ == "["@ + display_join(models_of(arr@).take(i as int)),
        decreases arr.len() - i,
    {
        proof {
            assert(decreases_to!(arr => arr[i as int]));
            lemma_models_of_index(arr@, i as int);
        }
        let ghost before = out@;
        let ghost prefix = models_of(arr@).take(i as int);
        let ghost next = models_of(arr@).take(i + 1);
        assert(next.drop_last() =~= prefix);
        assert(next.last() == model_of(arr@[i as int]));
        if i > 0 {
            push_str(&mut out, ", ");
        }
        let item = arr[i].display();
        let item_chars = chars_of(item.as_str());
        push_all(&mut out, &item_chars);
        proof {
            if i == 0 {
                assert(next =~= seq![model_of(arr@[0])]);
                assert(prefix =~= Seq::<ValueModel>::empty());
                assert(out@ =~= "["@ + display_join(next));
            } else {
                assert(out@ =~= "["@ + (display_join(prefix) + ", "@ + spec_display(next.last())));
            }
        }
        i = i + 1;
    }
    assert(models_of(arr@).take(i as int) =~= models_of(arr@));
    push_str(&mut out, "]");
    string_of(&out)
}

/// The ordering of two values as a sign, where comparable (see `compare_sign`).
pub fn compare_values(a: &Value, b: &Value) -> (r: Option<i8>)
    ensures
        match r {
            Some(s) => compare_sign(a@, b@) == Some(s as int) && -1 <= s <= 1,
            None => compare_sign(a@, b@) is None,
        },
{
    proof {
        lemma_compare_sign_range(a@, b@);
    }
    match (a, b) {
        (Value::Int(x), Value::Int(y)) => Some(sign_of(*x as i128, *y as i128)),
        (Value::Float(x), Value::Float(y)) => if is_nan_bits(x.bits) || is_nan_bits(y.bits) {
            None
        } else {
            Some(sign_of(float_key_of(x.bits), float_key_of(y.bits)))
        },
        (Value::Int(x), Value::Float(y)) => if is_nan_bits(y.bits) {
            None
        } else {
            Some(sign_of(int_as_float_key(*x), float_key_of(y.bits)))
        },
        (Value::Float(x), Value::Int(y)) => if is_nan_bits(x.bits) {
            None
        } else {
            Some(sign_of(float_key_of(x.bits), int_as_float_key(*y)))
        },
        (Value::String(x), Value::String(y)) => Some(compare_strs(x.as_str(), y.as_str())),
        (Value::Date(x), Value::Date(y)) => Some(sign_of(x.days() as i128, y.days() as i128)),
        (Value::DateTime(x), Value::DateTime(y)) => {
            let dx = x.date().days();
            let dy = y.date().days();
            if dx != dy {
                Some(sign_of(dx as i128, dy as i128))
            } else if x.seconds() != y.seconds() {
                Some(sign_of(x.seconds() as i128, y.seconds() as i128))
            } else {
                Some(sign_of(x.nanos() as i128, y.nanos() as i128))
            }
        },
        (Value::Bool(x), Value::Bool(y)) => Some(
            sign_of(
                if *x {
                    1
                } else {
                    0
                },
                if *y {
                    1
                } else {
                    0
                },
            ),
        ),
        _ => None,
    }
}

/// The sign of `x - y`.
fn sign_of(x: i128, y: i128) -> (r: i8)
    ensures
        r == sign(x as int, y as int),
{
    if x < y {
        -1
    } else if x > y {
        1
    } else {
        0
    }
}

impl PartialEq for Value {
    fn eq(&self, other: &Value) -> (r: bool) {
        values_equal(self, other)
    }
}

impl vstd::std_specs::cmp::PartialEqSpecImpl for Value {
    open spec fn obeys_eq_spec() -> bool {
        true
    }

    open spec fn eq_spec(&self, other: &Value) -> bool {
        spec_equal(self@, other@)
    }
}

/// Law: comparison is antisymmetric: `b` compares to `a` exactly when `a`
/// compares to `b`, with the opposite sign.
pub proof fn law_compare_antisymmetric(a: ValueModel, b: ValueModel)
    ensures
        match compare_sign(a, b) {
            Some(s) => compare_sign(b, a) == Some(-s),
            None => compare_sign(b, a) is None,
        },
{
    if let (ValueModel::Str(x), ValueModel::Str(y)) = (a, b) {
        crate::text::lemma_lex_sign_basics(x, y);
    }
}

/// `all_equal` compares element by element.
proof fn lemma_all_equal_index(x: Seq<ValueModel>, y: Seq<ValueModel>)
    requires
        x.len() <= y.len(),
    ensures
        all_equal(x, y) <==> forall|i: int| 0 <= i < x.len() ==> #[trigger] spec_equal(x[i], y[i]),
    decreases x,
{
    if x.len() > 0 {
        let n = x.len() - 1;
        lemma_all_equal_index(x.drop_last(), y.take(n));
        if forall|i: int| 0 <= i < x.len() ==> #[trigger] spec_equal(x[i], y[i]) {
            assert forall|i: int| 0 <= i < n implies #[trigger] spec_equal(x.drop_last()[i], y.take(n)[i]) by {
                assert(spec_equal(x[i], y[i]));
            }
            assert(spec_equal(x[n], y[n]));
        }
        if all_equal(x, y) {
            assert forall|i: int| 0 <= i < x.len() implies #[trigger] spec_equal(x[i], y[i]) by {
                if i < n {
                    assert(spec_equal(x.drop_last()[i], y.take(n)[i]));
                }
            }
        }
    }
}

/// Law: equality of values is symmetric.
pub proof fn law_equal_symmetric(a: ValueModel, b: ValueModel)
    ensures
        spec_equal(a, b) == spec_equal(b, a),
    decreases a,
{
    match (a, b) {
        (ValueModel::Array(x), ValueModel::Array(y)) => {
            if x.len() == y.len() {
                lemma_all_equal_index(x, y);
                lemma_all_equal_index(y, x);
                assert forall|i: int| 0 <= i < x.len() implies #[trigger] spec_equal(x[i], y[i]) == spec_equal(y[i], x[i]) by {
                    law_equal_symmetric(x[i], y[i]);
                }
                if all_equal(x, y) {
                    assert forall|i: int| 0 <= i < y.len() implies #[trigger] spec_equal(y[i], x[i]) by {
                        assert(spec_equal(x[i], y[i]) == spec_equal(y[i], x[i]));
                    }
                }
                if all_equal(y, x) {
                    assert forall|i: int| 0 <= i < x.len() implies #[trigger] spec_equal(x[i], y[i]) by {
                        assert(spec_equal(x[i], y[i]) == spec_equal(y[i], x[i]));
                    }
                }
            }
        },
        _ => {},
    }
}

proof fn lemma_any_equal_exists(items: Seq<ValueModel>, v: ValueModel)
    ensures
        any_equal(items, v) <==> exists|i: int| 0 <= i < items.len() && spec_equal(#[trigger] items[i], v),
    decreases items.len(),
{
    if items.len() > 0 {
        let n = items.len() - 1;
        lemma_any_equal_exists(items.drop_last(), v);
        if exists|i: int| 0 <= i < items.len() && spec_equal(#[trigger] items[i], v) {
            let i = choose|i: int| 0 <= i < items.len() && spec_equal(#[trigger] items[i], v);
            if i < n {
                assert(items.drop_last()[i] == items[i]);
            }
        }
        if any_equal(items.drop_last(), v) {
            let i = choose|i: int| 0 <= i < items.drop_last().len() && spec_equal(#[trigger] items.drop_last()[i], v);
            assert(items[i] == items.drop_last()[i]);
        }
        if spec_equal(items.last(), v) {
            assert(items[n] == items.last());
        }
    }
}

/// An occurrence of `n` in `h` at or after `from` is found.
proof fn lemma_find_from_finds(h: Seq<char>, n: Seq<char>, from: int, i: int)
    requires
        0 <= from <= i,
        i + n.len() <= h.len(),
        h.subrange(i, i + n.len()) == n,
    ensures
        find_from(h, n, from) is Some,
    decreases i - from,
{
    if from < i && h.subrange(from, from + n.len()) != n {
        lemma_find_from_finds(h, n, from + 1, i);
    }
}

/// Law: `CONTAINS` on an array is membership: some element equals the
/// value.
pub proof fn law_contains_is_membership(items: Seq<ValueModel>, b: ValueModel)
    ensures
        spec_contains(ValueModel::Array(items), b) <==> exists|i: int| 0 <= i < items.len() && spec_equal(
            #[trigger] items[i],
            b,
        ),
{
    lemma_any_equal_exists(items, b);
}

/// Law: `CONTAINS` on strings is a substring test: the needle occurs
/// somewhere in the text.
pub proof fn law_contains_is_substring(h: Seq<char>, n: Seq<char>)
    ensures
        spec_contains(ValueModel::Str(h), ValueModel::Str(n)) <==> exists|i: int|
            0 <= i && i + n.len() <= h.len() && #[trigger] h.subrange(i, i + n.len()) == n,
{
    crate::text::lemma_find_from(h, n, 0);
    if exists|i: int| 0 <= i && i + n.len() <= h.len() && #[trigger] h.subrange(i, i + n.len()) == n {
        let i = choose|i: int| 0 <= i && i + n.len() <= h.len() && #[trigger] h.subrange(i, i + n.len()) == n;
        lemma_find_from_finds(h, n, 0, i);
    }
    if find_first(h, n) is Some {
        let j = find_first(h, n).unwrap();
        assert(h.subrange(j, j + n.len()) == n);
    }
}

/// Law: only arrays and strings (with a string to look for) contain
/// anything.
pub proof fn law_contains_needs_a_container(a: ValueModel, b: ValueModel)
    requires
        !(a is Array),
        !(a is Str && b is Str),
    ensures
        !spec_contains(a, b),
{
}

/// A value holds no NaN, at any depth.
pub open spec fn nan_free(v: ValueModel) -> bool
    decreases v,
{
    match v {
        ValueModel::Float(bits, _) => !float_is_nan(bits),
        ValueModel::Array(items) => nan_free_all(items),
        _ => true,
    }
}

pub open spec fn nan_free_all(s: Seq<ValueModel>) -> bool
    decreases s,
{
    if s.len() == 0 {
        true
    } else {
        nan_free_all(s.drop_last()) && nan_free(s.last())
    }
}

proof fn lemma_equal_reflexive_all(s: Seq<ValueModel>)
    requires
        nan_free_all(s),
    ensures
        all_equal(s, s),
    decreases s,
{
    if s.len() > 0 {
        let n = s.len() - 1;
        lemma_equal_reflexive_all(s.drop_last());
        assert(s.take(n) =~= s.drop_last());
        law_equal_reflexive(s.last());
    }
}

/// Law: every value without a NaN equals itself.
pub proof fn law_equal_reflexive(v: ValueModel)
    requires
        nan_free(v),
    ensures
        spec_equal(v, v),
    decreases v,
{
    match v {
        ValueModel::Array(items) => {
            lemma_equal_reflexive_all(items);
        },
        _ => {},
    }
}

/// Law: integers, dates and booleans compare as their values do (`false`
/// before `true`), and strings and date-times tie exactly when they are
/// equal.
pub proof fn law_compare_follows_values(x: i64, y: i64, d: int, e: int, p: bool, q: bool, s: Seq<char>, t: Seq<char>)
    ensures
        compare_sign(ValueModel::Int(x), ValueModel::Int(y)) == Some(
            if x < y { -1int } else if x > y { 1int } else { 0int },
        ),
        compare_sign(ValueModel::Date(d), ValueModel::Date(e)) == Some(
            if d < e { -1int } else if d > e { 1int } else { 0int },
        ),
        compare_sign(ValueModel::Bool(p), ValueModel::Bool(q)) == Some(
            if !p && q { -1int } else if p && !q { 1int } else { 0int },
        ),
        compare_sign(ValueModel::Str(s), ValueModel::Str(t)) == Some(0int) <==> s == t,
{
    crate::text::lemma_lex_sign_basics(s, t);
}

} // verus!
