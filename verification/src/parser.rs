//! From query text to the query model: preprocessing, the SQL parse, and the
//! mapping of the syntax tree onto `Query`.
//!
//! Number literals that are not `i64` are floats; the library does not read
//! floats itself, so `parse` takes their values from a table of literal texts
//! (see `float_literals`). A literal missing from the table is an invalid
//! number.
use vstd::prelude::*;
use crate::ast::{
    expr_model, exprs_model, items_model, lemma_exprs_model_index, lemma_exprs_model_len,
    order_model, BinOp, Expr, ExprModel, OrderBy, OrderDir, Query, QueryModel, SelectItem,
    SelectItemModel,
};
use crate::number::{parse_i64, parse_usize, spec_parse_i64, spec_parse_usize, IntErrorKind};
use crate::preprocess::{preprocess_sql, spec_preprocess_sql};
use crate::sql::{
    spec_sql_parse, sql_parse, SqlBinOp, SqlBody, SqlExpr, SqlFunctionArg, SqlFunctionArgs,
    SqlGroupBy, SqlOrderBy, SqlQuery, SqlSelect, SqlSelectItem, SqlStatement, SqlValue,
};
use crate::text::{lemma_texts_push, push_str, spec_uppercase, str_equal, string_of, texts, to_uppercase};
use crate::filter::apply_binop;
use crate::value::{
    compare_sign, law_compare_antisymmetric, lemma_compare_sign_range, spec_equal, spec_truthy, Float, Value, ValueModel,
};

verus! {

broadcast use vstd::std_specs::vec::axiom_vec_decreases_to_view,
    vstd::std_specs::vec::axiom_vec_index_decreases;

/// Why a query could not be parsed.
#[derive(Debug)]
pub enum ParseError {
    /// `sqlparser` refused the text; its message.
    Sql(String),
    NotOneStatement,
    NotSelect,
    NotSimpleSelect,
    GroupByAll,
    OrderByAll,
    SubqueryArguments,
    UnsupportedArgument,
    UnsupportedSelectItem(String),
    UnsupportedSelectExpr(String),
    UnsupportedOperator(String),
    UnsupportedExpression(String),
    UnsupportedValue(String),
    InvalidNumber(String),
    LimitNotNumber,
    OffsetNotNumber,
    /// The number of LIMIT or OFFSET is not a `usize`.
    BadCount(IntErrorKind),
}

/// The mathematical content of a `ParseError`.
pub enum ParseErrorModel {
    Sql(Seq<char>),
    NotOneStatement,
    NotSelect,
    NotSimpleSelect,
    GroupByAll,
    OrderByAll,
    SubqueryArguments,
    UnsupportedArgument,
    UnsupportedSelectItem(Seq<char>),
    UnsupportedSelectExpr(Seq<char>),
    UnsupportedOperator(Seq<char>),
    UnsupportedExpression(Seq<char>),
    UnsupportedValue(Seq<char>),
    InvalidNumber(Seq<char>),
    LimitNotNumber,
    OffsetNotNumber,
    BadCount(IntErrorKind),
}

impl View for ParseError {
    type V = ParseErrorModel;

    open spec fn view(&self) -> ParseErrorModel {
        match self {
            ParseError::Sql(t) => ParseErrorModel::Sql(t@),
            ParseError::NotOneStatement => ParseErrorModel::NotOneStatement,
            ParseError::NotSelect => ParseErrorModel::NotSelect,
            ParseError::NotSimpleSelect => ParseErrorModel::NotSimpleSelect,
            ParseError::GroupByAll => ParseErrorModel::GroupByAll,
            ParseError::OrderByAll => ParseErrorModel::OrderByAll,
            ParseError::SubqueryArguments => ParseErrorModel::SubqueryArguments,
            ParseError::UnsupportedArgument => ParseErrorModel::UnsupportedArgument,
            ParseError::UnsupportedSelectItem(t) => ParseErrorModel::UnsupportedSelectItem(t@),
            ParseError::UnsupportedSelectExpr(t) => ParseErrorModel::UnsupportedSelectExpr(t@),
            ParseError::UnsupportedOperator(t) => ParseErrorModel::UnsupportedOperator(t@),
            ParseError::UnsupportedExpression(t) => ParseErrorModel::UnsupportedExpression(t@),
            ParseError::UnsupportedValue(t) => ParseErrorModel::UnsupportedValue(t@),
            ParseError::InvalidNumber(t) => ParseErrorModel::InvalidNumber(t@),
            ParseError::LimitNotNumber => ParseErrorModel::LimitNotNumber,
            ParseError::OffsetNotNumber => ParseErrorModel::OffsetNotNumber,
            ParseError::BadCount(k) => ParseErrorModel::BadCount(*k),
        }
    }
}

/// The message of an error, as the program prints it.
pub open spec fn spec_message(e: ParseErrorModel) -> Seq<char> {
    match e {
        ParseErrorModel::Sql(t) => t,
        ParseErrorModel::NotOneStatement => "expected exactly one SQL statement"@,
        ParseErrorModel::NotSelect => "expected a SELECT query"@,
        ParseErrorModel::NotSimpleSelect => "expected a simple SELECT (no UNION, etc.)"@,
        ParseErrorModel::GroupByAll => "GROUP BY ALL is not supported"@,
        ParseErrorModel::OrderByAll => "ORDER BY ALL is not supported"@,
        ParseErrorModel::SubqueryArguments => "subquery function arguments not supported"@,
        ParseErrorModel::UnsupportedArgument => "unsupported function argument"@,
        ParseErrorModel::UnsupportedSelectItem(t) => "unsupported select item: "@ + t,
        ParseErrorModel::UnsupportedSelectExpr(t) => "unsupported select expression: "@ + t,
        ParseErrorModel::UnsupportedOperator(t) => "unsupported operator: "@ + t,
        ParseErrorModel::UnsupportedExpression(t) => "unsupported expression: "@ + t,
        ParseErrorModel::UnsupportedValue(t) => "unsupported value: "@ + t,
        ParseErrorModel::InvalidNumber(t) => "invalid number: "@ + t,
        ParseErrorModel::LimitNotNumber => "LIMIT must be a number"@,
        ParseErrorModel::OffsetNotNumber => "OFFSET must be a number"@,
        ParseErrorModel::BadCount(k) => match k {
            IntErrorKind::Empty => "cannot parse integer from empty string"@,
            IntErrorKind::InvalidDigit => "invalid digit found in string"@,
            IntErrorKind::PosOverflow => "number too large to fit in target type"@,
        },
    }
}

impl ParseError {
    /// The message of the error, as the program prints it.
    pub fn message(&self) -> (r: String)
        ensures
            r@ == spec_message(self@),
    {
        let mut out: Vec<char> = Vec::new();
        match self {
            ParseError::Sql(t) => push_str(&mut out, t.as_str()),
            ParseError::NotOneStatement => push_str(&mut out, "expected exactly one SQL statement"),
            ParseError::NotSelect => push_str(&mut out, "expected a SELECT query"),
            ParseError::NotSimpleSelect => push_str(&mut out, "expected a simple SELECT (no UNION, etc.)"),
            ParseError::GroupByAll => push_str(&mut out, "GROUP BY ALL is not supported"),
            ParseError::OrderByAll => push_str(&mut out, "ORDER BY ALL is not supported"),
            ParseError::SubqueryArguments => push_str(&mut out, "subquery function arguments not supported"),
            ParseError::UnsupportedArgument => push_str(&mut out, "unsupported function argument"),
            ParseError::UnsupportedSelectItem(t) => {
                push_str(&mut out, "unsupported select item: ");
                push_str(&mut out, t.as_str());
            },
            ParseError::UnsupportedSelectExpr(t) => {
                push_str(&mut out, "unsupported select expression: ");
                push_str(&mut out, t.as_str());
            },
            ParseError::UnsupportedOperator(t) => {
                push_str(&mut out, "unsupported operator: ");
                push_str(&mut out, t.as_str());
            },
            ParseError::UnsupportedExpression(t) => {
                push_str(&mut out, "unsupported expression: ");
                push_str(&mut out, t.as_str());
            },
            ParseError::UnsupportedValue(t) => {
                push_str(&mut out, "unsupported value: ");
                push_str(&mut out, t.as_str());
            },
            ParseError::InvalidNumber(t) => {
                push_str(&mut out, "invalid number: ");
                push_str(&mut out, t.as_str());
            },
            ParseError::LimitNotNumber => push_str(&mut out, "LIMIT must be a number"),
            ParseError::OffsetNotNumber => push_str(&mut out, "OFFSET must be a number"),
            ParseError::BadCount(k) => match k {
                IntErrorKind::Empty => push_str(&mut out, "cannot parse integer from empty string"),
                IntErrorKind::InvalidDigit => push_str(&mut out, "invalid digit found in string"),
                IntErrorKind::PosOverflow => push_str(&mut out, "number too large to fit in target type"),
            },
        }
        string_of(&out)
    }
}

/// The float that the table gives for a literal text: its first entry with
/// that text.
pub open spec fn float_for(floats: Seq<(String, Float)>, t: Seq<char>) -> Option<Float>
    decreases floats.len(),
{
    if floats.len() == 0 {
        None
    } else if floats[0].0@ == t {
        Some(floats[0].1)
    } else {
        float_for(floats.drop_first(), t)
    }
}

pub open spec fn literal(v: ValueModel) -> ExprModel {
    ExprModel::Literal(v)
}

/// A literal value: strings and booleans as they are, a number as `i64`
/// where it is one and else as the float the table gives for its text.
pub open spec fn spec_value(v: SqlValue, floats: Seq<(String, Float)>) -> Result<ExprModel, ParseErrorModel> {
    match v {
        SqlValue::SingleQuoted(s) => Ok(literal(ValueModel::Str(s@))),
        SqlValue::DoubleQuoted(s) => Ok(literal(ValueModel::Str(s@))),
        SqlValue::Number(n) => match spec_parse_i64(n@) {
            Some(i) => Ok(literal(ValueModel::Int(i))),
            None => match float_for(floats, n@) {
                Some(f) => Ok(literal(ValueModel::Float(f.bits, f.text@))),
                None => Err(ParseErrorModel::InvalidNumber(n@)),
            },
        },
        SqlValue::Boolean(b) => Ok(literal(ValueModel::Bool(b))),
        SqlValue::Null => Ok(literal(ValueModel::Null)),
        SqlValue::Other(t) => Err(ParseErrorModel::UnsupportedValue(t@)),
    }
}

/// The operators that the language has.
pub open spec fn spec_binop(op: SqlBinOp) -> Result<BinOp, ParseErrorModel> {
    match op {
        SqlBinOp::Eq => Ok(BinOp::Eq),
        SqlBinOp::NotEq => Ok(BinOp::NotEq),
        SqlBinOp::Lt => Ok(BinOp::Lt),
        SqlBinOp::LtEq => Ok(BinOp::LtEq),
        SqlBinOp::Gt => Ok(BinOp::Gt),
        SqlBinOp::GtEq => Ok(BinOp::GtEq),
        SqlBinOp::And => Ok(BinOp::And),
        SqlBinOp::Or => Ok(BinOp::Or),
        SqlBinOp::Other(t) => Err(ParseErrorModel::UnsupportedOperator(t@)),
    }
}

/// An expression of WHERE, GROUP BY, ORDER BY or a call's arguments. Parts
/// are read left to right; the first refusal is the error.
pub open spec fn spec_expr(e: SqlExpr, floats: Seq<(String, Float)>) -> Result<ExprModel, ParseErrorModel>
    decreases e,
{
    match e {
        SqlExpr::Identifier(n) => Ok(ExprModel::Column(n@)),
        SqlExpr::Value(v) => spec_value(v, floats),
        SqlExpr::BinaryOp(l, op, r) => match spec_expr(*l, floats) {
            Err(x) => Err(x),
            Ok(lm) => match spec_expr(*r, floats) {
                Err(x) => Err(x),
                Ok(rm) => match spec_binop(op) {
                    Err(x) => Err(x),
                    Ok(b) => Ok(ExprModel::BinaryOp(Box::new(lm), b, Box::new(rm))),
                },
            },
        },
        SqlExpr::Not(inner) => match spec_expr(*inner, floats) {
            Err(x) => Err(x),
            Ok(m) => Ok(ExprModel::Not(Box::new(m))),
        },
        SqlExpr::Like { negated, expr, pattern } => match spec_expr(*expr, floats) {
            Err(x) => Err(x),
            Ok(em) => match spec_expr(*pattern, floats) {
                Err(x) => Err(x),
                Ok(pm) => {
                    let like = ExprModel::Like(Box::new(em), Box::new(pm));
                    if negated {
                        Ok(ExprModel::Not(Box::new(like)))
                    } else {
                        Ok(like)
                    }
                },
            },
        },
        SqlExpr::InList { expr, list, negated } => match spec_expr(*expr, floats) {
            Err(x) => Err(x),
            Ok(em) => match spec_exprs(list@, floats) {
                Err(x) => Err(x),
                Ok(ms) => Ok(ExprModel::InList(Box::new(em), ms, negated)),
            },
        },
        SqlExpr::Function { name, args } => match spec_args(args, floats) {
            Err(x) => Err(x),
            Ok(ms) => Ok(ExprModel::Function(spec_uppercase(name@), ms)),
        },
        SqlExpr::Nested(inner) => spec_expr(*inner, floats),
        SqlExpr::IsNull(inner) => match spec_expr(*inner, floats) {
            Err(x) => Err(x),
            Ok(m) => Ok(ExprModel::IsNull(Box::new(m))),
        },
        SqlExpr::IsNotNull(inner) => match spec_expr(*inner, floats) {
            Err(x) => Err(x),
            Ok(m) => Ok(ExprModel::Not(Box::new(ExprModel::IsNull(Box::new(m))))),
        },
        SqlExpr::Other(t) => Err(ParseErrorModel::UnsupportedExpression(t@)),
    }
}

/// A list of expressions, read in order.
pub open spec fn spec_exprs(s: Seq<SqlExpr>, floats: Seq<(String, Float)>) -> Result<Seq<ExprModel>, ParseErrorModel>
    decreases s,
{
    if s.len() == 0 {
        Ok(Seq::empty())
    } else {
        match spec_exprs(s.drop_last(), floats) {
            Err(x) => Err(x),
            Ok(ms) => match spec_expr(s.last(), floats) {
                Err(x) => Err(x),
                Ok(m) => Ok(ms.push(m)),
            },
        }
    }
}

/// The arguments of a call: a `*` is the string `"*"`.
pub open spec fn spec_args(a: SqlFunctionArgs, floats: Seq<(String, Float)>) -> Result<Seq<ExprModel>, ParseErrorModel>
    decreases a,
{
    match a {
        SqlFunctionArgs::Absent => Ok(Seq::empty()),
        SqlFunctionArgs::Subquery => Err(ParseErrorModel::SubqueryArguments),
        SqlFunctionArgs::List(l) => spec_arg_list(l@, floats),
    }
}

pub open spec fn spec_arg_list(s: Seq<SqlFunctionArg>, floats: Seq<(String, Float)>) -> Result<Seq<ExprModel>, ParseErrorModel>
    decreases s,
{
    if s.len() == 0 {
        Ok(Seq::empty())
    } else {
        match spec_arg_list(s.drop_last(), floats) {
            Err(x) => Err(x),
            Ok(ms) => match spec_arg(s.last(), floats) {
                Err(x) => Err(x),
                Ok(m) => Ok(ms.push(m)),
            },
        }
    }
}

pub open spec fn spec_arg(a: SqlFunctionArg, floats: Seq<(String, Float)>) -> Result<ExprModel, ParseErrorModel>
    decreases a,
{
    match a {
        SqlFunctionArg::Expr(e) => spec_expr(e, floats),
        SqlFunctionArg::Wildcard => Ok(literal(ValueModel::Str("*"@))),
        SqlFunctionArg::Other => Err(ParseErrorModel::UnsupportedArgument),
    }
}

/// An item of the SELECT list: a column, `*`, or a call (its name in upper
/// case); an alias is dropped.
pub open spec fn spec_select_expr(e: SqlExpr, text: Seq<char>, floats: Seq<(String, Float)>) -> Result<SelectItemModel, ParseErrorModel> {
    match e {
        SqlExpr::Identifier(n) => Ok(SelectItemModel::Column(n@)),
        SqlExpr::Function { name, args } => match spec_args(args, floats) {
            Err(x) => Err(x),
            Ok(ms) => Ok(SelectItemModel::Function(spec_uppercase(name@), ms)),
        },
        _ => Err(ParseErrorModel::UnsupportedSelectExpr(text)),
    }
}

pub open spec fn spec_select_item(i: SqlSelectItem, floats: Seq<(String, Float)>) -> Result<SelectItemModel, ParseErrorModel> {
    match i {
        SqlSelectItem::Unnamed(e, t) => spec_select_expr(e, t@, floats),
        SqlSelectItem::WithAlias(e, t) => spec_select_expr(e, t@, floats),
        SqlSelectItem::Wildcard => Ok(SelectItemModel::AllColumns),
        SqlSelectItem::Other(t) => Err(ParseErrorModel::UnsupportedSelectItem(t@)),
    }
}

pub open spec fn spec_select_items(s: Seq<SqlSelectItem>, floats: Seq<(String, Float)>) -> Result<Seq<SelectItemModel>, ParseErrorModel>
    decreases s.len(),
{
    if s.len() == 0 {
        Ok(Seq::empty())
    } else {
        match spec_select_items(s.drop_last(), floats) {
            Err(x) => Err(x),
            Ok(ms) => match spec_select_item(s.last(), floats) {
                Err(x) => Err(x),
                Ok(m) => Ok(ms.push(m)),
            },
        }
    }
}

/// `s` without its backquotes and double quotes.
pub open spec fn strip_quotes(s: Seq<char>) -> Seq<char>
    decreases s.len(),
{
    if s.len() == 0 {
        s
    } else if s.last() == '`' || s.last() == '"' {
        strip_quotes(s.drop_last())
    } else {
        strip_quotes(s.drop_last()).push(s.last())
    }
}

/// The directory of FROM: the first table's text without quotes, `.` when
/// there is no FROM.
pub open spec fn spec_from(from: Seq<String>) -> Seq<char> {
    if from.len() == 0 {
        "."@
    } else {
        strip_quotes(from[0]@)
    }
}

pub open spec fn direction(asc: Option<bool>) -> OrderDir {
    if asc == Some(false) {
        OrderDir::Desc
    } else {
        OrderDir::Asc
    }
}

pub open spec fn spec_order_items(s: Seq<(SqlExpr, Option<bool>)>, floats: Seq<(String, Float)>) -> Result<Seq<(ExprModel, OrderDir)>, ParseErrorModel>
    decreases s.len(),
{
    if s.len() == 0 {
        Ok(Seq::empty())
    } else {
        match spec_order_items(s.drop_last(), floats) {
            Err(x) => Err(x),
            Ok(ms) => match spec_expr(s.last().0, floats) {
                Err(x) => Err(x),
                Ok(m) => Ok(ms.push((m, direction(s.last().1)))),
            },
        }
    }
}

pub open spec fn spec_order(o: Option<SqlOrderBy>, floats: Seq<(String, Float)>) -> Result<Seq<(ExprModel, OrderDir)>, ParseErrorModel> {
    match o {
        None => Ok(Seq::empty()),
        Some(SqlOrderBy::All) => Err(ParseErrorModel::OrderByAll),
        Some(SqlOrderBy::Expressions(v)) => spec_order_items(v@, floats),
    }
}

pub open spec fn spec_group_by(g: SqlGroupBy, floats: Seq<(String, Float)>) -> Result<Seq<ExprModel>, ParseErrorModel> {
    match g {
        SqlGroupBy::All => Err(ParseErrorModel::GroupByAll),
        SqlGroupBy::Expressions(v) => spec_exprs(v@, floats),
    }
}

/// LIMIT or OFFSET: a number literal read as a `usize`.
pub open spec fn spec_count(e: Option<SqlExpr>, not_number: ParseErrorModel) -> Result<Option<usize>, ParseErrorModel> {
    match e {
        None => Ok(None),
        Some(SqlExpr::Value(SqlValue::Number(n))) => match spec_parse_usize(n@) {
            Ok(v) => Ok(Some(v)),
            Err(k) => Err(ParseErrorModel::BadCount(k)),
        },
        Some(_) => Err(not_number),
    }
}

pub open spec fn spec_filter(w: Option<SqlExpr>, floats: Seq<(String, Float)>) -> Result<Option<ExprModel>, ParseErrorModel> {
    match w {
        None => Ok(None),
        Some(e) => match spec_expr(e, floats) {
            Err(x) => Err(x),
            Ok(m) => Ok(Some(m)),
        },
    }
}

/// An expression reads the body of the file: it names `content` or calls
/// `MATCH` or `SNIPPET`, at any depth.
pub open spec fn refs_content(e: ExprModel) -> bool
    decreases e,
{
    match e {
        ExprModel::Column(n) => n == "content"@,
        ExprModel::Function(n, args) => n == "MATCH"@ || n == "SNIPPET"@ || any_refs_content(args),
        ExprModel::BinaryOp(l, _, r) => refs_content(*l) || refs_content(*r),
        ExprModel::Not(i) => refs_content(*i),
        ExprModel::IsNull(i) => refs_content(*i),
        ExprModel::Like(a, b) => refs_content(*a) || refs_content(*b),
        ExprModel::InList(a, list, _) => refs_content(*a) || any_refs_content(list),
        ExprModel::Literal(_) => false,
    }
}

pub open spec fn any_refs_content(s: Seq<ExprModel>) -> bool
    decreases s,
{
    if s.len() == 0 {
        false
    } else {
        any_refs_content(s.drop_last()) || refs_content(s.last())
    }
}

pub open spec fn item_needs_content(c: SelectItemModel) -> bool {
    match c {
        SelectItemModel::Column(n) => n == "content"@,
        SelectItemModel::AllColumns => true,
        SelectItemModel::Function(n, args) => n == "MATCH"@ || n == "SNIPPET"@ || any_refs_content(args),
    }
}

pub open spec fn is_count(c: SelectItemModel) -> bool {
    match c {
        SelectItemModel::Function(n, _) => n == "COUNT"@,
        _ => false,
    }
}

/// The query needs the body of the files.
pub open spec fn spec_needs_content(columns: Seq<SelectItemModel>, filter: Option<ExprModel>) -> bool {
    (exists|i: int| 0 <= i < columns.len() && #[trigger] item_needs_content(columns[i])) || match filter {
        Some(f) => refs_content(f),
        None => false,
    }
}

/// The query aggregates: it groups, or it counts.
pub open spec fn spec_is_aggregate(columns: Seq<SelectItemModel>, group_by: Seq<ExprModel>) -> bool {
    group_by.len() > 0 || exists|i: int| 0 <= i < columns.len() && #[trigger] is_count(columns[i])
}

/// The query of a SELECT, its parts read in this order: the list, FROM,
/// WHERE, GROUP BY, ORDER BY, LIMIT, OFFSET.
pub open spec fn spec_select_query(q: SqlQuery, s: SqlSelect, floats: Seq<(String, Float)>) -> Result<QueryModel, ParseErrorModel> {
    match spec_select_items(s.projection@, floats) {
        Err(x) => Err(x),
        Ok(columns) => match spec_filter(s.selection, floats) {
            Err(x) => Err(x),
            Ok(filter) => match spec_group_by(s.group_by, floats) {
                Err(x) => Err(x),
                Ok(group_by) => match spec_order(q.order_by, floats) {
                    Err(x) => Err(x),
                    Ok(order_by) => match spec_count(q.limit, ParseErrorModel::LimitNotNumber) {
                        Err(x) => Err(x),
                        Ok(limit) => match spec_count(q.offset, ParseErrorModel::OffsetNotNumber) {
                            Err(x) => Err(x),
                            Ok(offset) => Ok(
                                QueryModel {
                                    columns,
                                    from: spec_from(s.from@),
                                    filter,
                                    order_by,
                                    group_by,
                                    limit,
                                    offset,
                                    needs_content: spec_needs_content(columns, filter),
                                    is_aggregate: spec_is_aggregate(columns, group_by),
                                    distinct: s.distinct,
                                },
                            ),
                        },
                    },
                },
            },
        },
    }
}

/// The query of a list of statements: exactly one, a query, a plain SELECT.
pub open spec fn spec_statements_query(stmts: Seq<SqlStatement>, floats: Seq<(String, Float)>) -> Result<QueryModel, ParseErrorModel> {
    if stmts.len() != 1 {
        Err(ParseErrorModel::NotOneStatement)
    } else {
        match stmts[0] {
            SqlStatement::Other => Err(ParseErrorModel::NotSelect),
            SqlStatement::Query(q) => match q.body {
                SqlBody::Other => Err(ParseErrorModel::NotSimpleSelect),
                SqlBody::Select(s) => spec_select_query(q, s, floats),
            },
        }
    }
}

/// What `parse` gives for text that preprocessing accepts.
pub open spec fn spec_parse(sql: Seq<char>, floats: Seq<(String, Float)>) -> Result<QueryModel, ParseErrorModel> {
    match spec_sql_parse(spec_preprocess_sql(sql).unwrap()) {
        Err(e) => Err(ParseErrorModel::Sql(e)),
        Ok(stmts) => spec_statements_query(stmts, floats),
    }
}

pub open spec fn expr_result(r: Result<Expr, ParseError>) -> Result<ExprModel, ParseErrorModel> {
    match r {
        Ok(e) => Ok(e@),
        Err(x) => Err(x@),
    }
}

pub open spec fn exprs_result(r: Result<Vec<Expr>, ParseError>) -> Result<Seq<ExprModel>, ParseErrorModel> {
    match r {
        Ok(v) => Ok(exprs_model(v@)),
        Err(x) => Err(x@),
    }
}

/// A parse error stays the error of every longer list.
proof fn lemma_exprs_err(s: Seq<SqlExpr>, floats: Seq<(String, Float)>, n: int)
    requires
        0 <= n <= s.len(),
        spec_exprs(s.take(n), floats) is Err,
    ensures
        spec_exprs(s, floats) == spec_exprs(s.take(n), floats),
    decreases s.len() - n,
{
    if n == s.len() {
        assert(s.take(n) =~= s);
    } else {
        assert(s.take(n + 1).drop_last() =~= s.take(n));
        lemma_exprs_err(s, floats, n + 1);
    }
}

proof fn lemma_arg_list_err(s: Seq<SqlFunctionArg>, floats: Seq<(String, Float)>, n: int)
    requires
        0 <= n <= s.len(),
        spec_arg_list(s.take(n), floats) is Err,
    ensures
        spec_arg_list(s, floats) == spec_arg_list(s.take(n), floats),
    decreases s.len() - n,
{
    if n == s.len() {
        assert(s.take(n) =~= s);
    } else {
        assert(s.take(n + 1).drop_last() =~= s.take(n));
        lemma_arg_list_err(s, floats, n + 1);
    }
}

pub(crate) fn find_float(floats: &Vec<(String, Float)>, t: &str) -> (r: Option<Float>)
    ensures
        match (r, float_for(floats@, t@)) {
            (Some(a), Some(b)) => a.bits == b.bits && a.text@ == b.text@,
            (None, None) => true,
            _ => false,
        },
{
    let mut i: usize = 0;
    assert(floats@.skip(0) =~= floats@);
    while i < floats.len()
        invariant
            i <= floats.len(),
            float_for(floats@, t@) == float_for(floats@.skip(i as int), t@),
        decreases floats.len() - i,
    {
        assert(floats@.skip(i as int)[0] == floats@[i as int]);
        assert(floats@.skip(i as int).drop_first() =~= floats@.skip(i + 1));
        if str_equal(floats[i].0.as_str(), t) {
            return Some(Float::new(floats[i].1.bits, floats[i].1.text.clone()));
        }
        i = i + 1;
    }
    None
}

fn parse_value(v: &SqlValue, floats: &Vec<(String, Float)>) -> (r: Result<Expr, ParseError>)
    ensures
        expr_result(r) == spec_value(*v, floats@),
{
    match v {
        SqlValue::SingleQuoted(s) => Ok(Expr::Literal(Value::String(s.clone()))),
        SqlValue::DoubleQuoted(s) => Ok(Expr::Literal(Value::String(s.clone()))),
        SqlValue::Number(n) => match parse_i64(n.as_str()) {
            Some(i) => Ok(Expr::Literal(Value::Int(i))),
            None => match find_float(floats, n.as_str()) {
                Some(f) => Ok(Expr::Literal(Value::Float(f))),
                None => Err(ParseError::InvalidNumber(n.clone())),
            },
        },
        SqlValue::Boolean(b) => Ok(Expr::Literal(Value::Bool(*b))),
        SqlValue::Null => Ok(Expr::Literal(Value::Null)),
        SqlValue::Other(t) => Err(ParseError::UnsupportedValue(t.clone())),
    }
}

fn parse_binop(op: &SqlBinOp) -> (r: Result<BinOp, ParseError>)
    ensures
        match r {
            Ok(b) => spec_binop(*op) == Ok::<BinOp, ParseErrorModel>(b),
            Err(x) => spec_binop(*op) == Err::<BinOp, ParseErrorModel>(x@),
        },
{
    match op {
        SqlBinOp::Eq => Ok(BinOp::Eq),
        SqlBinOp::NotEq => Ok(BinOp::NotEq),
        SqlBinOp::Lt => Ok(BinOp::Lt),
        SqlBinOp::LtEq => Ok(BinOp::LtEq),
        SqlBinOp::Gt => Ok(BinOp::Gt),
        SqlBinOp::GtEq => Ok(BinOp::GtEq),
        SqlBinOp::And => Ok(BinOp::And),
        SqlBinOp::Or => Ok(BinOp::Or),
        SqlBinOp::Other(t) => Err(ParseError::UnsupportedOperator(t.clone())),
    }
}

/// Maps an expression of the syntax tree onto the query model.
pub fn parse_expr(e: &SqlExpr, floats: &Vec<(String, Float)>) -> (r: Result<Expr, ParseError>)
    ensures
        expr_result(r) == spec_expr(*e, floats@),
    decreases e, 3int,
{
    match e {
        SqlExpr::Identifier(n) => Ok(Expr::Column(n.clone())),
        SqlExpr::Value(v) => parse_value(v, floats),
        SqlExpr::BinaryOp(l, op, r) => {
            let lm = match parse_expr(l, floats) {
                Ok(m) => m,
                Err(x) => {
                    return Err(x);
                },
            };
            let rm = match parse_expr(r, floats) {
                Ok(m) => m,
                Err(x) => {
                    return Err(x);
                },
            };
            let b = match parse_binop(op) {
                Ok(b) => b,
                Err(x) => {
                    return Err(x);
                },
            };
            Ok(Expr::BinaryOp { left: Box::new(lm), op: b, right: Box::new(rm) })
        },
        SqlExpr::Not(inner) => match parse_expr(inner, floats) {
            Ok(m) => Ok(Expr::Not(Box::new(m))),
            Err(x) => Err(x),
        },
        SqlExpr::Like { negated, expr, pattern } => {
            let em = match parse_expr(expr, floats) {
                Ok(m) => m,
                Err(x) => {
                    return Err(x);
                },
            };
            let pm = match parse_expr(pattern, floats) {
                Ok(m) => m,
                Err(x) => {
                    return Err(x);
                },
            };
            let like = Expr::Like { expr: Box::new(em), pattern: Box::new(pm) };
            assert(like@ == ExprModel::Like(Box::new(em@), Box::new(pm@)));
            if *negated {
                Ok(Expr::Not(Box::new(like)))
            } else {
                Ok(like)
            }
        },
        SqlExpr::InList { expr, list, negated } => {
            let em = match parse_expr(expr, floats) {
                Ok(m) => m,
                Err(x) => {
                    return Err(x);
                },
            };
            let ms = match parse_exprs(list, floats) {
                Ok(ms) => ms,
                Err(x) => {
                    return Err(x);
                },
            };
            Ok(Expr::InList { expr: Box::new(em), list: ms, negated: *negated })
        },
        SqlExpr::Function { name, args } => {
            let ms = match parse_args(args, floats) {
                Ok(ms) => ms,
                Err(x) => {
                    return Err(x);
                },
            };
            Ok(Expr::Function { name: to_uppercase(name.as_str()), args: ms })
        },
        SqlExpr::Nested(inner) => parse_expr(inner, floats),
        SqlExpr::IsNull(inner) => match parse_expr(inner, floats) {
            Ok(m) => Ok(Expr::IsNull(Box::new(m))),
            Err(x) => Err(x),
        },
        SqlExpr::IsNotNull(inner) => match parse_expr(inner, floats) {
            Ok(m) => {
                let is_null = Expr::IsNull(Box::new(m));
                assert(is_null@ == ExprModel::IsNull(Box::new(m@)));
                let out = Expr::Not(Box::new(is_null));
                Ok(out)
            },
            Err(x) => Err(x),
        },
        SqlExpr::Other(t) => Err(ParseError::UnsupportedExpression(t.clone())),
    }
}

/// Maps a list of expressions, in order.
pub fn parse_exprs(list: &Vec<SqlExpr>, floats: &Vec<(String, Float)>) -> (r: Result<Vec<Expr>, ParseError>)
    ensures
        exprs_result(r) == spec_exprs(list@, floats@),
    decreases list, 2int,
{
    let mut out: Vec<Expr> = Vec::new();
    let mut i: usize = 0;
    assert(list@.take(0) =~= Seq::<SqlExpr>::empty());
    while i < list.len()
        invariant
            i <= list.len(),
            spec_exprs(list@.take(i as int), floats@) == Ok::<Seq<ExprModel>, ParseErrorModel>(exprs_model(out@)),
        decreases list.len() - i,
    {
        proof {
            assert(decreases_to!(list => list[i as int]));
            assert(list@.take(i + 1).drop_last() =~= list@.take(i as int));
            assert(list@.take(i + 1).last() == list@[i as int]);
        }
        let m = match parse_expr(&list[i], floats) {
            Ok(m) => m,
            Err(x) => {
                proof {
                    lemma_exprs_err(list@, floats@, i + 1);
                }
                return Err(x);
            },
        };
        let ghost before = out@;
        out.push(m);
        assert(out@.drop_last() =~= before);
        i = i + 1;
    }
    assert(list@.take(list.len() as int) =~= list@);
    Ok(out)
}

/// Maps the arguments of a call.
pub fn parse_args(a: &SqlFunctionArgs, floats: &Vec<(String, Float)>) -> (r: Result<Vec<Expr>, ParseError>)
    ensures
        exprs_result(r) == spec_args(*a, floats@),
    decreases a, 2int,
{
    match a {
        SqlFunctionArgs::Absent => {
            let out: Vec<Expr> = Vec::new();
            assert(exprs_model(out@) =~= Seq::<ExprModel>::empty());
            Ok(out)
        },
        SqlFunctionArgs::Subquery => Err(ParseError::SubqueryArguments),
        SqlFunctionArgs::List(l) => parse_arg_list(l, floats),
    }
}

fn parse_arg_list(list: &Vec<SqlFunctionArg>, floats: &Vec<(String, Float)>) -> (r: Result<Vec<Expr>, ParseError>)
    ensures
        exprs_result(r) == spec_arg_list(list@, floats@),
    decreases list, 1int,
{
    let mut out: Vec<Expr> = Vec::new();
    let mut i: usize = 0;
    assert(list@.take(0) =~= Seq::<SqlFunctionArg>::empty());
    while i < list.len()
        invariant
            i <= list.len(),
            spec_arg_list(list@.take(i as int), floats@) == Ok::<Seq<ExprModel>, ParseErrorModel>(exprs_model(out@)),
        decreases list.len() - i,
    {
        proof {
            assert(decreases_to!(list => list[i as int]));
            assert(list@.take(i + 1).drop_last() =~= list@.take(i as int));
            assert(list@.take(i + 1).last() == list@[i as int]);
        }
        let m = match parse_arg(&list[i], floats) {
            Ok(m) => m,
            Err(x) => {
                proof {
                    lemma_arg_list_err(list@, floats@, i + 1);
                }
                return Err(x);
            },
        };
        let ghost before = out@;
        out.push(m);
        assert(out@.drop_last() =~= before);
        i = i + 1;
    }
    assert(list@.take(list.len() as int) =~= list@);
    Ok(out)
}

fn parse_arg(a: &SqlFunctionArg, floats: &Vec<(String, Float)>) -> (r: Result<Expr, ParseError>)
    ensures
        expr_result(r) == spec_arg(*a, floats@),
    decreases a, 0int,
{
    match a {
        SqlFunctionArg::Expr(e) => parse_expr(e, floats),
        SqlFunctionArg::Wildcard => Ok(Expr::Literal(Value::String("*".to_owned()))),
        SqlFunctionArg::Other => Err(ParseError::UnsupportedArgument),
    }
}

proof fn lemma_select_items_err(s: Seq<SqlSelectItem>, floats: Seq<(String, Float)>, n: int)
    requires
        0 <= n <= s.len(),
        spec_select_items(s.take(n), floats) is Err,
    ensures
        spec_select_items(s, floats) == spec_select_items(s.take(n), floats),
    decreases s.len() - n,
{
    if n == s.len() {
        assert(s.take(n) =~= s);
    } else {
        assert(s.take(n + 1).drop_last() =~= s.take(n));
        lemma_select_items_err(s, floats, n + 1);
    }
}

proof fn lemma_order_items_err(s: Seq<(SqlExpr, Option<bool>)>, floats: Seq<(String, Float)>, n: int)
    requires
        0 <= n <= s.len(),
        spec_order_items(s.take(n), floats) is Err,
    ensures
        spec_order_items(s, floats) == spec_order_items(s.take(n), floats),
    decreases s.len() - n,
{
    if n == s.len() {
        assert(s.take(n) =~= s);
    } else {
        assert(s.take(n + 1).drop_last() =~= s.take(n));
        lemma_order_items_err(s, floats, n + 1);
    }
}

pub open spec fn item_result(r: Result<SelectItem, ParseError>) -> Result<SelectItemModel, ParseErrorModel> {
    match r {
        Ok(i) => Ok(i@),
        Err(x) => Err(x@),
    }
}

fn parse_select_expr(e: &SqlExpr, text: &String, floats: &Vec<(String, Float)>) -> (r: Result<SelectItem, ParseError>)
    ensures
        item_result(r) == spec_select_expr(*e, text@, floats@),
{
    match e {
        SqlExpr::Identifier(n) => Ok(SelectItem::Column(n.clone())),
        SqlExpr::Function { name, args } => match parse_args(args, floats) {
            Ok(ms) => Ok(SelectItem::Function { name: to_uppercase(name.as_str()), args: ms }),
            Err(x) => Err(x),
        },
        _ => Err(ParseError::UnsupportedSelectExpr(text.clone())),
    }
}

fn parse_select_item(i: &SqlSelectItem, floats: &Vec<(String, Float)>) -> (r: Result<SelectItem, ParseError>)
    ensures
        item_result(r) == spec_select_item(*i, floats@),
{
    match i {
        SqlSelectItem::Unnamed(e, t) => parse_select_expr(e, t, floats),
        SqlSelectItem::WithAlias(e, t) => parse_select_expr(e, t, floats),
        SqlSelectItem::Wildcard => Ok(SelectItem::AllColumns),
        SqlSelectItem::Other(t) => Err(ParseError::UnsupportedSelectItem(t.clone())),
    }
}

fn parse_select_items(list: &Vec<SqlSelectItem>, floats: &Vec<(String, Float)>) -> (r: Result<Vec<SelectItem>, ParseError>)
    ensures
        match r {
            Ok(v) => spec_select_items(list@, floats@) == Ok::<Seq<SelectItemModel>, ParseErrorModel>(items_model(v@)),
            Err(x) => spec_select_items(list@, floats@) == Err::<Seq<SelectItemModel>, ParseErrorModel>(x@),
        },
{
    let mut out: Vec<SelectItem> = Vec::new();
    let mut i: usize = 0;
    assert(list@.take(0) =~= Seq::<SqlSelectItem>::empty());
    assert(items_model(out@) =~= Seq::<SelectItemModel>::empty());
    while i < list.len()
        invariant
            i <= list.len(),
            spec_select_items(list@.take(i as int), floats@) == Ok::<Seq<SelectItemModel>, ParseErrorModel>(items_model(out@)),
        decreases list.len() - i,
    {
        proof {
            assert(list@.take(i + 1).drop_last() =~= list@.take(i as int));
            assert(list@.take(i + 1).last() == list@[i as int]);
        }
        let m = match parse_select_item(&list[i], floats) {
            Ok(m) => m,
            Err(x) => {
                proof {
                    lemma_select_items_err(list@, floats@, i + 1);
                }
                return Err(x);
            },
        };
        let ghost before = out@;
        out.push(m);
        assert(items_model(out@) =~= items_model(before).push(m@));
        i = i + 1;
    }
    assert(list@.take(list.len() as int) =~= list@);
    Ok(out)
}

/// The text without its backquotes and double quotes.
fn strip_quotes_of(t: &str) -> (r: String)
    ensures
        r@ == strip_quotes(t@),
{
    let cs = crate::text::chars_of(t);
    let mut out: Vec<char> = Vec::new();
    let mut i: usize = 0;
    assert(cs@.take(0) =~= Seq::<char>::empty());
    while i < cs.len()
        invariant
            i <= cs.len(),
            out@ == strip_quotes(cs@.take(i as int)),
        decreases cs.len() - i,
    {
        assert(cs@.take(i + 1).drop_last() =~= cs@.take(i as int));
        assert(cs@.take(i + 1).last() == cs@[i as int]);
        if cs[i] != '`' && cs[i] != '"' {
            out.push(cs[i]);
        }
        i = i + 1;
    }
    assert(cs@.take(cs.len() as int) =~= cs@);
    string_of(&out)
}

fn parse_from(from: &Vec<String>) -> (r: String)
    ensures
        r@ == spec_from(from@),
{
    if from.len() == 0 {
        ".".to_owned()
    } else {
        strip_quotes_of(from[0].as_str())
    }
}

pub open spec fn order_result(r: Result<Vec<OrderBy>, ParseError>) -> Result<Seq<(ExprModel, OrderDir)>, ParseErrorModel> {
    match r {
        Ok(v) => Ok(order_model(v@)),
        Err(x) => Err(x@),
    }
}

fn parse_order_items(list: &Vec<(SqlExpr, Option<bool>)>, floats: &Vec<(String, Float)>) -> (r: Result<Vec<OrderBy>, ParseError>)
    ensures
        order_result(r) == spec_order_items(list@, floats@),
{
    let mut out: Vec<OrderBy> = Vec::new();
    let mut i: usize = 0;
    assert(list@.take(0) =~= Seq::<(SqlExpr, Option<bool>)>::empty());
    assert(order_model(out@) =~= Seq::<(ExprModel, OrderDir)>::empty());
    while i < list.len()
        invariant
            i <= list.len(),
            spec_order_items(list@.take(i as int), floats@) == Ok::<Seq<(ExprModel, OrderDir)>, ParseErrorModel>(order_model(out@)),
        decreases list.len() - i,
    {
        proof {
            assert(list@.take(i + 1).drop_last() =~= list@.take(i as int));
            assert(list@.take(i + 1).last() == list@[i as int]);
        }
        let m = match parse_expr(&list[i].0, floats) {
            Ok(m) => m,
            Err(x) => {
                proof {
                    lemma_order_items_err(list@, floats@, i + 1);
                }
                return Err(x);
            },
        };
        let dir = if list[i].1 == Some(false) {
            OrderDir::Desc
        } else {
            OrderDir::Asc
        };
        let ghost before = out@;
        let item = OrderBy { expr: m, dir };
        out.push(item);
        assert(order_model(out@) =~= order_model(before).push((item.expr@, item.dir)));
        i = i + 1;
    }
    assert(list@.take(list.len() as int) =~= list@);
    Ok(out)
}

fn parse_order(o: &Option<SqlOrderBy>, floats: &Vec<(String, Float)>) -> (r: Result<Vec<OrderBy>, ParseError>)
    ensures
        order_result(r) == spec_order(*o, floats@),
{
    match o {
        None => {
            let out: Vec<OrderBy> = Vec::new();
            assert(order_model(out@) =~= Seq::<(ExprModel, OrderDir)>::empty());
            Ok(out)
        },
        Some(SqlOrderBy::All) => Err(ParseError::OrderByAll),
        Some(SqlOrderBy::Expressions(v)) => parse_order_items(v, floats),
    }
}

fn parse_group_by(g: &SqlGroupBy, floats: &Vec<(String, Float)>) -> (r: Result<Vec<Expr>, ParseError>)
    ensures
        exprs_result(r) == spec_group_by(*g, floats@),
{
    match g {
        SqlGroupBy::All => Err(ParseError::GroupByAll),
        SqlGroupBy::Expressions(v) => parse_exprs(v, floats),
    }
}

fn parse_count(e: &Option<SqlExpr>, not_number: ParseError) -> (r: Result<Option<usize>, ParseError>)
    ensures
        match r {
            Ok(c) => spec_count(*e, not_number@) == Ok::<Option<usize>, ParseErrorModel>(c),
            Err(x) => spec_count(*e, not_number@) == Err::<Option<usize>, ParseErrorModel>(x@),
        },
{
    match e {
        None => Ok(None),
        Some(SqlExpr::Value(SqlValue::Number(n))) => match parse_usize(n.as_str()) {
            Ok(v) => Ok(Some(v)),
            Err(k) => Err(ParseError::BadCount(k)),
        },
        Some(_) => Err(not_number),
    }
}

fn parse_filter(w: &Option<SqlExpr>, floats: &Vec<(String, Float)>) -> (r: Result<Option<Expr>, ParseError>)
    ensures
        match r {
            Ok(Some(f)) => spec_filter(*w, floats@) == Ok::<Option<ExprModel>, ParseErrorModel>(Some(f@)),
            Ok(None) => spec_filter(*w, floats@) == Ok::<Option<ExprModel>, ParseErrorModel>(None),
            Err(x) => spec_filter(*w, floats@) == Err::<Option<ExprModel>, ParseErrorModel>(x@),
        },
{
    match w {
        None => Ok(None),
        Some(e) => match parse_expr(e, floats) {
            Ok(m) => Ok(Some(m)),
            Err(x) => Err(x),
        },
    }
}

/// The expression reads the body of the file (see `refs_content`).
pub fn expr_references_content(e: &Expr) -> (r: bool)
    ensures
        r == refs_content(e@),
    decreases e, 1int,
{
    match e {
        Expr::Column(name) => str_equal(name.as_str(), "content"),
        Expr::Function { name, args } => str_equal(name.as_str(), "MATCH") || str_equal(name.as_str(), "SNIPPET")
            || any_references_content(args),
        Expr::BinaryOp { left, right, .. } => expr_references_content(left) || expr_references_content(right),
        Expr::Not(inner) => expr_references_content(inner),
        Expr::IsNull(inner) => expr_references_content(inner),
        Expr::Like { expr, pattern } => expr_references_content(expr) || expr_references_content(pattern),
        Expr::InList { expr, list, .. } => expr_references_content(expr) || any_references_content(list),
        Expr::Literal(_) => false,
    }
}

fn any_references_content(list: &Vec<Expr>) -> (r: bool)
    ensures
        r == any_refs_content(exprs_model(list@)),
    decreases list, 0int,
{
    let mut found = false;
    let mut i: usize = 0;
    assert(list@.take(0) =~= Seq::<Expr>::empty());
    while i < list.len()
        invariant
            i <= list.len(),
            found == any_refs_content(exprs_model(list@.take(i as int))),
        decreases list.len() - i,
    {
        proof {
            assert(decreases_to!(list => list[i as int]));
            assert(list@.take(i + 1).drop_last() =~= list@.take(i as int));
            assert(list@.take(i + 1).last() == list@[i as int]);
            lemma_exprs_model_len(list@.take(i as int));
            assert(exprs_model(list@.take(i + 1)).drop_last() =~= exprs_model(list@.take(i as int)));
        }
        let here = expr_references_content(&list[i]);
        found = found || here;
        i = i + 1;
    }
    assert(list@.take(list.len() as int) =~= list@);
    found
}

fn item_reads_content(c: &SelectItem) -> (r: bool)
    ensures
        r == item_needs_content(c@),
{
    match c {
        SelectItem::Column(name) => str_equal(name.as_str(), "content"),
        SelectItem::AllColumns => true,
        SelectItem::Function { name, args } => str_equal(name.as_str(), "MATCH") || str_equal(name.as_str(), "SNIPPET")
            || any_references_content(args),
    }
}

fn item_is_count(c: &SelectItem) -> (r: bool)
    ensures
        r == is_count(c@),
{
    match c {
        SelectItem::Function { name, .. } => str_equal(name.as_str(), "COUNT"),
        _ => false,
    }
}

/// Whether a query with these columns and this filter needs the body of
/// the files.
pub fn needs_content(columns: &Vec<SelectItem>, filter: &Option<Expr>) -> (r: bool)
    ensures
        r == spec_needs_content(
            items_model(columns@),
            match filter {
                Some(f) => Some(f@),
                None => None,
            },
        ),
{
    let mut i: usize = 0;
    while i < columns.len()
        invariant
            i <= columns.len(),
            forall|j: int| 0 <= j < i ==> !item_needs_content(#[trigger] items_model(columns@)[j]),
        decreases columns.len() - i,
    {
        if item_reads_content(&columns[i]) {
            assert(item_needs_content(items_model(columns@)[i as int]));
            return true;
        }
        i = i + 1;
    }
    match filter {
        Some(f) => expr_references_content(f),
        None => false,
    }
}

/// Whether a query with these columns and this GROUP BY aggregates.
pub fn is_aggregate(columns: &Vec<SelectItem>, group_by: &Vec<Expr>) -> (r: bool)
    ensures
        r == spec_is_aggregate(items_model(columns@), exprs_model(group_by@)),
{
    proof {
        lemma_exprs_model_len(group_by@);
    }
    if group_by.len() > 0 {
        return true;
    }
    let mut i: usize = 0;
    while i < columns.len()
        invariant
            i <= columns.len(),
            forall|j: int| 0 <= j < i ==> !is_count(#[trigger] items_model(columns@)[j]),
        decreases columns.len() - i,
    {
        if item_is_count(&columns[i]) {
            assert(is_count(items_model(columns@)[i as int]));
            return true;
        }
        i = i + 1;
    }
    false
}

pub open spec fn query_result(r: Result<Query, ParseError>) -> Result<QueryModel, ParseErrorModel> {
    match r {
        Ok(q) => Ok(q@),
        Err(x) => Err(x@),
    }
}

/// Maps a SELECT onto the query model.
fn select_query(q: &SqlQuery, s: &SqlSelect, floats: &Vec<(String, Float)>) -> (r: Result<Query, ParseError>)
    ensures
        query_result(r) == spec_select_query(*q, *s, floats@),
{
    let columns = match parse_select_items(&s.projection, floats) {
        Ok(c) => c,
        Err(x) => {
            return Err(x);
        },
    };
    let from = parse_from(&s.from);
    let filter = match parse_filter(&s.selection, floats) {
        Ok(f) => f,
        Err(x) => {
            return Err(x);
        },
    };
    let group_by = match parse_group_by(&s.group_by, floats) {
        Ok(g) => g,
        Err(x) => {
            return Err(x);
        },
    };
    let order_by = match parse_order(&q.order_by, floats) {
        Ok(o) => o,
        Err(x) => {
            return Err(x);
        },
    };
    let limit = match parse_count(&q.limit, ParseError::LimitNotNumber) {
        Ok(l) => l,
        Err(x) => {
            return Err(x);
        },
    };
    let offset = match parse_count(&q.offset, ParseError::OffsetNotNumber) {
        Ok(o) => o,
        Err(x) => {
            return Err(x);
        },
    };
    let needs = needs_content(&columns, &filter);
    let aggregate = is_aggregate(&columns, &group_by);
    Ok(Query {
        columns,
        from,
        filter,
        order_by,
        group_by,
        limit,
        offset,
        needs_content: needs,
        is_aggregate: aggregate,
        distinct: s.distinct,
    })
}

/// Maps the statements that `sqlparser` gives onto the query model: there
/// must be exactly one, a query whose body is a plain SELECT.
pub fn statements_query(stmts: &Vec<SqlStatement>, floats: &Vec<(String, Float)>) -> (r: Result<Query, ParseError>)
    ensures
        query_result(r) == spec_statements_query(stmts@, floats@),
{
    if stmts.len() != 1 {
        return Err(ParseError::NotOneStatement);
    }
    match &stmts[0] {
        SqlStatement::Other => Err(ParseError::NotSelect),
        SqlStatement::Query(q) => match &q.body {
            SqlBody::Other => Err(ParseError::NotSimpleSelect),
            SqlBody::Select(s) => select_query(q, s, floats),
        },
    }
}

/// Preprocesses the query text and parses it with `sqlparser`: the
/// statements, or `sqlparser`'s message.
pub fn sql_statements(sql: &str) -> (r: Result<Vec<SqlStatement>, ParseError>)
    requires
        spec_preprocess_sql(sql@) is Some,
    ensures
        match (r, spec_sql_parse(spec_preprocess_sql(sql@).unwrap())) {
            (Ok(v), Ok(w)) => v@ == w,
            (Err(x), Err(e)) => x@ == ParseErrorModel::Sql(e),
            _ => false,
        },
{
    let text = match preprocess_sql(sql) {
        Some(t) => t,
        None => {
            return Err(ParseError::Sql(String::new()));
        },
    };
    match sql_parse(text.as_str()) {
        Ok(v) => Ok(v),
        Err(e) => Err(ParseError::Sql(e)),
    }
}

/// Parses a query. `floats` gives the value of each number literal that is
/// not an `i64` (see `float_literals`); the text must be one that
/// preprocessing accepts (`preprocess_sql` gives `Some`); the program
/// refuses the others before parsing.
pub fn parse(sql: &str, floats: &Vec<(String, Float)>) -> (r: Result<Query, ParseError>)
    requires
        spec_preprocess_sql(sql@) is Some,
    ensures
        query_result(r) == spec_parse(sql@, floats@),
{
    match sql_statements(sql) {
        Ok(stmts) => statements_query(&stmts, floats),
        Err(x) => Err(x),
    }
}

/// Parses a query from any text: `None` where preprocessing refuses the
/// text, else the outcome of `parse`.
pub fn parse_text(sql: &str, floats: &Vec<(String, Float)>) -> (r: Option<Result<Query, ParseError>>)
    ensures
        r is None <==> spec_preprocess_sql(sql@) is None,
        r is Some ==> query_result(r.unwrap()) == spec_parse(sql@, floats@),
{
    match preprocess_sql(sql) {
        None => None,
        Some(_) => Some(parse(sql, floats)),
    }
}

/// The texts of the number literals of an expression, left to right.
pub open spec fn expr_numbers(e: SqlExpr) -> Seq<Seq<char>>
    decreases e,
{
    match e {
        SqlExpr::Value(SqlValue::Number(n)) => seq![n@],
        SqlExpr::BinaryOp(l, _, r) => expr_numbers(*l) + expr_numbers(*r),
        SqlExpr::Not(i) => expr_numbers(*i),
        SqlExpr::Nested(i) => expr_numbers(*i),
        SqlExpr::IsNull(i) => expr_numbers(*i),
        SqlExpr::IsNotNull(i) => expr_numbers(*i),
        SqlExpr::Like { expr, pattern, .. } => expr_numbers(*expr) + expr_numbers(*pattern),
        SqlExpr::InList { expr, list, .. } => expr_numbers(*expr) + list_numbers(list@),
        SqlExpr::Function { args, .. } => match args {
            SqlFunctionArgs::List(l) => arg_numbers(l@),
            _ => Seq::empty(),
        },
        _ => Seq::empty(),
    }
}

pub open spec fn list_numbers(s: Seq<SqlExpr>) -> Seq<Seq<char>>
    decreases s,
{
    if s.len() == 0 {
        Seq::empty()
    } else {
        list_numbers(s.drop_last()) + expr_numbers(s.last())
    }
}

pub open spec fn arg_numbers(s: Seq<SqlFunctionArg>) -> Seq<Seq<char>>
    decreases s,
{
    if s.len() == 0 {
        Seq::empty()
    } else {
        arg_numbers(s.drop_last()) + match s.last() {
            SqlFunctionArg::Expr(e) => expr_numbers(e),
            _ => Seq::empty(),
        }
    }
}

pub open spec fn item_numbers(s: Seq<SqlSelectItem>) -> Seq<Seq<char>>
    decreases s.len(),
{
    if s.len() == 0 {
        Seq::empty()
    } else {
        item_numbers(s.drop_last()) + match s.last() {
            SqlSelectItem::Unnamed(e, _) => expr_numbers(e),
            SqlSelectItem::WithAlias(e, _) => expr_numbers(e),
            _ => Seq::empty(),
        }
    }
}

pub open spec fn order_numbers(s: Seq<(SqlExpr, Option<bool>)>) -> Seq<Seq<char>>
    decreases s.len(),
{
    if s.len() == 0 {
        Seq::empty()
    } else {
        order_numbers(s.drop_last()) + expr_numbers(s.last().0)
    }
}

/// The texts of the number literals that a query's expressions hold (the
/// list, WHERE, GROUP BY and ORDER BY; LIMIT and OFFSET are read as counts).
pub open spec fn statement_numbers(stmts: Seq<SqlStatement>) -> Seq<Seq<char>> {
    if stmts.len() == 1 {
        match stmts[0] {
            SqlStatement::Query(q) => match q.body {
                SqlBody::Select(s) => item_numbers(s.projection@) + match s.selection {
                    Some(w) => expr_numbers(w),
                    None => Seq::empty(),
                } + match s.group_by {
                    SqlGroupBy::Expressions(v) => list_numbers(v@),
                    SqlGroupBy::All => Seq::empty(),
                } + match q.order_by {
                    Some(SqlOrderBy::Expressions(v)) => order_numbers(v@),
                    _ => Seq::empty(),
                },
                SqlBody::Other => Seq::empty(),
            },
            SqlStatement::Other => Seq::empty(),
        }
    } else {
        Seq::empty()
    }
}


fn collect_expr(e: &SqlExpr, out: &mut Vec<String>)
    ensures
        texts(final(out)@) == texts(old(out)@) + expr_numbers(*e),
    decreases e, 2int,
{
    match e {
        SqlExpr::Value(SqlValue::Number(n)) => {
            proof {
                lemma_texts_push(out@, *n);
            }
            out.push(n.clone());
            assert(seq![n@] =~= Seq::<Seq<char>>::empty().push(n@));
        },
        SqlExpr::BinaryOp(l, _, r) => {
            collect_expr(l, out);
            collect_expr(r, out);
            assert(texts(old(out)@) + expr_numbers(**l) + expr_numbers(**r) =~= texts(old(out)@) + expr_numbers(*e));
        },
        SqlExpr::Not(i) => collect_expr(i, out),
        SqlExpr::Nested(i) => collect_expr(i, out),
        SqlExpr::IsNull(i) => collect_expr(i, out),
        SqlExpr::IsNotNull(i) => collect_expr(i, out),
        SqlExpr::Like { expr, pattern, .. } => {
            collect_expr(expr, out);
            collect_expr(pattern, out);
            assert(texts(old(out)@) + expr_numbers(**expr) + expr_numbers(**pattern) =~= texts(old(out)@) + expr_numbers(*e));
        },
        SqlExpr::InList { expr, list, .. } => {
            collect_expr(expr, out);
            collect_list(list, out);
            assert(texts(old(out)@) + expr_numbers(**expr) + list_numbers(list@) =~= texts(old(out)@) + expr_numbers(*e));
        },
        SqlExpr::Function { args, .. } => match args {
            SqlFunctionArgs::List(l) => collect_args(l, out),
            _ => {
                assert(texts(out@) + Seq::<Seq<char>>::empty() =~= texts(out@));
            },
        },
        _ => {
            assert(texts(out@) + Seq::<Seq<char>>::empty() =~= texts(out@));
        },
    }
}

fn collect_list(list: &Vec<SqlExpr>, out: &mut Vec<String>)
    ensures
        texts(final(out)@) == texts(old(out)@) + list_numbers(list@),
    decreases list, 1int,
{
    let mut i: usize = 0;
    assert(list@.take(0) =~= Seq::<SqlExpr>::empty());
    assert(texts(out@) + list_numbers(list@.take(0)) =~= texts(out@));
    while i < list.len()
        invariant
            i <= list.len(),
            texts(out@) == texts(old(out)@) + list_numbers(list@.take(i as int)),
        decreases list.len() - i,
    {
        proof {
            assert(decreases_to!(list => list[i as int]));
            assert(list@.take(i + 1).drop_last() =~= list@.take(i as int));
            assert(list@.take(i + 1).last() == list@[i as int]);
        }
        let ghost before = texts(out@);
        collect_expr(&list[i], out);
        assert(texts(old(out)@) + list_numbers(list@.take(i + 1)) =~= before + expr_numbers(list@[i as int]));
        i = i + 1;
    }
    assert(list@.take(list.len() as int) =~= list@);
}

fn collect_args(list: &Vec<SqlFunctionArg>, out: &mut Vec<String>)
    ensures
        texts(final(out)@) == texts(old(out)@) + arg_numbers(list@),
    decreases list, 1int,
{
    let mut i: usize = 0;
    assert(list@.take(0) =~= Seq::<SqlFunctionArg>::empty());
    assert(texts(out@) + arg_numbers(list@.take(0)) =~= texts(out@));
    while i < list.len()
        invariant
            i <= list.len(),
            texts(out@) == texts(old(out)@) + arg_numbers(list@.take(i as int)),
        decreases list.len() - i,
    {
        proof {
            assert(decreases_to!(list => list[i as int]));
            assert(list@.take(i + 1).drop_last() =~= list@.take(i as int));
            assert(list@.take(i + 1).last() == list@[i as int]);
        }
        let ghost before = texts(out@);
        match &list[i] {
            SqlFunctionArg::Expr(e) => {
                proof {
                    assert(decreases_to!(list[i as int] => *e));
                }
                collect_expr(e, out);
            },
            _ => {
                assert(texts(out@) + Seq::<Seq<char>>::empty() =~= texts(out@));
            },
        }
        assert(texts(old(out)@) + arg_numbers(list@.take(i + 1)) =~= before + match list@[i as int] {
            SqlFunctionArg::Expr(e) => expr_numbers(e),
            _ => Seq::empty(),
        });
        i = i + 1;
    }
    assert(list@.take(list.len() as int) =~= list@);
}

/// The texts of the number literals of the statements' expressions (see
/// `statement_numbers`): the texts that `parse` may look up in its float
/// table.
pub fn float_literals(stmts: &Vec<SqlStatement>) -> (r: Vec<String>)
    ensures
        texts(r@) == statement_numbers(stmts@),
{
    let mut out: Vec<String> = Vec::new();
    assert(texts(out@) =~= Seq::<Seq<char>>::empty());
    if stmts.len() != 1 {
        return out;
    }
    match &stmts[0] {
        SqlStatement::Query(q) => match &q.body {
            SqlBody::Select(s) => {
                let mut i: usize = 0;
                assert(s.projection@.take(0) =~= Seq::<SqlSelectItem>::empty());
                while i < s.projection.len()
                    invariant
                        i <= s.projection.len(),
                        texts(out@) == item_numbers(s.projection@.take(i as int)),
                    decreases s.projection.len() - i,
                {
                    assert(s.projection@.take(i + 1).drop_last() =~= s.projection@.take(i as int));
                    assert(s.projection@.take(i + 1).last() == s.projection@[i as int]);
                    let ghost before = texts(out@);
                    match &s.projection[i] {
                        SqlSelectItem::Unnamed(e, _) => collect_expr(e, &mut out),
                        SqlSelectItem::WithAlias(e, _) => collect_expr(e, &mut out),
                        _ => {
                            assert(texts(out@) + Seq::<Seq<char>>::empty() =~= texts(out@));
                        },
                    }
                    i = i + 1;
                }
                assert(s.projection@.take(s.projection.len() as int) =~= s.projection@);
                let ghost items = texts(out@);
                match &s.selection {
                    Some(w) => collect_expr(w, &mut out),
                    None => {
                        assert(texts(out@) + Seq::<Seq<char>>::empty() =~= texts(out@));
                    },
                }
                let ghost with_filter = texts(out@);
                match &s.group_by {
                    SqlGroupBy::Expressions(v) => collect_list(v, &mut out),
                    SqlGroupBy::All => {
                        assert(texts(out@) + Seq::<Seq<char>>::empty() =~= texts(out@));
                    },
                }
                let ghost with_groups = texts(out@);
                match &q.order_by {
                    Some(SqlOrderBy::Expressions(v)) => {
                        let mut j: usize = 0;
                        assert(v@.take(0) =~= Seq::<(SqlExpr, Option<bool>)>::empty());
                        assert(with_groups + order_numbers(v@.take(0)) =~= with_groups);
                        while j < v.len()
                            invariant
                                j <= v.len(),
                                texts(out@) == with_groups + order_numbers(v@.take(j as int)),
                            decreases v.len() - j,
                        {
                            assert(v@.take(j + 1).drop_last() =~= v@.take(j as int));
                            assert(v@.take(j + 1).last() == v@[j as int]);
                            let ghost before = texts(out@);
                            collect_expr(&v[j].0, &mut out);
                            assert(with_groups + order_numbers(v@.take(j + 1)) =~= before + expr_numbers(v@[j as int].0));
                            j = j + 1;
                        }
                        assert(v@.take(v.len() as int) =~= v@);
                    },
                    _ => {
                        assert(texts(out@) + Seq::<Seq<char>>::empty() =~= texts(out@));
                    },
                }
                out
            },
            SqlBody::Other => out,
        },
        SqlStatement::Other => out,
    }
}

/// What a SQL binary operator says of two values: equality and its
/// negation, the four orderings of comparable values, and the logical
/// connectives on truthiness.
pub open spec fn sql_op_holds(op: SqlBinOp, x: ValueModel, y: ValueModel) -> bool {
    match op {
        SqlBinOp::Eq => spec_equal(x, y),
        SqlBinOp::NotEq => !spec_equal(x, y),
        SqlBinOp::Lt => compare_sign(x, y) matches Some(s) && s < 0,
        SqlBinOp::LtEq => compare_sign(x, y) matches Some(s) && s <= 0,
        SqlBinOp::Gt => compare_sign(x, y) matches Some(s) && s > 0,
        SqlBinOp::GtEq => compare_sign(x, y) matches Some(s) && s >= 0,
        SqlBinOp::And => spec_truthy(x) && spec_truthy(y),
        SqlBinOp::Or => spec_truthy(x) || spec_truthy(y),
        SqlBinOp::Other(_) => false,
    }
}

/// Law: every SQL operator but the unsupported ones parses to an operator
/// that, evaluated on any two values, says what the SQL operator says. In
/// particular `v <= v` and `v >= v` hold and `v < v` and `v > v` do not, for
/// any value `v` comparable with itself.
pub proof fn law_operators_keep_their_meaning(op: SqlBinOp, x: ValueModel, y: ValueModel)
    ensures
        spec_binop(op) is Err <==> op is Other,
        spec_binop(op) matches Ok(b) ==> apply_binop(b, x, y) == ValueModel::Bool(sql_op_holds(op, x, y)),
        compare_sign(x, x) is Some ==> {
            &&& (op is LtEq || op is GtEq) ==> apply_binop(spec_binop(op)->Ok_0, x, x) == ValueModel::Bool(true)
            &&& (op is Lt || op is Gt) ==> apply_binop(spec_binop(op)->Ok_0, x, x) == ValueModel::Bool(false)
        },
{
    lemma_compare_sign_range(x, y);
    lemma_compare_sign_range(x, x);
    law_compare_antisymmetric(x, x);
}

/// Law: a parsed binary expression carries an operator that says what the
/// SQL operator written in the query says, on any two values.
pub proof fn law_parsed_operator(l: SqlExpr, op: SqlBinOp, r: SqlExpr, floats: Seq<(String, Float)>)
    ensures
        spec_expr(SqlExpr::BinaryOp(Box::new(l), op, Box::new(r)), floats) matches Ok(ExprModel::BinaryOp(_, b, _))
            ==> forall|x: ValueModel, y: ValueModel| #[trigger] apply_binop(b, x, y) == ValueModel::Bool(
            sql_op_holds(op, x, y),
        ),
{
    if spec_binop(op) is Ok {
        let b = spec_binop(op)->Ok_0;
        assert forall|x: ValueModel, y: ValueModel| #[trigger] apply_binop(b, x, y) == ValueModel::Bool(sql_op_holds(op, x, y)) by {
            law_operators_keep_their_meaning(op, x, y);
        }
    }
}

} // verus!
