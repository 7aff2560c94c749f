//! The part of a SQL syntax tree that the query language reads, and the call
//! into `sqlparser` that produces it.
//!
//! `sqlparser` parses the (preprocessed) query text with its generic dialect;
//! the functions below only copy the parsed tree into these types, node for
//! node. Where the language has no use for a node, its text (as `sqlparser`
//! displays it) is kept for error messages.
use vstd::prelude::*;
use sqlparser::ast as sa;
use sqlparser::ast::{
    BinaryOperator as ParsedBinaryOperator, Expr as ParsedExpr, FunctionArg as ParsedFunctionArg,
    FunctionArguments as ParsedFunctionArguments, GroupByExpr as ParsedGroupByExpr,
    OrderBy as ParsedOrderBy, Query as ParsedQuery, Select as ParsedSelect,
    SelectItem as ParsedSelectItem, SetExpr as ParsedSetExpr, Statement as ParsedStatement,
    Value as ParsedValue,
};
use sqlparser::dialect::GenericDialect;
use sqlparser::parser::Parser;

verus! {

/// A literal value.
pub enum SqlValue {
    SingleQuoted(String),
    DoubleQuoted(String),
    /// A number, as written.
    Number(String),
    Boolean(bool),
    Null,
    /// Any other literal, by its text.
    Other(String),
}

/// A binary operator.
pub enum SqlBinOp {
    Eq,
    NotEq,
    Lt,
    LtEq,
    Gt,
    GtEq,
    And,
    Or,
    /// Any other operator, by its text.
    Other(String),
}

/// One argument of a function call.
pub enum SqlFunctionArg {
    Expr(SqlExpr),
    Wildcard,
    /// A named or qualified argument.
    Other,
}

/// The arguments of a function call.
pub enum SqlFunctionArgs {
    Absent,
    Subquery,
    List(Vec<SqlFunctionArg>),
}

/// An expression.
pub enum SqlExpr {
    Identifier(String),
    Value(SqlValue),
    BinaryOp(Box<SqlExpr>, SqlBinOp, Box<SqlExpr>),
    /// `NOT <expr>`.
    Not(Box<SqlExpr>),
    Like { negated: bool, expr: Box<SqlExpr>, pattern: Box<SqlExpr> },
    InList { expr: Box<SqlExpr>, list: Vec<SqlExpr>, negated: bool },
    /// A call, with the function's name as written.
    Function { name: String, args: SqlFunctionArgs },
    Nested(Box<SqlExpr>),
    IsNull(Box<SqlExpr>),
    IsNotNull(Box<SqlExpr>),
    /// Any other expression, by its text.
    Other(String),
}

/// An item of the SELECT list. The expressions carry their own text.
pub enum SqlSelectItem {
    Unnamed(SqlExpr, String),
    WithAlias(SqlExpr, String),
    Wildcard,
    /// A qualified wildcard, by the item's text.
    Other(String),
}

/// The GROUP BY clause.
pub enum SqlGroupBy {
    All,
    Expressions(Vec<SqlExpr>),
}

/// The ORDER BY clause: `All`, or expressions with their `ASC`/`DESC`
/// (`None` where neither is written).
pub enum SqlOrderBy {
    All,
    Expressions(Vec<(SqlExpr, Option<bool>)>),
}

/// A SELECT: whether it is DISTINCT, its list, the text of each table in
/// FROM, WHERE and GROUP BY.
pub struct SqlSelect {
    pub distinct: bool,
    pub projection: Vec<SqlSelectItem>,
    pub from: Vec<String>,
    pub selection: Option<SqlExpr>,
    pub group_by: SqlGroupBy,
}

/// The body of a query.
pub enum SqlBody {
    Select(SqlSelect),
    /// A set operation, VALUES, a nested query or anything else.
    Other,
}

/// A query with its ORDER BY, LIMIT and OFFSET.
pub struct SqlQuery {
    pub body: SqlBody,
    pub order_by: Option<SqlOrderBy>,
    pub limit: Option<SqlExpr>,
    pub offset: Option<SqlExpr>,
}

/// A statement.
pub enum SqlStatement {
    Query(SqlQuery),
    Other,
}

#[verifier::external_type_specification]
#[verifier::external_body]
pub struct ExStatement(ParsedStatement);

#[verifier::external_type_specification]
#[verifier::external_body]
pub struct ExQuery(ParsedQuery);

#[verifier::external_type_specification]
#[verifier::external_body]
pub struct ExSetExpr(ParsedSetExpr);

#[verifier::external_type_specification]
#[verifier::external_body]
pub struct ExSelect(ParsedSelect);

#[verifier::external_type_specification]
#[verifier::external_body]
pub struct ExGroupByExpr(ParsedGroupByExpr);

#[verifier::external_type_specification]
#[verifier::external_body]
pub struct ExOrderBy(ParsedOrderBy);

#[verifier::external_type_specification]
#[verifier::external_body]
pub struct ExSelectItem(ParsedSelectItem);

#[verifier::external_type_specification]
#[verifier::external_body]
pub struct ExExpr(ParsedExpr);

#[verifier::external_type_specification]
#[verifier::external_body]
pub struct ExValue(ParsedValue);

#[verifier::external_type_specification]
#[verifier::external_body]
pub struct ExBinaryOperator(ParsedBinaryOperator);

#[verifier::external_type_specification]
#[verifier::external_body]
pub struct ExFunctionArguments(ParsedFunctionArguments);

#[verifier::external_type_specification]
#[verifier::external_body]
pub struct ExFunctionArg(ParsedFunctionArg);

/// What `sqlparser` makes of `sql` with its generic dialect: the statements,
/// or the text of its error. The parse depends on the text alone.
pub uninterp spec fn spec_sql_parse(sql: Seq<char>) -> Result<Seq<SqlStatement>, Seq<char>>;

/// Calls `sqlparser::parser::Parser::parse_sql` with the generic dialect and
/// copies the statements into the library's syntax tree (or the error into
/// its display text). Claimed: the outcome is `spec_sql_parse` of the text.
/// The copying is done by the `*_model` functions below, each of which takes
/// one kind of node apart and copies its fields, nothing else.
#[verifier::external_body]
pub(crate) fn sql_parse(sql: &str) -> (r: Result<Vec<SqlStatement>, String>)
    ensures
        match r {
            Ok(v) => spec_sql_parse(sql@) == Ok::<Seq<SqlStatement>, Seq<char>>(v@),
            Err(e) => spec_sql_parse(sql@) == Err::<Seq<SqlStatement>, Seq<char>>(e@),
        },
{
    match Parser::parse_sql(&GenericDialect {}, sql) {
        Ok(statements) => Ok(statements.iter().map(statement_model).collect()),
        Err(e) => Err(e.to_string()),
    }
}

/// Copies a statement (part of `sql_parse`).
#[verifier::external_body]
fn statement_model(s: &ParsedStatement) -> SqlStatement {
    match s {
        sa::Statement::Query(q) => SqlStatement::Query(query_model(q)),
        _ => SqlStatement::Other,
    }
}

/// Copies a query (part of `sql_parse`).
#[verifier::external_body]
fn query_model(q: &ParsedQuery) -> SqlQuery {
    SqlQuery {
        body: body_model(&q.body),
        order_by: q.order_by.as_ref().map(order_by_model),
        limit: q.limit.as_ref().map(expr_model),
        offset: q.offset.as_ref().map(|o| expr_model(&o.value)),
    }
}

/// Copies a query body (part of `sql_parse`).
#[verifier::external_body]
fn body_model(b: &ParsedSetExpr) -> SqlBody {
    match b {
        sa::SetExpr::Select(s) => SqlBody::Select(select_model(s)),
        _ => SqlBody::Other,
    }
}

/// Copies a SELECT (part of `sql_parse`).
#[verifier::external_body]
fn select_model(s: &ParsedSelect) -> SqlSelect {
    SqlSelect {
        distinct: s.distinct.is_some(),
        projection: s.projection.iter().map(select_item_model).collect(),
        from: s.from.iter().map(|t| t.relation.to_string()).collect(),
        selection: s.selection.as_ref().map(expr_model),
        group_by: group_by_model(&s.group_by),
    }
}

/// Copies a GROUP BY clause (part of `sql_parse`).
#[verifier::external_body]
fn group_by_model(g: &ParsedGroupByExpr) -> SqlGroupBy {
    match g {
        sa::GroupByExpr::All(_) => SqlGroupBy::All,
        sa::GroupByExpr::Expressions(es, _) => SqlGroupBy::Expressions(es.iter().map(expr_model).collect()),
    }
}

/// Copies an ORDER BY clause (part of `sql_parse`).
#[verifier::external_body]
fn order_by_model(o: &ParsedOrderBy) -> SqlOrderBy {
    match &o.kind {
        sa::OrderByKind::All(_) => SqlOrderBy::All,
        sa::OrderByKind::Expressions(es) => {
            SqlOrderBy::Expressions(es.iter().map(|x| (expr_model(&x.expr), x.options.asc)).collect())
        },
    }
}

/// Copies an item of the SELECT list (part of `sql_parse`).
#[verifier::external_body]
fn select_item_model(i: &ParsedSelectItem) -> SqlSelectItem {
    match i {
        sa::SelectItem::UnnamedExpr(e) => SqlSelectItem::Unnamed(expr_model(e), e.to_string()),
        sa::SelectItem::ExprWithAlias { expr, .. } => SqlSelectItem::WithAlias(expr_model(expr), expr.to_string()),
        sa::SelectItem::Wildcard(_) => SqlSelectItem::Wildcard,
        _ => SqlSelectItem::Other(i.to_string()),
    }
}

/// Copies an expression (part of `sql_parse`); the variants it does not
/// take itself go to `expr_model_rest`.
#[verifier::external_body]
fn expr_model(e: &ParsedExpr) -> SqlExpr {
    match e {
        sa::Expr::Identifier(i) => SqlExpr::Identifier(i.value.clone()),
        sa::Expr::Value(v) => SqlExpr::Value(value_model(&v.value)),
        sa::Expr::BinaryOp { left, op, right } => {
            SqlExpr::BinaryOp(Box::new(expr_model(left)), binop_model(op), Box::new(expr_model(right)))
        },
        sa::Expr::UnaryOp { op: sa::UnaryOperator::Not, expr } => SqlExpr::Not(Box::new(expr_model(expr))),
        sa::Expr::Nested(inner) => SqlExpr::Nested(Box::new(expr_model(inner))),
        _ => expr_model_rest(e),
    }
}

/// Copies the expressions that `expr_model` passes on (part of `sql_parse`).
#[verifier::external_body]
fn expr_model_rest(e: &ParsedExpr) -> SqlExpr {
    match e {
        sa::Expr::Like { negated, expr, pattern, .. } => SqlExpr::Like {
            negated: *negated,
            expr: Box::new(expr_model(expr)),
            pattern: Box::new(expr_model(pattern)),
        },
        sa::Expr::InList { expr, list, negated } => SqlExpr::InList {
            expr: Box::new(expr_model(expr)),
            list: list.iter().map(expr_model).collect(),
            negated: *negated,
        },
        _ => expr_model_last(e),
    }
}

/// Copies the expressions that `expr_model_rest` passes on (part of
/// `sql_parse`).
#[verifier::external_body]
fn expr_model_last(e: &ParsedExpr) -> SqlExpr {
    match e {
        sa::Expr::Function(f) => SqlExpr::Function { name: f.name.to_string(), args: function_args_model(&f.args) },
        sa::Expr::IsNull(inner) => SqlExpr::IsNull(Box::new(expr_model(inner))),
        sa::Expr::IsNotNull(inner) => SqlExpr::IsNotNull(Box::new(expr_model(inner))),
        _ => SqlExpr::Other(e.to_string()),
    }
}

/// Copies a literal value (part of `sql_parse`).
#[verifier::external_body]
fn value_model(v: &ParsedValue) -> SqlValue {
    match v {
        sa::Value::SingleQuotedString(s) => SqlValue::SingleQuoted(s.clone()),
        sa::Value::DoubleQuotedString(s) => SqlValue::DoubleQuoted(s.clone()),
        sa::Value::Number(n, _) => SqlValue::Number(n.clone()),
        sa::Value::Boolean(b) => SqlValue::Boolean(*b),
        sa::Value::Null => SqlValue::Null,
        _ => SqlValue::Other(v.to_string()),
    }
}

/// Copies a binary operator (part of `sql_parse`).
#[verifier::external_body]
fn binop_model(op: &ParsedBinaryOperator) -> SqlBinOp {
    match op {
        sa::BinaryOperator::Eq => SqlBinOp::Eq,
        sa::BinaryOperator::NotEq => SqlBinOp::NotEq,
        sa::BinaryOperator::Lt => SqlBinOp::Lt,
        sa::BinaryOperator::LtEq => SqlBinOp::LtEq,
        sa::BinaryOperator::Gt => SqlBinOp::Gt,
        sa::BinaryOperator::GtEq => SqlBinOp::GtEq,
        sa::BinaryOperator::And => SqlBinOp::And,
        sa::BinaryOperator::Or => SqlBinOp::Or,
        _ => SqlBinOp::Other(op.to_string()),
    }
}

/// Copies the arguments of a call (part of `sql_parse`).
#[verifier::external_body]
fn function_args_model(a: &ParsedFunctionArguments) -> SqlFunctionArgs {
    match a {
        sa::FunctionArguments::None => SqlFunctionArgs::Absent,
        sa::FunctionArguments::Subquery(_) => SqlFunctionArgs::Subquery,
        sa::FunctionArguments::List(l) => SqlFunctionArgs::List(l.args.iter().map(function_arg_model).collect()),
    }
}

/// Copies one argument of a call (part of `sql_parse`).
#[verifier::external_body]
fn function_arg_model(a: &ParsedFunctionArg) -> SqlFunctionArg {
    match a {
        sa::FunctionArg::Unnamed(sa::FunctionArgExpr::Expr(e)) => SqlFunctionArg::Expr(expr_model(e)),
        sa::FunctionArg::Unnamed(sa::FunctionArgExpr::Wildcard) => SqlFunctionArg::Wildcard,
        _ => SqlFunctionArg::Other,
    }
}

} // verus!
