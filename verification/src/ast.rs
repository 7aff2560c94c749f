//! The query model: what a parsed mdquery query holds.
use vstd::prelude::*;
use crate::value::{Value, ValueModel};

verus! {

broadcast use vstd::std_specs::vec::axiom_vec_decreases_to_view,
    vstd::std_specs::vec::axiom_vec_index_decreases;

/// A parsed mdquery query.
#[derive(Debug)]
pub struct Query {
    pub columns: Vec<SelectItem>,
    pub from: String,
    pub filter: Option<Expr>,
    pub order_by: Vec<OrderBy>,
    pub group_by: Vec<Expr>,
    pub limit: Option<usize>,
    pub offset: Option<usize>,
    pub needs_content: bool,
    pub is_aggregate: bool,
    pub distinct: bool,
}

/// A column in the SELECT clause.
#[derive(Debug)]
pub enum SelectItem {
    Column(String),
    AllColumns,
    Function { name: String, args: Vec<Expr> },
}

/// An expression in WHERE, ORDER BY, or function arguments.
#[derive(Debug)]
pub enum Expr {
    Column(String),
    Literal(Value),
    BinaryOp { left: Box<Expr>, op: BinOp, right: Box<Expr> },
    Not(Box<Expr>),
    Like { expr: Box<Expr>, pattern: Box<Expr> },
    InList { expr: Box<Expr>, list: Vec<Expr>, negated: bool },
    IsNull(Box<Expr>),
    Function { name: String, args: Vec<Expr> },
}

/// A binary operator.
#[derive(Debug, Clone, Copy, PartialEq, Eq, Structural)]
pub enum BinOp {
    Eq,
    NotEq,
    Lt,
    LtEq,
    Gt,
    GtEq,
    And,
    Or,
}

/// One key of the ORDER BY clause.
#[derive(Debug)]
pub struct OrderBy {
    pub expr: Expr,
    pub dir: OrderDir,
}

/// Sort direction.
#[derive(Debug, Clone, Copy, PartialEq, Eq, Structural)]
pub enum OrderDir {
    Asc,
    Desc,
}

/// The mathematical content of an `Expr`.
pub enum ExprModel {
    Column(Seq<char>),
    Literal(ValueModel),
    BinaryOp(Box<ExprModel>, BinOp, Box<ExprModel>),
    Not(Box<ExprModel>),
    Like(Box<ExprModel>, Box<ExprModel>),
    InList(Box<ExprModel>, Seq<ExprModel>, bool),
    IsNull(Box<ExprModel>),
    Function(Seq<char>, Seq<ExprModel>),
}

pub open spec fn expr_model(e: Expr) -> ExprModel
    decreases e,
{
    match e {
        Expr::Column(name) => ExprModel::Column(name@),
        Expr::Literal(v) => ExprModel::Literal(v@),
        Expr::BinaryOp { left, op, right } => ExprModel::BinaryOp(
            Box::new(expr_model(*left)),
            op,
            Box::new(expr_model(*right)),
        ),
        Expr::Not(inner) => ExprModel::Not(Box::new(expr_model(*inner))),
        Expr::Like { expr, pattern } => ExprModel::Like(
            Box::new(expr_model(*expr)),
            Box::new(expr_model(*pattern)),
        ),
        Expr::InList { expr, list, negated } => ExprModel::InList(
            Box::new(expr_model(*expr)),
            exprs_model(list@),
            negated,
        ),
        Expr::IsNull(inner) => ExprModel::IsNull(Box::new(expr_model(*inner))),
        Expr::Function { name, args } => ExprModel::Function(name@, exprs_model(args@)),
    }
}

pub open spec fn exprs_model(s: Seq<Expr>) -> Seq<ExprModel>
    decreases s,
{
    if s.len() == 0 {
        Seq::empty()
    } else {
        exprs_model(s.drop_last()).push(expr_model(s.last()))
    }
}

impl View for Expr {
    type V = ExprModel;

    open spec fn view(&self) -> ExprModel {
        expr_model(*self)
    }
}

/// The mathematical content of a `SelectItem`.
pub enum SelectItemModel {
    Column(Seq<char>),
    AllColumns,
    Function(Seq<char>, Seq<ExprModel>),
}

impl View for SelectItem {
    type V = SelectItemModel;

    open spec fn view(&self) -> SelectItemModel {
        match self {
            SelectItem::Column(name) => SelectItemModel::Column(name@),
            SelectItem::AllColumns => SelectItemModel::AllColumns,
            SelectItem::Function { name, args } => SelectItemModel::Function(name@, exprs_model(args@)),
        }
    }
}

pub open spec fn items_model(s: Seq<SelectItem>) -> Seq<SelectItemModel> {
    s.map_values(|i: SelectItem| i@)
}

pub open spec fn order_model(s: Seq<OrderBy>) -> Seq<(ExprModel, OrderDir)> {
    s.map_values(|o: OrderBy| (o.expr@, o.dir))
}

/// The mathematical content of a `Query`.
pub struct QueryModel {
    pub columns: Seq<SelectItemModel>,
    pub from: Seq<char>,
    pub filter: Option<ExprModel>,
    pub order_by: Seq<(ExprModel, OrderDir)>,
    pub group_by: Seq<ExprModel>,
    pub limit: Option<usize>,
    pub offset: Option<usize>,
    pub needs_content: bool,
    pub is_aggregate: bool,
    pub distinct: bool,
}

impl View for Query {
    type V = QueryModel;

    open spec fn view(&self) -> QueryModel {
        QueryModel {
            columns: items_model(self.columns@),
            from: self.from@,
            filter: match self.filter {
                Some(e) => Some(e@),
                None => None,
            },
            order_by: order_model(self.order_by@),
            group_by: exprs_model(self.group_by@),
            limit: self.limit,
            offset: self.offset,
            needs_content: self.needs_content,
            is_aggregate: self.is_aggregate,
            distinct: self.distinct,
        }
    }
}

pub proof fn lemma_exprs_model_len(s: Seq<Expr>)
    ensures
        exprs_model(s).len() == s.len(),
    decreases s.len(),
{
    if s.len() > 0 {
        lemma_exprs_model_len(s.drop_last());
    }
}

pub proof fn lemma_exprs_model_index(s: Seq<Expr>, i: int)
    requires
        0 <= i < s.len(),
    ensures
        exprs_model(s).len() == s.len(),
        exprs_model(s)[i] == expr_model(s[i]),
    decreases s.len(),
{
    lemma_exprs_model_len(s);
    if i < s.len() - 1 {
        lemma_exprs_model_index(s.drop_last(), i);
    }
}

} // verus!
