//! The abstract syntax tree.
use std::rc::Rc;
use vstd::prelude::*;

verus! {

/// An expression.
#[derive(Debug)]
pub enum Expr {
    Number(i64),
    /// A map literal: key and value expression pairs, in source order.
    Dict(Vec<(String, Expr)>),
    String(String),
    Variable(String),
    Assign(String, Box<Expr>),
    Binary { left: Box<Expr>, operator: BinOp, right: Box<Expr> },
    Logical { left: Box<Expr>, operator: LogicalOp, right: Box<Expr> },
    Unary { operator: UnaryOp, right: Box<Expr> },
    Call { callee: Box<Expr>, arguments: Vec<Expr> },
    Boolean(bool),
    Array(Vec<Expr>),
    Index { object: Box<Expr>, index: Box<Expr> },
    IndexAssign { object: Box<Expr>, index: Box<Expr>, value: Box<Expr> },
    /// Field read: `object.field`.
    Dot { object: Box<Expr>, field: String },
    /// Field write: `object.field = value`.
    DotAssign { object: Box<Expr>, field: String, value: Box<Expr> },
}

/// A binary arithmetic, comparison or equality operator.
#[derive(Debug, Clone, Copy, PartialEq, Eq, Structural)]
pub enum BinOp {
    Add,
    Subtract,
    Multiply,
    Divide,
    Greater,
    GreaterEqual,
    Less,
    LessEqual,
    EqualEqual,
    BangEqual,
}

/// A short-circuit logical operator.
#[derive(Debug, Clone, Copy, PartialEq, Eq, Structural)]
pub enum LogicalOp {
    And,
    Or,
}

/// A prefix operator.
#[derive(Debug, Clone, Copy, PartialEq, Eq, Structural)]
pub enum UnaryOp {
    Negate,
    Not,
}

/// A statement. A function declaration shares its parameter list and body
/// with the function values made from it.
#[derive(Debug)]
pub enum Stmt {
    Expr(Expr),
    Let { name: String, initializer: Option<Expr> },
    Print(Expr),
    Block(Vec<Stmt>),
    If { condition: Expr, then_branch: Box<Stmt>, else_branch: Option<Box<Stmt>> },
    While { condition: Expr, body: Box<Stmt> },
    For { variable: String, iterable: Box<Expr>, body: Box<Stmt> },
    Function { name: String, params: Rc<Vec<String>>, body: Rc<Vec<Stmt>> },
    Return { value: Option<Expr> },
}

/// A parsed program: its top-level statements in order.
#[derive(Debug)]
pub struct Program {
    pub statements: Vec<Stmt>,
}

/// The model of an expression.
pub enum ExprView {
    Number(i64),
    Dict(Seq<(Seq<char>, ExprView)>),
    Str(Seq<char>),
    Variable(Seq<char>),
    Assign(Seq<char>, Box<ExprView>),
    Binary(Box<ExprView>, BinOp, Box<ExprView>),
    Logical(Box<ExprView>, LogicalOp, Box<ExprView>),
    Unary(UnaryOp, Box<ExprView>),
    Call(Box<ExprView>, Seq<ExprView>),
    Boolean(bool),
    Array(Seq<ExprView>),
    Index(Box<ExprView>, Box<ExprView>),
    IndexAssign(Box<ExprView>, Box<ExprView>, Box<ExprView>),
    Dot(Box<ExprView>, Seq<char>),
    DotAssign(Box<ExprView>, Seq<char>, Box<ExprView>),
}

/// The model of a statement.
pub enum StmtView {
    Expr(ExprView),
    Let(Seq<char>, Option<ExprView>),
    Print(ExprView),
    Block(Seq<StmtView>),
    If(ExprView, Box<StmtView>, Option<Box<StmtView>>),
    While(ExprView, Box<StmtView>),
    For(Seq<char>, ExprView, Box<StmtView>),
    Function(Seq<char>, Seq<Seq<char>>, Seq<StmtView>),
    Return(Option<ExprView>),
}

/// The model of an expression, by structural recursion.
pub open spec fn expr_view(e: Expr) -> ExprView
    decreases e,
{
    match e {
        Expr::Number(n) => ExprView::Number(n),
        Expr::Dict(ps) => ExprView::Dict(
            Seq::new(
                ps@.len(),
                |i: int|
                    if 0 <= i < ps@.len() {
                        (ps@[i].0@, expr_view(ps@[i].1))
                    } else {
                        (Seq::empty(), ExprView::Number(0))
                    },
            ),
        ),
        Expr::String(s) => ExprView::Str(s@),
        Expr::Variable(n) => ExprView::Variable(n@),
        Expr::Assign(n, v) => ExprView::Assign(n@, Box::new(expr_view(*v))),
        Expr::Binary { left, operator, right } => ExprView::Binary(
            Box::new(expr_view(*left)),
            operator,
            Box::new(expr_view(*right)),
        ),
        Expr::Logical { left, operator, right } => ExprView::Logical(
            Box::new(expr_view(*left)),
            operator,
            Box::new(expr_view(*right)),
        ),
        Expr::Unary { operator, right } => ExprView::Unary(operator, Box::new(expr_view(*right))),
        Expr::Call { callee, arguments } => ExprView::Call(
            Box::new(expr_view(*callee)),
            Seq::new(
                arguments@.len(),
                |i: int|
                    if 0 <= i < arguments@.len() {
                        expr_view(arguments@[i])
                    } else {
                        ExprView::Number(0)
                    },
            ),
        ),
        Expr::Boolean(b) => ExprView::Boolean(b),
        Expr::Array(es) => ExprView::Array(
            Seq::new(
                es@.len(),
                |i: int|
                    if 0 <= i < es@.len() {
                        expr_view(es@[i])
                    } else {
                        ExprView::Number(0)
                    },
            ),
        ),
        Expr::Index { object, index } => ExprView::Index(
            Box::new(expr_view(*object)),
            Box::new(expr_view(*index)),
        ),
        Expr::IndexAssign { object, index, value } => ExprView::IndexAssign(
            Box::new(expr_view(*object)),
            Box::new(expr_view(*index)),
            Box::new(expr_view(*value)),
        ),
        Expr::Dot { object, field } => ExprView::Dot(Box::new(expr_view(*object)), field@),
        Expr::DotAssign { object, field, value } => ExprView::DotAssign(
            Box::new(expr_view(*object)),
            field@,
            Box::new(expr_view(*value)),
        ),
    }
}

/// The model of a statement, by structural recursion.
pub open spec fn stmt_view(s: Stmt) -> StmtView
    decreases s,
{
    match s {
        Stmt::Expr(e) => StmtView::Expr(expr_view(e)),
        Stmt::Let { name, initializer } => StmtView::Let(
            name@,
            match initializer {
                Some(e) => Some(expr_view(e)),
                None => None,
            },
        ),
        Stmt::Print(e) => StmtView::Print(expr_view(e)),
        Stmt::Block(ss) => StmtView::Block(
            Seq::new(
                ss@.len(),
                |i: int|
                    if 0 <= i < ss@.len() {
                        stmt_view(ss@[i])
                    } else {
                        StmtView::Return(None)
                    },
            ),
        ),
        Stmt::If { condition, then_branch, else_branch } => StmtView::If(
            expr_view(condition),
            Box::new(stmt_view(*then_branch)),
            match else_branch {
                Some(b) => Some(Box::new(stmt_view(*b))),
                None => None,
            },
        ),
        Stmt::While { condition, body } => StmtView::While(
            expr_view(condition),
            Box::new(stmt_view(*body)),
        ),
        Stmt::For { variable, iterable, body } => StmtView::For(
            variable@,
            expr_view(*iterable),
            Box::new(stmt_view(*body)),
        ),
        Stmt::Function { name, params, body } => StmtView::Function(
            name@,
            Seq::new(params@.len(), |i: int| params@[i]@),
            Seq::new(
                body@.len(),
                |i: int|
                    if 0 <= i < body@.len() {
                        stmt_view(body@[i])
                    } else {
                        StmtView::Return(None)
                    },
            ),
        ),
        Stmt::Return { value } => StmtView::Return(
            match value {
                Some(e) => Some(expr_view(e)),
                None => None,
            },
        ),
    }
}

impl View for Expr {
    type V = ExprView;

    open spec fn view(&self) -> ExprView {
        expr_view(*self)
    }
}

impl View for Stmt {
    type V = StmtView;

    open spec fn view(&self) -> StmtView {
        stmt_view(*self)
    }
}

} // verus!
