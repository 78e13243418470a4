use vstd::prelude::*;
use crate::token::{Token, TokenType, TokenView};

verus! {

/// The value of a literal expression. Numbers are kept as the text of the
/// numeral; strings as the text the scanner read between the quotes.
#[derive(Debug, Clone, PartialEq, Eq)]
pub enum LiteralValue {
    Number(String),
    StringValue(String),
    True,
    False,
    Nil,
}

/// The mathematical value of a literal.
pub enum SpecLiteral {
    Number(Seq<char>),
    StringValue(Seq<char>),
    True,
    False,
    Nil,
}

impl View for LiteralValue {
    type V = SpecLiteral;

    open spec fn view(&self) -> SpecLiteral {
        match self {
            LiteralValue::Number(s) => SpecLiteral::Number(s@),
            LiteralValue::StringValue(s) => SpecLiteral::StringValue(s@),
            LiteralValue::True => SpecLiteral::True,
            LiteralValue::False => SpecLiteral::False,
            LiteralValue::Nil => SpecLiteral::Nil,
        }
    }
}

/// The literal a literal token stands for.
pub open spec fn literal_of(t: TokenView) -> SpecLiteral {
    match t.token_type {
        TokenType::Number => SpecLiteral::Number(t.lexeme),
        TokenType::StringLit => SpecLiteral::StringValue(
            match t.literal {
                Some(s) => s,
                None => t.lexeme,
            },
        ),
        TokenType::True => SpecLiteral::True,
        TokenType::False => SpecLiteral::False,
        _ => SpecLiteral::Nil,
    }
}

impl LiteralValue {
    /// The literal a literal token stands for.
    pub fn from_token(token: Token) -> (v: LiteralValue)
        ensures
            v@ == literal_of(token@),
    {
        match token.token_type {
            TokenType::Number => LiteralValue::Number(token.lexeme),
            TokenType::StringLit => match token.literal {
                Some(s) => LiteralValue::StringValue(s),
                None => LiteralValue::StringValue(token.lexeme),
            },
            TokenType::True => LiteralValue::True,
            TokenType::False => LiteralValue::False,
            _ => LiteralValue::Nil,
        }
    }
}

/// An expression. Every node carries an id, which the parser hands out
/// fresh for each node it builds.
#[derive(Debug, PartialEq, Eq)]
pub enum Expr {
    Array { id: usize, elements: Vec<Box<Expr>> },
    Assign { id: usize, name: Token, value: Box<Expr> },
    Binary { id: usize, left: Box<Expr>, operator: Token, right: Box<Expr> },
    Call { id: usize, callee: Box<Expr>, paren: Token, arguments: Vec<Expr> },
    Get { id: usize, object: Box<Expr>, name: Token },
    Grouping { id: usize, expression: Box<Expr> },
    Literal { id: usize, value: LiteralValue },
    Logical { id: usize, left: Box<Expr>, operator: Token, right: Box<Expr> },
    SetProperty { id: usize, object: Box<Expr>, name: Token, value: Box<Expr> },
    Unary { id: usize, operator: Token, right: Box<Expr> },
    Variable { id: usize, name: Token },
}

/// The mathematical value of an expression.
pub enum SpecExpr {
    Array { id: nat, elements: Seq<SpecExpr> },
    Assign { id: nat, name: TokenView, value: Box<SpecExpr> },
    Binary { id: nat, left: Box<SpecExpr>, operator: TokenView, right: Box<SpecExpr> },
    Call { id: nat, callee: Box<SpecExpr>, paren: TokenView, arguments: Seq<SpecExpr> },
    Get { id: nat, object: Box<SpecExpr>, name: TokenView },
    Grouping { id: nat, expression: Box<SpecExpr> },
    Literal { id: nat, value: SpecLiteral },
    Logical { id: nat, left: Box<SpecExpr>, operator: TokenView, right: Box<SpecExpr> },
    SetProperty { id: nat, object: Box<SpecExpr>, name: TokenView, value: Box<SpecExpr> },
    Unary { id: nat, operator: TokenView, right: Box<SpecExpr> },
    Variable { id: nat, name: TokenView },
}

pub open spec fn expr_view(e: Expr) -> SpecExpr
    decreases e,
{
    match e {
        Expr::Array { id, elements } => SpecExpr::Array {
            id: id as nat,
            elements: boxed_exprs_view(elements@),
        },
        Expr::Assign { id, name, value } => SpecExpr::Assign {
            id: id as nat,
            name: name@,
            value: Box::new(expr_view(*value)),
        },
        Expr::Binary { id, left, operator, right } => SpecExpr::Binary {
            id: id as nat,
            left: Box::new(expr_view(*left)),
            operator: operator@,
            right: Box::new(expr_view(*right)),
        },
        Expr::Call { id, callee, paren, arguments } => SpecExpr::Call {
            id: id as nat,
            callee: Box::new(expr_view(*callee)),
            paren: paren@,
            arguments: exprs_view(arguments@),
        },
        Expr::Get { id, object, name } => SpecExpr::Get {
            id: id as nat,
            object: Box::new(expr_view(*object)),
            name: name@,
        },
        Expr::Grouping { id, expression } => SpecExpr::Grouping {
            id: id as nat,
            expression: Box::new(expr_view(*expression)),
        },
        Expr::Literal { id, value } => SpecExpr::Literal { id: id as nat, value: value@ },
        Expr::Logical { id, left, operator, right } => SpecExpr::Logical {
            id: id as nat,
            left: Box::new(expr_view(*left)),
            operator: operator@,
            right: Box::new(expr_view(*right)),
        },
        Expr::SetProperty { id, object, name, value } => SpecExpr::SetProperty {
            id: id as nat,
            object: Box::new(expr_view(*object)),
            name: name@,
            value: Box::new(expr_view(*value)),
        },
        Expr::Unary { id, operator, right } => SpecExpr::Unary {
            id: id as nat,
            operator: operator@,
            right: Box::new(expr_view(*right)),
        },
        Expr::Variable { id, name } => SpecExpr::Variable { id: id as nat, name: name@ },
    }
}

pub open spec fn boxed_exprs_view(s: Seq<Box<Expr>>) -> Seq<SpecExpr>
    decreases s,
{
    if s.len() == 0 {
        Seq::empty()
    } else {
        boxed_exprs_view(s.subrange(0, s.len() - 1)).push(expr_view(*s[s.len() - 1]))
    }
}

pub open spec fn exprs_view(s: Seq<Expr>) -> Seq<SpecExpr>
    decreases s,
{
    if s.len() == 0 {
        Seq::empty()
    } else {
        exprs_view(s.subrange(0, s.len() - 1)).push(expr_view(s[s.len() - 1]))
    }
}

impl View for Expr {
    type V = SpecExpr;

    open spec fn view(&self) -> SpecExpr {
        expr_view(*self)
    }
}


/// The time and body of the `before` arm of a `wait` statement.
#[derive(Debug, PartialEq, Eq)]
pub struct BeforeBlock {
    pub time: Expr,
    pub body: Box<Stmt>,
}

/// A statement.
#[derive(Debug, PartialEq, Eq)]
pub enum Stmt {
    BenchStmt { body: Box<Stmt> },
    Block { statements: Vec<Box<Stmt>> },
    BreakStmt { keyword: Token },
    Errors { expression: Expr },
    Exits {},
    Expression { expression: Expr },
    Function { name: Token, params: Vec<(Token, Option<Token>)>, body: Vec<Box<Stmt>> },
    IfStmt {
        predicate: Expr,
        then: Box<Stmt>,
        elif_branches: Vec<(Expr, Box<Stmt>)>,
        els: Option<Box<Stmt>>,
    },
    Import { expression: Expr },
    Print { expression: Expr },
    ReturnStmt { keyword: Token, value: Option<Expr> },
    Var { name: Token, type_annotation: Option<Token>, initializer: Expr },
    WaitStmt { time: Expr, body: Box<Stmt>, before: Option<BeforeBlock> },
    WhileStmt { condition: Expr, body: Box<Stmt> },
}

/// The mathematical value of a statement.
pub enum SpecStmt {
    BenchStmt { body: Box<SpecStmt> },
    Block { statements: Seq<SpecStmt> },
    BreakStmt { keyword: TokenView },
    Errors { expression: SpecExpr },
    Exits,
    Expression { expression: SpecExpr },
    Function {
        name: TokenView,
        params: Seq<(TokenView, Option<TokenView>)>,
        body: Seq<SpecStmt>,
    },
    IfStmt {
        predicate: SpecExpr,
        then: Box<SpecStmt>,
        elif_branches: Seq<(SpecExpr, SpecStmt)>,
        els: Option<Box<SpecStmt>>,
    },
    Import { expression: SpecExpr },
    Print { expression: SpecExpr },
    ReturnStmt { keyword: TokenView, value: Option<SpecExpr> },
    Var { name: TokenView, type_annotation: Option<TokenView>, initializer: SpecExpr },
    WaitStmt { time: SpecExpr, body: Box<SpecStmt>, before: Option<(SpecExpr, Box<SpecStmt>)> },
    WhileStmt { condition: SpecExpr, body: Box<SpecStmt> },
}

pub open spec fn opt_token_view(t: Option<Token>) -> Option<TokenView> {
    match t {
        Some(t) => Some(t@),
        None => None,
    }
}

pub open spec fn opt_stmt_view(s: Option<Stmt>) -> Option<SpecStmt> {
    match s {
        Some(s) => Some(s@),
        None => None,
    }
}

pub open spec fn opt_expr_view(e: Option<Expr>) -> Option<SpecExpr> {
    match e {
        Some(e) => Some(e@),
        None => None,
    }
}

/// The view of a parameter list: each name with its optional type.
pub open spec fn params_view(s: Seq<(Token, Option<Token>)>) -> Seq<(TokenView, Option<TokenView>)> {
    s.map_values(|p: (Token, Option<Token>)| (p.0@, opt_token_view(p.1)))
}

pub open spec fn stmt_view(s: Stmt) -> SpecStmt
    decreases s,
{
    match s {
        Stmt::BenchStmt { body } => SpecStmt::BenchStmt { body: Box::new(stmt_view(*body)) },
        Stmt::Block { statements } => SpecStmt::Block { statements: boxed_stmts_view(statements@) },
        Stmt::BreakStmt { keyword } => SpecStmt::BreakStmt { keyword: keyword@ },
        Stmt::Errors { expression } => SpecStmt::Errors { expression: expression@ },
        Stmt::Exits {} => SpecStmt::Exits,
        Stmt::Expression { expression } => SpecStmt::Expression { expression: expression@ },
        Stmt::Function { name, params, body } => SpecStmt::Function {
            name: name@,
            params: params_view(params@),
            body: boxed_stmts_view(body@),
        },
        Stmt::IfStmt { predicate, then, elif_branches, els } => SpecStmt::IfStmt {
            predicate: predicate@,
            then: Box::new(stmt_view(*then)),
            elif_branches: branches_view(elif_branches@),
            els: match els {
                Some(b) => Some(Box::new(stmt_view(*b))),
                None => None,
            },
        },
        Stmt::Import { expression } => SpecStmt::Import { expression: expression@ },
        Stmt::Print { expression } => SpecStmt::Print { expression: expression@ },
        Stmt::ReturnStmt { keyword, value } => SpecStmt::ReturnStmt {
            keyword: keyword@,
            value: opt_expr_view(value),
        },
        Stmt::Var { name, type_annotation, initializer } => SpecStmt::Var {
            name: name@,
            type_annotation: opt_token_view(type_annotation),
            initializer: initializer@,
        },
        Stmt::WaitStmt { time, body, before } => SpecStmt::WaitStmt {
            time: time@,
            body: Box::new(stmt_view(*body)),
            before: match before {
                Some(b) => Some((b.time@, Box::new(stmt_view(*b.body)))),
                None => None,
            },
        },
        Stmt::WhileStmt { condition, body } => SpecStmt::WhileStmt {
            condition: condition@,
            body: Box::new(stmt_view(*body)),
        },
    }
}

pub open spec fn boxed_stmts_view(s: Seq<Box<Stmt>>) -> Seq<SpecStmt>
    decreases s,
{
    if s.len() == 0 {
        Seq::empty()
    } else {
        boxed_stmts_view(s.subrange(0, s.len() - 1)).push(stmt_view(*s[s.len() - 1]))
    }
}

pub open spec fn branches_view(s: Seq<(Expr, Box<Stmt>)>) -> Seq<(SpecExpr, SpecStmt)>
    decreases s,
{
    if s.len() == 0 {
        Seq::empty()
    } else {
        branches_view(s.subrange(0, s.len() - 1)).push(
            (s[s.len() - 1].0@, stmt_view(*s[s.len() - 1].1)),
        )
    }
}

pub open spec fn stmts_view(s: Seq<Stmt>) -> Seq<SpecStmt>
    decreases s,
{
    if s.len() == 0 {
        Seq::empty()
    } else {
        stmts_view(s.subrange(0, s.len() - 1)).push(stmt_view(s[s.len() - 1]))
    }
}

impl View for Stmt {
    type V = SpecStmt;

    open spec fn view(&self) -> SpecStmt {
        stmt_view(*self)
    }
}

} // verus!
