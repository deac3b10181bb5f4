use crate::tokens::SpecToken;
use crate::tokens::Token;
use vstd::prelude::*;

verus! {

/// An expression tree. Each node exclusively owns its children.
///
/// Operator nodes carry the operator's [`Token`]. `Float` carries the
/// literal's text as written in the source. `Identifier` and `Variable` are
/// both name references; `Assign` mutates an existing binding and yields the
/// assigned value.
#[derive(Debug, PartialEq)]
pub enum Expression {
    Prefix(Token, Box<Expression>),
    Infix(Box<Expression>, Token, Box<Expression>),
    Integer(i64),
    Float(String),
    String(String),
    Boolean(bool),
    Identifier(String),
    Variable(String),
    Assign(String, Box<Expression>),
    Null,
}

/// A statement. `Let` carries the variable's name, the declared type's name
/// as written in the source, and the initializer. `Block` owns an ordered
/// list of statements and introduces a new scope for exactly its execution.
#[derive(Debug, PartialEq)]
pub enum Statement {
    Expression(Expression),
    If(Box<Expression>, Box<Statement>),
    IfElse(Box<Expression>, Box<Statement>, Box<Statement>),
    While(Expression, Box<Statement>),
    Let(String, String, Box<Expression>),
    Block(Vec<Statement>),
    Print(Expression),
}

/// The mathematical model of an [`Expression`]: text is a `Seq<char>`.
pub enum SpecExpr {
    Prefix(SpecToken, Box<SpecExpr>),
    Infix(Box<SpecExpr>, SpecToken, Box<SpecExpr>),
    Integer(i64),
    Float(Seq<char>),
    String(Seq<char>),
    Boolean(bool),
    Identifier(Seq<char>),
    Variable(Seq<char>),
    Assign(Seq<char>, Box<SpecExpr>),
    Null,
}

/// The mathematical model of a [`Statement`].
pub enum SpecStmt {
    Expression(SpecExpr),
    If(Box<SpecExpr>, Box<SpecStmt>),
    IfElse(Box<SpecExpr>, Box<SpecStmt>, Box<SpecStmt>),
    While(SpecExpr, Box<SpecStmt>),
    Let(Seq<char>, Seq<char>, Box<SpecExpr>),
    Block(Seq<SpecStmt>),
    Print(SpecExpr),
}

pub open spec fn expr_view(e: Expression) -> SpecExpr
    decreases e,
{
    match e {
        Expression::Prefix(op, inner) => SpecExpr::Prefix(op@, Box::new(expr_view(*inner))),
        Expression::Infix(l, op, r) => SpecExpr::Infix(
            Box::new(expr_view(*l)),
            op@,
            Box::new(expr_view(*r)),
        ),
        Expression::Integer(i) => SpecExpr::Integer(i),
        Expression::Float(s) => SpecExpr::Float(s@),
        Expression::String(s) => SpecExpr::String(s@),
        Expression::Boolean(b) => SpecExpr::Boolean(b),
        Expression::Identifier(s) => SpecExpr::Identifier(s@),
        Expression::Variable(s) => SpecExpr::Variable(s@),
        Expression::Assign(s, inner) => SpecExpr::Assign(s@, Box::new(expr_view(*inner))),
        Expression::Null => SpecExpr::Null,
    }
}

pub open spec fn stmt_view(s: Statement) -> SpecStmt
    decreases s, 0nat,
    via stmt_view_decreases
{
    match s {
        Statement::Expression(e) => SpecStmt::Expression(expr_view(e)),
        Statement::If(c, body) => SpecStmt::If(
            Box::new(expr_view(*c)),
            Box::new(stmt_view(*body)),
        ),
        Statement::IfElse(c, t, f) => SpecStmt::IfElse(
            Box::new(expr_view(*c)),
            Box::new(stmt_view(*t)),
            Box::new(stmt_view(*f)),
        ),
        Statement::While(c, body) => SpecStmt::While(expr_view(c), Box::new(stmt_view(*body))),
        Statement::Let(name, ty, init) => SpecStmt::Let(name@, ty@, Box::new(expr_view(*init))),
        Statement::Block(stmts) => SpecStmt::Block(stmts_view(stmts@)),
        Statement::Print(e) => SpecStmt::Print(expr_view(e)),
    }
}

/// The models of a sequence of statements, element by element.
pub open spec fn stmts_view(ss: Seq<Statement>) -> Seq<SpecStmt>
    decreases ss, 1nat,
{
    if ss.len() == 0 {
        Seq::empty()
    } else {
        seq![stmt_view(ss[0])] + stmts_view(ss.subrange(1, ss.len() as int))
    }
}

#[via_fn]
proof fn stmt_view_decreases(s: Statement) {
    match s {
        Statement::Block(stmts) => {
            assert(decreases_to!(s => stmts));
            assert(decreases_to!(stmts => stmts@));
        },
        _ => {},
    }
}

/// Appending a statement appends its model.
pub proof fn lemma_stmts_view_push(ss: Seq<Statement>, s: Statement)
    ensures
        stmts_view(ss.push(s)) == stmts_view(ss).push(stmt_view(s)),
    decreases ss.len(),
{
    reveal_with_fuel(stmts_view, 3);
    if ss.len() == 0 {
        assert(ss.push(s).subrange(1, 1) =~= Seq::<Statement>::empty());
        assert(stmts_view(ss.push(s)) =~= stmts_view(ss).push(stmt_view(s)));
    } else {
        let sub = ss.subrange(1, ss.len() as int);
        assert(ss.push(s).subrange(1, ss.len() as int + 1) =~= sub.push(s));
        lemma_stmts_view_push(sub, s);
        assert(ss.push(s)[0] == ss[0]);
        assert(stmts_view(ss.push(s)) == seq![stmt_view(ss[0])] + stmts_view(sub).push(
            stmt_view(s),
        ));
        assert(seq![stmt_view(ss[0])] + stmts_view(sub).push(stmt_view(s)) =~= (seq![
            stmt_view(ss[0]),
        ] + stmts_view(sub)).push(stmt_view(s)));
    }
}

/// `stmts_view` maps `stmt_view` over the sequence.
pub proof fn lemma_stmts_view(ss: Seq<Statement>)
    ensures
        stmts_view(ss).len() == ss.len(),
        forall|i: int| 0 <= i < ss.len() ==> stmts_view(ss)[i] == stmt_view(ss[i]),
    decreases ss.len(),
{
    if ss.len() > 0 {
        lemma_stmts_view(ss.subrange(1, ss.len() as int));
    }
}

impl View for Expression {
    type V = SpecExpr;

    open spec fn view(&self) -> SpecExpr {
        expr_view(*self)
    }
}

impl View for Statement {
    type V = SpecStmt;

    open spec fn view(&self) -> SpecStmt {
        stmt_view(*self)
    }
}

} // verus!
