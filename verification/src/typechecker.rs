use crate::ast::stmts_view;
use crate::ast::Expression;
use crate::ast::SpecExpr;
use crate::ast::SpecStmt;
use crate::ast::Statement;
use crate::tokens::SpecToken;
use crate::tokens::Token;
use vstd::prelude::*;

verus! {

/// The static type of an expression: a finite enumeration with no subtyping
/// and no implicit widening between `Integer` and `Float`.
#[derive(Debug, PartialEq, Eq, Structural, Clone, Copy)]
pub enum Type {
    Integer,
    Float,
    String,
    Boolean,
    Null,
}

/// A static type error: the checker rejected the program. The message
/// describes the offending construct; the contracts of the checking
/// functions say exactly when a program is rejected.
#[derive(Debug)]
pub struct TypeError {
    pub message: String,
}

// ---------------------------------------------------------------------------
// The declared-type table
// ---------------------------------------------------------------------------
/// The table from variable name to declared type name, as written in the
/// source. The parser fills it while parsing `let` statements; the type
/// checker reads it. A later entry for the same name wins, as a repeated
/// insertion into a map would.
pub struct TypeMap {
    entries: Vec<(String, String)>,
}

/// The map an entry list denotes: later entries overwrite earlier ones.
pub open spec fn map_of(es: Seq<(String, String)>) -> Map<Seq<char>, Seq<char>>
    decreases es.len(),
{
    if es.len() == 0 {
        Map::empty()
    } else {
        map_of(es.drop_last()).insert(es.last().0@, es.last().1@)
    }
}

proof fn lemma_map_of_found(es: Seq<(String, String)>, k: Seq<char>, i: int)
    requires
        0 <= i < es.len(),
        es[i].0@ == k,
        forall|j: int| i < j < es.len() ==> es[j].0@ != k,
    ensures
        map_of(es).contains_key(k),
        map_of(es)[k] == es[i].1@,
    decreases es.len(),
{
    if i < es.len() - 1 {
        lemma_map_of_found(es.drop_last(), k, i);
    }
}

proof fn lemma_map_of_absent(es: Seq<(String, String)>, k: Seq<char>)
    requires
        forall|j: int| 0 <= j < es.len() ==> es[j].0@ != k,
    ensures
        !map_of(es).contains_key(k),
    decreases es.len(),
{
    if es.len() > 0 {
        lemma_map_of_absent(es.drop_last(), k);
    }
}

impl View for TypeMap {
    type V = Map<Seq<char>, Seq<char>>;

    closed spec fn view(&self) -> Map<Seq<char>, Seq<char>> {
        map_of(self.entries@)
    }
}

impl TypeMap {
    pub fn new() -> (m: TypeMap)
        ensures
            m@ == Map::<Seq<char>, Seq<char>>::empty(),
    {
        TypeMap { entries: Vec::new() }
    }

    /// Record `name`'s declared type, overwriting any earlier record.
    pub fn insert(&mut self, name: String, ty: String)
        ensures
            final(self)@ == old(self)@.insert(name@, ty@),
    {
        let ghost before = self.entries@;
        let ghost p = (name, ty);
        self.entries.push((name, ty));
        proof {
            assert(self.entries@.drop_last() =~= before);
        }
    }

    /// The declared type name recorded for `name`, if any.
    #[verifier::loop_isolation(false)]
    pub fn get(&self, name: &str) -> (r: Option<&String>)
        ensures
            r is Some <==> self@.contains_key(name@),
            r matches Some(v) ==> v@ == self@[name@],
    {
        let mut idx = self.entries.len();
        while idx > 0
            invariant
                idx <= self.entries.len(),
                forall|j: int| idx <= j < self.entries@.len() ==> self.entries@[j].0@ != name@,
            decreases idx,
        {
            idx = idx - 1;
            if self.entries[idx].0 == name.to_owned() {
                proof {
                    lemma_map_of_found(self.entries@, name@, idx as int);
                }
                return Some(&self.entries[idx].1);
            }
        }
        proof {
            lemma_map_of_absent(self.entries@, name@);
        }
        None
    }
}

// ---------------------------------------------------------------------------
// Types of names and operators
// ---------------------------------------------------------------------------
/// The type a declared type name denotes, or nothing for an unknown name.
pub open spec fn string_to_type_spec(s: Seq<char>) -> Option<Type> {
    if s == "int64"@ {
        Some(Type::Integer)
    } else if s == "float64"@ {
        Some(Type::Float)
    } else if s == "string"@ {
        Some(Type::String)
    } else if s == "bool"@ {
        Some(Type::Boolean)
    } else if s == "null"@ {
        Some(Type::Null)
    } else {
        None
    }
}

/// The type a declared type name denotes. The names `int64`, `float64`,
/// `string`, `bool` and `null` are recognized, case-sensitively; any other
/// name is rejected.
pub fn string_to_type(s: &str) -> (t: Option<Type>)
    ensures
        t == string_to_type_spec(s@),
{
    let w = s.to_owned();
    if w == "int64".to_owned() {
        Some(Type::Integer)
    } else if w == "float64".to_owned() {
        Some(Type::Float)
    } else if w == "string".to_owned() {
        Some(Type::String)
    } else if w == "bool".to_owned() {
        Some(Type::Boolean)
    } else if w == "null".to_owned() {
        Some(Type::Null)
    } else {
        None
    }
}

/// The result type of a binary operator on operands of types `a` and `b`:
/// equality on two equal types out of integer, float, boolean and string;
/// ordering on two integers or two floats; `&&` and `||` on two booleans;
/// `+` also concatenates two strings; `-`, `*`, `/` combine two integers or
/// two floats. Everything else is rejected.
pub open spec fn infix_type(op: SpecToken, a: Type, b: Type) -> Option<Type> {
    match op {
        SpecToken::DoubleEqual | SpecToken::BangEqual => {
            if a == b && (a == Type::Integer || a == Type::Float || a == Type::Boolean
                || a == Type::String) {
                Some(Type::Boolean)
            } else {
                None
            }
        },
        SpecToken::Greater | SpecToken::GreaterEqual | SpecToken::Less | SpecToken::LessEqual => {
            if a == b && (a == Type::Integer || a == Type::Float) {
                Some(Type::Boolean)
            } else {
                None
            }
        },
        SpecToken::And | SpecToken::Or => {
            if a == Type::Boolean && b == Type::Boolean {
                Some(Type::Boolean)
            } else {
                None
            }
        },
        SpecToken::Plus => {
            if a == Type::Integer && b == Type::Integer {
                Some(Type::Integer)
            } else if a == Type::Float && b == Type::Float {
                Some(Type::Float)
            } else if a == Type::String && b == Type::String {
                Some(Type::String)
            } else {
                None
            }
        },
        SpecToken::Minus | SpecToken::Times | SpecToken::Divide => {
            if a == Type::Integer && b == Type::Integer {
                Some(Type::Integer)
            } else if a == Type::Float && b == Type::Float {
                Some(Type::Float)
            } else {
                None
            }
        },
        _ => None,
    }
}

/// The result type of a prefix operator: `-` on an integer or a float, `!`
/// on a boolean.
pub open spec fn prefix_type(op: SpecToken, a: Type) -> Option<Type> {
    match op {
        SpecToken::Minus => {
            if a == Type::Integer || a == Type::Float {
                Some(a)
            } else {
                None
            }
        },
        SpecToken::Bang => {
            if a == Type::Boolean {
                Some(Type::Boolean)
            } else {
                None
            }
        },
        _ => None,
    }
}

// ---------------------------------------------------------------------------
// Types of expressions and statements
// ---------------------------------------------------------------------------
/// The type of an expression against the declared-type table, or nothing
/// where the expression is ill-typed: a name that is not in the table or
/// whose declared type name is unknown, an operand an operator rejects, or
/// an assignment whose value does not have the target's declared type.
pub open spec fn ty_of_spec(e: SpecExpr, m: Map<Seq<char>, Seq<char>>) -> Option<Type>
    decreases e,
{
    match e {
        SpecExpr::Integer(_) => Some(Type::Integer),
        SpecExpr::Float(_) => Some(Type::Float),
        SpecExpr::Boolean(_) => Some(Type::Boolean),
        SpecExpr::String(_) => Some(Type::String),
        SpecExpr::Null => Some(Type::Null),
        SpecExpr::Identifier(n) => {
            if m.contains_key(n) {
                string_to_type_spec(m[n])
            } else {
                None
            }
        },
        SpecExpr::Variable(n) => {
            if m.contains_key(n) {
                string_to_type_spec(m[n])
            } else {
                None
            }
        },
        SpecExpr::Prefix(op, inner) => {
            match ty_of_spec(*inner, m) {
                Some(t) => prefix_type(op, t),
                None => None,
            }
        },
        SpecExpr::Infix(l, op, r) => {
            match (ty_of_spec(*l, m), ty_of_spec(*r, m)) {
                (Some(a), Some(b)) => infix_type(op, a, b),
                _ => None,
            }
        },
        SpecExpr::Assign(n, v) => {
            match ty_of_spec(*v, m) {
                Some(t) => {
                    if m.contains_key(n) && string_to_type_spec(m[n]) == Some(t) {
                        Some(t)
                    } else {
                        None
                    }
                },
                None => None,
            }
        },
    }
}

/// The type of a statement, or nothing where it is ill-typed. A condition
/// must be boolean; the two branches of an `if`/`else` must have one type; a
/// `let` initializer must have exactly the declared type; a `while` types to
/// `Null`; a block types to its last statement's type, `Null` when empty.
pub open spec fn typecheck_stmt_spec(s: SpecStmt, m: Map<Seq<char>, Seq<char>>) -> Option<Type>
    decreases s, 0nat, 0int,
    via typecheck_stmt_spec_decreases
{
    match s {
        SpecStmt::Expression(e) => ty_of_spec(e, m),
        SpecStmt::Print(e) => ty_of_spec(e, m),
        SpecStmt::If(c, body) => {
            if ty_of_spec(*c, m) == Some(Type::Boolean) {
                typecheck_stmt_spec(*body, m)
            } else {
                None
            }
        },
        SpecStmt::IfElse(c, t, f) => {
            if ty_of_spec(*c, m) == Some(Type::Boolean) {
                match (typecheck_stmt_spec(*t, m), typecheck_stmt_spec(*f, m)) {
                    (Some(t1), Some(t2)) => if t1 == t2 {
                        Some(t1)
                    } else {
                        None
                    },
                    _ => None,
                }
            } else {
                None
            }
        },
        SpecStmt::While(c, body) => {
            if ty_of_spec(c, m) == Some(Type::Boolean) && typecheck_stmt_spec(*body, m) is Some {
                Some(Type::Null)
            } else {
                None
            }
        },
        SpecStmt::Let(_name, tyname, init) => {
            match ty_of_spec(*init, m) {
                Some(t) => {
                    if string_to_type_spec(tyname) == Some(t) {
                        Some(t)
                    } else {
                        None
                    }
                },
                None => None,
            }
        },
        SpecStmt::Block(ss) => typecheck_stmts_spec(ss, m, 0, Type::Null),
    }
}

/// The type of a statement list from index `i` on: every statement must
/// typecheck, and the list types to the last statement's type, or to `acc`
/// when none remain.
pub open spec fn typecheck_stmts_spec(
    ss: Seq<SpecStmt>,
    m: Map<Seq<char>, Seq<char>>,
    i: int,
    acc: Type,
) -> Option<Type>
    decreases ss, 1nat, ss.len() - i,
{
    if i < 0 || i >= ss.len() {
        Some(acc)
    } else {
        match typecheck_stmt_spec(ss[i], m) {
            Some(t) => typecheck_stmts_spec(ss, m, i + 1, t),
            None => None,
        }
    }
}

#[via_fn]
proof fn typecheck_stmt_spec_decreases(s: SpecStmt, m: Map<Seq<char>, Seq<char>>) {
    match s {
        SpecStmt::Block(ss) => {
            assert(decreases_to!(s => ss));
        },
        _ => {},
    }
}

// ---------------------------------------------------------------------------
// The executable checker
// ---------------------------------------------------------------------------
/// The type recorded for a name: the table must hold the name, and the
/// recorded type name must be a known one.
fn name_type(n: &String, map: &TypeMap) -> (r: Result<Type, TypeError>)
    ensures
        r is Ok <==> map@.contains_key(n@) && string_to_type_spec(map@[n@]) is Some,
        r matches Ok(t) ==> string_to_type_spec(map@[n@]) == Some(t),
{
    match map.get(n.as_str()) {
        Some(tyname) => match string_to_type(tyname.as_str()) {
            Some(t) => Ok(t),
            None => Err(TypeError { message: "invalid type".to_owned() }),
        },
        None => Err(TypeError { message: "undeclared variable".to_owned() }),
    }
}

/// The result type of a binary operator on the given operand types, as
/// [`infix_type`] states it.
fn infix_type_of(op: &Token, a: Type, b: Type) -> (r: Option<Type>)
    ensures
        r == infix_type(op@, a, b),
{
    match op {
        Token::DoubleEqual | Token::BangEqual => {
            if a == b && (a == Type::Integer || a == Type::Float || a == Type::Boolean
                || a == Type::String) {
                Some(Type::Boolean)
            } else {
                None
            }
        },
        Token::Greater | Token::GreaterEqual | Token::Less | Token::LessEqual => {
            if a == b && (a == Type::Integer || a == Type::Float) {
                Some(Type::Boolean)
            } else {
                None
            }
        },
        Token::And | Token::Or => {
            if a == Type::Boolean && b == Type::Boolean {
                Some(Type::Boolean)
            } else {
                None
            }
        },
        Token::Plus => {
            if a == Type::Integer && b == Type::Integer {
                Some(Type::Integer)
            } else if a == Type::Float && b == Type::Float {
                Some(Type::Float)
            } else if a == Type::String && b == Type::String {
                Some(Type::String)
            } else {
                None
            }
        },
        Token::Minus | Token::Times | Token::Divide => {
            if a == Type::Integer && b == Type::Integer {
                Some(Type::Integer)
            } else if a == Type::Float && b == Type::Float {
                Some(Type::Float)
            } else {
                None
            }
        },
        _ => None,
    }
}

/// The type of `expr` against the declared-type table, or a type error
/// exactly where [`ty_of_spec`] derives none.
pub fn ty_of(expr: &Expression, map: &TypeMap) -> (r: Result<Type, TypeError>)
    ensures
        r is Ok <==> ty_of_spec(expr@, map@) is Some,
        r matches Ok(t) ==> ty_of_spec(expr@, map@) == Some(t),
    decreases *expr,
{
    match expr {
        Expression::Integer(_) => Ok(Type::Integer),
        Expression::Float(_) => Ok(Type::Float),
        Expression::Boolean(_) => Ok(Type::Boolean),
        Expression::String(_) => Ok(Type::String),
        Expression::Null => Ok(Type::Null),
        Expression::Identifier(n) => name_type(n, map),
        Expression::Variable(n) => name_type(n, map),
        Expression::Prefix(op, inner) => {
            let t = ty_of(inner, map)?;
            match op {
                Token::Minus => {
                    if t == Type::Integer || t == Type::Float {
                        Ok(t)
                    } else {
                        Err(TypeError { message: "invalid operand for prefix '-'".to_owned() })
                    }
                },
                Token::Bang => {
                    if t == Type::Boolean {
                        Ok(Type::Boolean)
                    } else {
                        Err(TypeError { message: "invalid operand for prefix '!'".to_owned() })
                    }
                },
                _ => Err(TypeError { message: "invalid prefix operator".to_owned() }),
            }
        },
        Expression::Infix(l, op, r2) => {
            let a = ty_of(l, map)?;
            let b = ty_of(r2, map)?;
            match infix_type_of(op, a, b) {
                Some(t) => Ok(t),
                None => Err(TypeError { message: "type mismatch for infix operator".to_owned() }),
            }
        },
        Expression::Assign(n, v) => {
            let t = ty_of(v, map)?;
            let d = name_type(n, map)?;
            if d == t {
                Ok(t)
            } else {
                Err(TypeError { message: "type mismatch in assignment".to_owned() })
            }
        },
    }
}

/// The type of one statement, or a type error exactly where
/// [`typecheck_stmt_spec`] derives none.
#[verifier::loop_isolation(false)]
fn typecheck_statement(stmt: &Statement, map: &TypeMap) -> (r: Result<Type, TypeError>)
    ensures
        r is Ok <==> typecheck_stmt_spec(stmt@, map@) is Some,
        r matches Ok(t) ==> typecheck_stmt_spec(stmt@, map@) == Some(t),
    decreases *stmt,
{
    match stmt {
        Statement::Expression(e) => ty_of(e, map),
        Statement::Print(e) => ty_of(e, map),
        Statement::If(c, body) => {
            let ct = ty_of(c, map)?;
            if ct == Type::Boolean {
                typecheck_statement(body, map)
            } else {
                Err(TypeError { message: "condition must be boolean".to_owned() })
            }
        },
        Statement::IfElse(c, t, f) => {
            let ct = ty_of(c, map)?;
            if ct == Type::Boolean {
                let t1 = typecheck_statement(t, map)?;
                let t2 = typecheck_statement(f, map)?;
                if t1 == t2 {
                    Ok(t1)
                } else {
                    Err(TypeError { message: "branch types differ".to_owned() })
                }
            } else {
                Err(TypeError { message: "condition must be boolean".to_owned() })
            }
        },
        Statement::While(c, body) => {
            let ct = ty_of(c, map)?;
            if ct == Type::Boolean {
                let _ = typecheck_statement(body, map)?;
                Ok(Type::Null)
            } else {
                Err(TypeError { message: "condition must be boolean".to_owned() })
            }
        },
        Statement::Let(_n, tyname, init) => {
            let t = ty_of(init, map)?;
            match string_to_type(tyname.as_str()) {
                Some(d) => {
                    if d == t {
                        Ok(t)
                    } else {
                        Err(TypeError { message: "type mismatch in declaration".to_owned() })
                    }
                },
                None => Err(TypeError { message: "invalid type".to_owned() }),
            }
        },
        Statement::Block(stmts) => {
            proof {
                crate::ast::lemma_stmts_view(stmts@);
            }
            let ghost ssv = crate::ast::stmts_view(stmts@);
            let mut acc = Type::Null;
            let mut i: usize = 0;
            while i < stmts.len()
                invariant
                    0 <= i <= stmts.len(),
                    typecheck_stmts_spec(ssv, map@, 0, Type::Null) == typecheck_stmts_spec(
                        ssv,
                        map@,
                        i as int,
                        acc,
                    ),
                decreases stmts.len() - i,
            {
                proof {
                    assert(decreases_to!(*stmt => *stmts));
                    assert(decreases_to!(*stmts => stmts@));
                }
                let t = typecheck_statement(&stmts[i], map)?;
                acc = t;
                i = i + 1;
            }
            Ok(acc)
        },
    }
}

/// Check every top-level statement against the declared-type table: the
/// statements' types in program order, or a type error exactly where
/// [`typecheck_spec`] derives none.
#[verifier::loop_isolation(false)]
pub fn typecheck(ast: &Vec<Statement>, type_map: &TypeMap) -> (r: Result<Vec<Type>, TypeError>)
    ensures
        r is Ok <==> typecheck_spec(stmts_view(ast@), type_map@, 0, Seq::empty()) is Some,
        r matches Ok(ts) ==> typecheck_spec(stmts_view(ast@), type_map@, 0, Seq::empty()) == Some(
            ts@,
        ),
{
    proof {
        crate::ast::lemma_stmts_view(ast@);
    }
    let ghost ssv = stmts_view(ast@);
    let mut types: Vec<Type> = Vec::new();
    let mut i: usize = 0;
    while i < ast.len()
        invariant
            0 <= i <= ast.len(),
            typecheck_spec(ssv, type_map@, 0, Seq::empty()) == typecheck_spec(
                ssv,
                type_map@,
                i as int,
                types@,
            ),
        decreases ast.len() - i,
    {
        let t = typecheck_statement(&ast[i], type_map)?;
        types.push(t);
        i = i + 1;
    }
    Ok(types)
}

/// The types of the program's top-level statements, in order, or nothing
/// where any statement is ill-typed.
pub open spec fn typecheck_spec(
    prog: Seq<SpecStmt>,
    m: Map<Seq<char>, Seq<char>>,
    i: int,
    acc: Seq<Type>,
) -> Option<Seq<Type>>
    decreases prog.len() - i,
{
    if i < 0 || i >= prog.len() {
        Some(acc)
    } else {
        match typecheck_stmt_spec(prog[i], m) {
            Some(t) => typecheck_spec(prog, m, i + 1, acc.push(t)),
            None => None,
        }
    }
}

} // verus!
