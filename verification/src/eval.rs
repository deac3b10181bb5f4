use crate::ast::stmts_view;
use crate::ast::Expression;
use crate::ast::SpecExpr;
use crate::ast::SpecStmt;
use crate::ast::Statement;
use crate::environment::env_assign_spec;
use crate::environment::scope_lookup;
use crate::environment::Environment;
use crate::environment::env_define_spec;
use crate::environment::env_lookup;
use crate::environment::env_pop_spec;
use crate::tokens::push_char;
use crate::typechecker::string_to_type_spec;
use crate::typechecker::ty_of_spec;
use crate::typechecker::typecheck_spec;
use crate::typechecker::typecheck_stmt_spec;
use crate::typechecker::typecheck_stmts_spec;
use crate::typechecker::Type;
use crate::tokens::SpecToken;
use crate::tokens::Token;
use vstd::prelude::*;
use vstd::string::StringExecFns;

verus! {

/// A runtime value. `Float` carries the literal text the lexer read: this
/// crate performs no floating-point arithmetic, and callers that print a
/// float format that text themselves.
#[derive(Debug, PartialEq)]
pub enum Value {
    Int(i64),
    Float(String),
    Bool(bool),
    String(String),
    Null,
}

/// The mathematical model of a [`Value`]: text is a `Seq<char>`.
pub enum SpecValue {
    Int(i64),
    Float(Seq<char>),
    Bool(bool),
    String(Seq<char>),
    Null,
}

impl View for Value {
    type V = SpecValue;

    open spec fn view(&self) -> SpecValue {
        match self {
            Value::Int(i) => SpecValue::Int(*i),
            Value::Float(s) => SpecValue::Float(s@),
            Value::Bool(b) => SpecValue::Bool(*b),
            Value::String(s) => SpecValue::String(s@),
            Value::Null => SpecValue::Null,
        }
    }
}

impl Clone for Value {
    /// The copy models exactly as the original does.
    fn clone(&self) -> (r: Value)
        ensures
            r@ == self@,
    {
        match self {
            Value::Int(i) => Value::Int(*i),
            Value::Float(s) => Value::Float(s.clone()),
            Value::Bool(b) => Value::Bool(*b),
            Value::String(s) => Value::String(s.clone()),
            Value::Null => Value::Null,
        }
    }
}

/// The control-flow reading of a value: `false` and `null` are false,
/// everything else is true.
pub open spec fn is_truthy_spec(v: SpecValue) -> bool {
    match v {
        SpecValue::Bool(b) => b,
        SpecValue::Null => false,
        _ => true,
    }
}

impl Value {
    /// Whether the value counts as true in a condition: a boolean is its own
    /// truth, `null` is false, and every other value is true.
    pub fn is_truthy(&self) -> (b: bool)
        ensures
            b == is_truthy_spec(self@),
    {
        match self {
            Value::Bool(b) => *b,
            Value::Null => false,
            _ => true,
        }
    }
}

/// A runtime error, as the evaluation of a program reports it.
///
/// Integer arithmetic here is checked: a sum, difference, product, negation
/// or division whose mathematical result does not fit in `i64` reports
/// `Overflow` rather than wrapping. Arithmetic and ordering on two float
/// values report `FloatUnsupported`: this crate computes nothing in floating
/// point, and a caller that needs it evaluates the carried literal text
/// itself.
#[derive(Debug, PartialEq)]
pub enum RuntimeError {
    /// A name was read or assigned that no scope in the chain binds.
    UndefinedVariable(String),
    /// An operator met an operand the language gives it no meaning on.
    InvalidOperand,
    /// An integer division's divisor evaluated to zero.
    DivisionByZero,
    /// An integer operation's result does not fit in `i64`.
    Overflow,
    /// An operator was applied to float values.
    FloatUnsupported,
}

/// The mathematical model of a [`RuntimeError`].
pub enum SpecErr {
    UndefinedVariable(Seq<char>),
    InvalidOperand,
    DivisionByZero,
    Overflow,
    FloatUnsupported,
}

impl View for RuntimeError {
    type V = SpecErr;

    open spec fn view(&self) -> SpecErr {
        match self {
            RuntimeError::UndefinedVariable(n) => SpecErr::UndefinedVariable(n@),
            RuntimeError::InvalidOperand => SpecErr::InvalidOperand,
            RuntimeError::DivisionByZero => SpecErr::DivisionByZero,
            RuntimeError::Overflow => SpecErr::Overflow,
            RuntimeError::FloatUnsupported => SpecErr::FloatUnsupported,
        }
    }
}

/// Why an evaluation stopped early: the program failed, or the caller's
/// step budget for loops ran out before it finished.
#[derive(Debug, PartialEq)]
pub enum EvalStop {
    /// The program itself failed.
    Error(RuntimeError),
    /// The fuel bound on loop iterations was exhausted; a caller may retry
    /// the whole program with a larger bound.
    OutOfFuel,
}

/// The mathematical model of an [`EvalStop`].
pub enum SpecStop {
    Error(SpecErr),
    OutOfFuel,
}

impl View for EvalStop {
    type V = SpecStop;

    open spec fn view(&self) -> SpecStop {
        match self {
            EvalStop::Error(e) => SpecStop::Error(e@),
            EvalStop::OutOfFuel => SpecStop::OutOfFuel,
        }
    }
}

/// The model of an expression result.
pub open spec fn res_view(r: Result<Value, RuntimeError>) -> Result<SpecValue, SpecErr> {
    match r {
        Ok(v) => Ok(v@),
        Err(e) => Err(e@),
    }
}

/// The model of a statement result.
pub open spec fn stop_view(r: Result<Value, EvalStop>) -> Result<SpecValue, SpecStop> {
    match r {
        Ok(v) => Ok(v@),
        Err(e) => Err(e@),
    }
}

/// The models of a sequence of values, element by element.
pub open spec fn vals_view(vs: Seq<Value>) -> Seq<SpecValue> {
    vs.map_values(|v: Value| v@)
}

// ---------------------------------------------------------------------------
// Operators on values
// ---------------------------------------------------------------------------
/// What a prefix operator yields: `-` negates an integer (reporting the one
/// value whose negation does not fit), `!` negates a boolean; a float
/// operand is not computed on; anything else has no meaning.
pub open spec fn prefix_value(op: SpecToken, a: SpecValue) -> Result<SpecValue, SpecErr> {
    match op {
        SpecToken::Minus => match a {
            SpecValue::Int(i) => {
                if i == i64::MIN {
                    Err(SpecErr::Overflow)
                } else {
                    Ok(SpecValue::Int((-i) as i64))
                }
            },
            SpecValue::Float(_) => Err(SpecErr::FloatUnsupported),
            _ => Err(SpecErr::InvalidOperand),
        },
        SpecToken::Bang => match a {
            SpecValue::Bool(b) => Ok(SpecValue::Bool(!b)),
            _ => Err(SpecErr::InvalidOperand),
        },
        _ => Err(SpecErr::InvalidOperand),
    }
}

/// What a binary operator yields on two values: checked integer arithmetic
/// with truncating division, string concatenation and comparison, boolean
/// logic without short-circuiting, and equality that is `false` (`!=`:
/// `true`) across differing kinds. Two float operands are not computed on.
pub open spec fn infix_value(op: SpecToken, a: SpecValue, b: SpecValue) -> Result<
    SpecValue,
    SpecErr,
> {
    match op {
        SpecToken::Plus => match (a, b) {
            (SpecValue::Int(x), SpecValue::Int(y)) => {
                if i64::MIN <= x + y <= i64::MAX {
                    Ok(SpecValue::Int((x + y) as i64))
                } else {
                    Err(SpecErr::Overflow)
                }
            },
            (SpecValue::Float(_), SpecValue::Float(_)) => Err(SpecErr::FloatUnsupported),
            (SpecValue::String(x), SpecValue::String(y)) => Ok(SpecValue::String(x + y)),
            _ => Err(SpecErr::InvalidOperand),
        },
        SpecToken::Minus => match (a, b) {
            (SpecValue::Int(x), SpecValue::Int(y)) => {
                if i64::MIN <= x - y <= i64::MAX {
                    Ok(SpecValue::Int((x - y) as i64))
                } else {
                    Err(SpecErr::Overflow)
                }
            },
            (SpecValue::Float(_), SpecValue::Float(_)) => Err(SpecErr::FloatUnsupported),
            _ => Err(SpecErr::InvalidOperand),
        },
        SpecToken::Times => match (a, b) {
            (SpecValue::Int(x), SpecValue::Int(y)) => {
                if i64::MIN <= x * y <= i64::MAX {
                    Ok(SpecValue::Int((x * y) as i64))
                } else {
                    Err(SpecErr::Overflow)
                }
            },
            (SpecValue::Float(_), SpecValue::Float(_)) => Err(SpecErr::FloatUnsupported),
            _ => Err(SpecErr::InvalidOperand),
        },
        SpecToken::Divide => match (a, b) {
            (SpecValue::Int(x), SpecValue::Int(y)) => {
                if y == 0 {
                    Err(SpecErr::DivisionByZero)
                } else {
                    match x.checked_div(y) {
                        Some(q) => Ok(SpecValue::Int(q)),
                        None => Err(SpecErr::Overflow),
                    }
                }
            },
            (SpecValue::Float(_), SpecValue::Float(_)) => Err(SpecErr::FloatUnsupported),
            _ => Err(SpecErr::InvalidOperand),
        },
        SpecToken::DoubleEqual => match (a, b) {
            (SpecValue::Int(x), SpecValue::Int(y)) => Ok(SpecValue::Bool(x == y)),
            (SpecValue::Float(_), SpecValue::Float(_)) => Err(SpecErr::FloatUnsupported),
            (SpecValue::Bool(x), SpecValue::Bool(y)) => Ok(SpecValue::Bool(x == y)),
            (SpecValue::String(x), SpecValue::String(y)) => Ok(SpecValue::Bool(x == y)),
            (SpecValue::Null, SpecValue::Null) => Ok(SpecValue::Bool(true)),
            _ => Ok(SpecValue::Bool(false)),
        },
        SpecToken::BangEqual => match (a, b) {
            (SpecValue::Int(x), SpecValue::Int(y)) => Ok(SpecValue::Bool(x != y)),
            (SpecValue::Float(_), SpecValue::Float(_)) => Err(SpecErr::FloatUnsupported),
            (SpecValue::Bool(x), SpecValue::Bool(y)) => Ok(SpecValue::Bool(x != y)),
            (SpecValue::String(x), SpecValue::String(y)) => Ok(SpecValue::Bool(x != y)),
            (SpecValue::Null, SpecValue::Null) => Ok(SpecValue::Bool(false)),
            _ => Ok(SpecValue::Bool(true)),
        },
        SpecToken::Greater => match (a, b) {
            (SpecValue::Int(x), SpecValue::Int(y)) => Ok(SpecValue::Bool(x > y)),
            (SpecValue::Float(_), SpecValue::Float(_)) => Err(SpecErr::FloatUnsupported),
            _ => Err(SpecErr::InvalidOperand),
        },
        SpecToken::Less => match (a, b) {
            (SpecValue::Int(x), SpecValue::Int(y)) => Ok(SpecValue::Bool(x < y)),
            (SpecValue::Float(_), SpecValue::Float(_)) => Err(SpecErr::FloatUnsupported),
            _ => Err(SpecErr::InvalidOperand),
        },
        SpecToken::GreaterEqual => match (a, b) {
            (SpecValue::Int(x), SpecValue::Int(y)) => Ok(SpecValue::Bool(x >= y)),
            (SpecValue::Float(_), SpecValue::Float(_)) => Err(SpecErr::FloatUnsupported),
            _ => Err(SpecErr::InvalidOperand),
        },
        SpecToken::LessEqual => match (a, b) {
            (SpecValue::Int(x), SpecValue::Int(y)) => Ok(SpecValue::Bool(x <= y)),
            (SpecValue::Float(_), SpecValue::Float(_)) => Err(SpecErr::FloatUnsupported),
            _ => Err(SpecErr::InvalidOperand),
        },
        SpecToken::Or => match (a, b) {
            (SpecValue::Bool(x), SpecValue::Bool(y)) => Ok(SpecValue::Bool(x || y)),
            _ => Err(SpecErr::InvalidOperand),
        },
        SpecToken::And => match (a, b) {
            (SpecValue::Bool(x), SpecValue::Bool(y)) => Ok(SpecValue::Bool(x && y)),
            _ => Err(SpecErr::InvalidOperand),
        },
        _ => Err(SpecErr::InvalidOperand),
    }
}

/// Apply a prefix operator, as [`prefix_value`] states it.
fn apply_prefix(op: &Token, a: Value) -> (r: Result<Value, RuntimeError>)
    ensures
        res_view(r) == prefix_value(op@, a@),
{
    match (op, a) {
        (Token::Minus, Value::Int(i)) => {
            if i == i64::MIN {
                Err(RuntimeError::Overflow)
            } else {
                Ok(Value::Int(-i))
            }
        },
        (Token::Minus, Value::Float(_)) => Err(RuntimeError::FloatUnsupported),
        (Token::Bang, Value::Bool(b)) => Ok(Value::Bool(!b)),
        _ => Err(RuntimeError::InvalidOperand),
    }
}

/// Apply a binary operator, as [`infix_value`] states it.
#[verifier::rlimit(100)]
fn apply_infix(op: &Token, a: Value, b: Value) -> (r: Result<Value, RuntimeError>)
    ensures
        res_view(r) == infix_value(op@, a@, b@),
{
    match (op, a, b) {
        (Token::Plus, Value::Int(x), Value::Int(y)) => match x.checked_add(y) {
            Some(v) => Ok(Value::Int(v)),
            None => Err(RuntimeError::Overflow),
        },
        (Token::Plus, Value::Float(_), Value::Float(_)) => Err(RuntimeError::FloatUnsupported),
        (Token::Plus, Value::String(x), Value::String(y)) => Ok(
            Value::String(x.concat(y.as_str())),
        ),
        (Token::Minus, Value::Int(x), Value::Int(y)) => match x.checked_sub(y) {
            Some(v) => Ok(Value::Int(v)),
            None => Err(RuntimeError::Overflow),
        },
        (Token::Minus, Value::Float(_), Value::Float(_)) => Err(RuntimeError::FloatUnsupported),
        (Token::Times, Value::Int(x), Value::Int(y)) => match x.checked_mul(y) {
            Some(v) => Ok(Value::Int(v)),
            None => Err(RuntimeError::Overflow),
        },
        (Token::Times, Value::Float(_), Value::Float(_)) => Err(RuntimeError::FloatUnsupported),
        (Token::Divide, Value::Int(x), Value::Int(y)) => {
            if y == 0 {
                Err(RuntimeError::DivisionByZero)
            } else {
                match x.checked_div(y) {
                    Some(q) => Ok(Value::Int(q)),
                    None => Err(RuntimeError::Overflow),
                }
            }
        },
        (Token::Divide, Value::Float(_), Value::Float(_)) => Err(RuntimeError::FloatUnsupported),
        (Token::DoubleEqual, Value::Int(x), Value::Int(y)) => Ok(Value::Bool(x == y)),
        (Token::DoubleEqual, Value::Float(_), Value::Float(_)) => Err(
            RuntimeError::FloatUnsupported,
        ),
        (Token::DoubleEqual, Value::Bool(x), Value::Bool(y)) => Ok(Value::Bool(x == y)),
        (Token::DoubleEqual, Value::String(x), Value::String(y)) => Ok(Value::Bool(x == y)),
        (Token::DoubleEqual, Value::Null, Value::Null) => Ok(Value::Bool(true)),
        (Token::DoubleEqual, _, _) => Ok(Value::Bool(false)),
        (Token::BangEqual, Value::Int(x), Value::Int(y)) => Ok(Value::Bool(x != y)),
        (Token::BangEqual, Value::Float(_), Value::Float(_)) => Err(
            RuntimeError::FloatUnsupported,
        ),
        (Token::BangEqual, Value::Bool(x), Value::Bool(y)) => Ok(Value::Bool(x != y)),
        (Token::BangEqual, Value::String(x), Value::String(y)) => Ok(Value::Bool(x != y)),
        (Token::BangEqual, Value::Null, Value::Null) => Ok(Value::Bool(false)),
        (Token::BangEqual, _, _) => Ok(Value::Bool(true)),
        (Token::Greater, Value::Int(x), Value::Int(y)) => Ok(Value::Bool(x > y)),
        (Token::Greater, Value::Float(_), Value::Float(_)) => Err(RuntimeError::FloatUnsupported),
        (Token::Less, Value::Int(x), Value::Int(y)) => Ok(Value::Bool(x < y)),
        (Token::Less, Value::Float(_), Value::Float(_)) => Err(RuntimeError::FloatUnsupported),
        (Token::GreaterEqual, Value::Int(x), Value::Int(y)) => Ok(Value::Bool(x >= y)),
        (Token::GreaterEqual, Value::Float(_), Value::Float(_)) => Err(
            RuntimeError::FloatUnsupported,
        ),
        (Token::LessEqual, Value::Int(x), Value::Int(y)) => Ok(Value::Bool(x <= y)),
        (Token::LessEqual, Value::Float(_), Value::Float(_)) => Err(
            RuntimeError::FloatUnsupported,
        ),
        (Token::Or, Value::Bool(x), Value::Bool(y)) => Ok(Value::Bool(x || y)),
        (Token::And, Value::Bool(x), Value::Bool(y)) => Ok(Value::Bool(x && y)),
        _ => Err(RuntimeError::InvalidOperand),
    }
}

// ---------------------------------------------------------------------------
// The canonical text form
// ---------------------------------------------------------------------------
/// The decimal digits of `n`, most significant first.
pub open spec fn dec_text(n: nat) -> Seq<char>
    decreases n,
{
    if n < 10 {
        seq![(('0' as u8) + (n as u8)) as char]
    } else {
        dec_text(n / 10).push((('0' as u8) + ((n % 10) as u8)) as char)
    }
}

/// The canonical text of a value: an integer in decimal, a boolean as
/// `true` or `false`, a string verbatim, null as `null`, and a float as the
/// literal text it carries.
pub open spec fn render_spec(v: SpecValue) -> Seq<char> {
    match v {
        SpecValue::Int(i) => {
            if i < 0 {
                seq!['-'] + dec_text((-(i as int)) as nat)
            } else {
                dec_text(i as nat)
            }
        },
        SpecValue::Float(s) => s,
        SpecValue::Bool(b) => {
            if b {
                "true"@
            } else {
                "false"@
            }
        },
        SpecValue::String(s) => s,
        SpecValue::Null => "null"@,
    }
}

/// Append the decimal digits of `n` to `s`.
fn push_dec(s: &mut String, n: u64)
    ensures
        final(s)@ == old(s)@ + dec_text(n as nat),
    decreases n,
{
    if n < 10 {
        push_char(s, (('0' as u8) + (n as u8)) as char);
        proof {
            assert(old(s)@.push(((('0' as u8) + (n as u8)) as char)) =~= old(s)@ + dec_text(n as nat));
        }
    } else {
        push_dec(s, n / 10);
        push_char(s, (('0' as u8) + ((n % 10) as u8)) as char);
        proof {
            assert((old(s)@ + dec_text((n / 10) as nat)).push(
                ((('0' as u8) + ((n % 10) as u8)) as char),
            ) =~= old(s)@ + dec_text(n as nat));
        }
    }
}

impl Value {
    /// The canonical text of the value, as [`render_spec`] states it. A
    /// float renders as the literal text it carries; a caller that wants
    /// host floating-point formatting parses and reformats that text.
    pub fn render(&self) -> (r: String)
        ensures
            r@ == render_spec(self@),
    {
        match self {
            Value::Int(i) => {
                let mut s = String::new();
                let v = *i;
                if v < 0 {
                    push_char(&mut s, '-');
                    let m: u64 = ((-(v + 1)) as u64) + 1;
                    push_dec(&mut s, m);
                    proof {
                        assert(s@ =~= render_spec(self@));
                    }
                } else {
                    push_dec(&mut s, v as u64);
                }
                s
            },
            Value::Float(s) => s.clone(),
            Value::Bool(b) => {
                if *b {
                    "true".to_owned()
                } else {
                    "false".to_owned()
                }
            },
            Value::String(s) => s.clone(),
            Value::Null => "null".to_owned(),
        }
    }
}


/// The magnitude of an integer.
pub open spec fn int_abs(x: int) -> int {
    if x >= 0 {
        x
    } else {
        -x
    }
}

/// The host's truncating integer division: the quotient rounded toward
/// zero.
pub open spec fn trunc_div(a: int, b: int) -> int {
    if (a >= 0) == (b >= 0) {
        int_abs(a) / int_abs(b)
    } else {
        -(int_abs(a) / int_abs(b))
    }
}

/// Dividing two integer values yields exactly the host's truncating
/// division: for every pair `(a, b)` with `b` nonzero, except the one pair
/// whose quotient does not fit in `i64` and is reported as an overflow.
pub proof fn lemma_division_truncates(a: i64, b: i64)
    requires
        b != 0,
        !(a == i64::MIN && b == -1),
    ensures
        infix_value(SpecToken::Divide, SpecValue::Int(a), SpecValue::Int(b)) == Ok::<
            SpecValue,
            SpecErr,
        >(SpecValue::Int(trunc_div(a as int, b as int) as i64)),
{
    let x = a as int;
    let d = b as int;
    let p = int_abs(x);
    let q = int_abs(d);
    assert(p / q <= p && p / q >= 0) by (nonlinear_arith)
        requires
            p >= 0,
            q >= 1,
    ;
    if p == -(i64::MIN as int) && d < 0 {
        assert(q >= 2);
        assert(p / q < p) by (nonlinear_arith)
            requires
                p >= 2,
                q >= 2,
        ;
    }
    assert(trunc_div(x, d) == ({
        if x == 0 {
            0int
        } else if x > 0 && d > 0 {
            x / d
        } else if x < 0 && d < 0 {
            ((x * -1) / (d * -1))
        } else if x < 0 {
            ((x * -1) / d) * -1
        } else {
            (x / (d * -1)) * -1
        }
    }));
}

// ---------------------------------------------------------------------------
// The meaning of expressions
// ---------------------------------------------------------------------------
/// What evaluating an expression leaves behind: the scope chain, which an
/// assignment inside the expression may have changed, and the value or the
/// error.
pub struct ExprOutcome {
    pub env: Seq<Seq<(Seq<char>, SpecValue)>>,
    pub result: Result<SpecValue, SpecErr>,
}

/// The meaning of an expression against a scope chain. Literals are direct;
/// a name reads through the chain; an assignment evaluates its right-hand
/// side and then writes the innermost binding of its name, yielding the
/// value; operators evaluate the left operand, then the right, then apply
/// [`prefix_value`] or [`infix_value`] — both operands are always evaluated.
pub open spec fn eval_expr_spec(e: SpecExpr, env: Seq<Seq<(Seq<char>, SpecValue)>>) -> ExprOutcome
    decreases e,
{
    match e {
        SpecExpr::Integer(i) => ExprOutcome { env, result: Ok(SpecValue::Int(i)) },
        SpecExpr::Float(s) => ExprOutcome { env, result: Ok(SpecValue::Float(s)) },
        SpecExpr::String(s) => ExprOutcome { env, result: Ok(SpecValue::String(s)) },
        SpecExpr::Boolean(b) => ExprOutcome { env, result: Ok(SpecValue::Bool(b)) },
        SpecExpr::Null => ExprOutcome { env, result: Ok(SpecValue::Null) },
        SpecExpr::Identifier(n) => match env_lookup(env, n) {
            Some(v) => ExprOutcome { env, result: Ok(v) },
            None => ExprOutcome { env, result: Err(SpecErr::UndefinedVariable(n)) },
        },
        SpecExpr::Variable(n) => match env_lookup(env, n) {
            Some(v) => ExprOutcome { env, result: Ok(v) },
            None => ExprOutcome { env, result: Err(SpecErr::UndefinedVariable(n)) },
        },
        SpecExpr::Assign(n, rhs) => {
            let o = eval_expr_spec(*rhs, env);
            match o.result {
                Ok(v) => match env_assign_spec(o.env, n, v) {
                    Some(env2) => ExprOutcome { env: env2, result: Ok(v) },
                    None => ExprOutcome {
                        env: o.env,
                        result: Err(SpecErr::UndefinedVariable(n)),
                    },
                },
                Err(_) => o,
            }
        },
        SpecExpr::Prefix(op, inner) => {
            let o = eval_expr_spec(*inner, env);
            match o.result {
                Ok(v) => ExprOutcome { env: o.env, result: prefix_value(op, v) },
                Err(_) => o,
            }
        },
        SpecExpr::Infix(l, op, r) => {
            let lo = eval_expr_spec(*l, env);
            match lo.result {
                Ok(lv) => {
                    let ro = eval_expr_spec(*r, lo.env);
                    match ro.result {
                        Ok(rv) => ExprOutcome { env: ro.env, result: infix_value(op, lv, rv) },
                        Err(_) => ro,
                    }
                },
                Err(_) => lo,
            }
        },
    }
}

// ---------------------------------------------------------------------------
// The meaning of statements
// ---------------------------------------------------------------------------
/// What evaluating a statement leaves behind: the scope chain, the values
/// printed by it in order, and its value or the stop that ended it.
pub struct StmtOutcome {
    pub env: Seq<Seq<(Seq<char>, SpecValue)>>,
    pub printed: Seq<SpecValue>,
    pub result: Result<SpecValue, SpecStop>,
}

/// An expression failure, as a statement reports it.
pub open spec fn lift_res(r: Result<SpecValue, SpecErr>) -> Result<SpecValue, SpecStop> {
    match r {
        Ok(v) => Ok(v),
        Err(e) => Err(SpecStop::Error(e)),
    }
}

/// The meaning of a statement. A `print` appends the printed value; `if`
/// and `while` demand a boolean condition (`while` then goes by truthiness,
/// as the reference behavior does) and run their bodies in a fresh innermost
/// scope, as does a block; a `let` binds in the current scope and yields
/// `Null`, as do `if` and `while`; a block yields its last statement's
/// value, `Null` when empty. `fuel` bounds the iterations of each loop:
/// a loop about to exceed it stops with `OutOfFuel`.
pub open spec fn eval_stmt_spec(
    s: SpecStmt,
    env: Seq<Seq<(Seq<char>, SpecValue)>>,
    fuel: nat,
) -> StmtOutcome
    decreases fuel, s, 0int,
    via eval_stmt_spec_decreases
{
    match s {
        SpecStmt::Expression(e) => {
            let o = eval_expr_spec(e, env);
            StmtOutcome { env: o.env, printed: Seq::empty(), result: lift_res(o.result) }
        },
        SpecStmt::Print(e) => {
            let o = eval_expr_spec(e, env);
            match o.result {
                Ok(v) => StmtOutcome { env: o.env, printed: seq![v], result: Ok(v) },
                Err(er) => StmtOutcome {
                    env: o.env,
                    printed: Seq::empty(),
                    result: Err(SpecStop::Error(er)),
                },
            }
        },
        SpecStmt::If(c, body) => {
            let o = eval_expr_spec(*c, env);
            match o.result {
                Ok(SpecValue::Bool(true)) => {
                    let bo = eval_stmt_spec(*body, o.env.push(Seq::empty()), fuel);
                    match bo.result {
                        Ok(_) => StmtOutcome {
                            env: env_pop_spec(bo.env),
                            printed: bo.printed,
                            result: Ok(SpecValue::Null),
                        },
                        Err(st) => StmtOutcome {
                            env: env_pop_spec(bo.env),
                            printed: bo.printed,
                            result: Err(st),
                        },
                    }
                },
                Ok(SpecValue::Bool(false)) => StmtOutcome {
                    env: o.env,
                    printed: Seq::empty(),
                    result: Ok(SpecValue::Null),
                },
                Ok(_) => StmtOutcome {
                    env: o.env,
                    printed: Seq::empty(),
                    result: Err(SpecStop::Error(SpecErr::InvalidOperand)),
                },
                Err(er) => StmtOutcome {
                    env: o.env,
                    printed: Seq::empty(),
                    result: Err(SpecStop::Error(er)),
                },
            }
        },
        SpecStmt::IfElse(c, body, alt) => {
            let o = eval_expr_spec(*c, env);
            match o.result {
                Ok(SpecValue::Bool(cv)) => {
                    let bo = if cv {
                        eval_stmt_spec(*body, o.env.push(Seq::empty()), fuel)
                    } else {
                        eval_stmt_spec(*alt, o.env.push(Seq::empty()), fuel)
                    };
                    match bo.result {
                        Ok(_) => StmtOutcome {
                            env: env_pop_spec(bo.env),
                            printed: bo.printed,
                            result: Ok(SpecValue::Null),
                        },
                        Err(st) => StmtOutcome {
                            env: env_pop_spec(bo.env),
                            printed: bo.printed,
                            result: Err(st),
                        },
                    }
                },
                Ok(_) => StmtOutcome {
                    env: o.env,
                    printed: Seq::empty(),
                    result: Err(SpecStop::Error(SpecErr::InvalidOperand)),
                },
                Err(er) => StmtOutcome {
                    env: o.env,
                    printed: Seq::empty(),
                    result: Err(SpecStop::Error(er)),
                },
            }
        },
        SpecStmt::While(c, body) => {
            let o = eval_expr_spec(c, env);
            match o.result {
                Ok(v) => {
                    if !is_truthy_spec(v) {
                        StmtOutcome {
                            env: o.env,
                            printed: Seq::empty(),
                            result: Ok(SpecValue::Null),
                        }
                    } else if fuel == 0 {
                        StmtOutcome {
                            env: o.env,
                            printed: Seq::empty(),
                            result: Err(SpecStop::OutOfFuel),
                        }
                    } else {
                        let bo = eval_stmt_spec(*body, o.env.push(Seq::empty()), fuel);
                        let env2 = env_pop_spec(bo.env);
                        match bo.result {
                            Ok(_) => {
                                let rest = eval_stmt_spec(
                                    SpecStmt::While(c, body),
                                    env2,
                                    (fuel - 1) as nat,
                                );
                                StmtOutcome {
                                    env: rest.env,
                                    printed: bo.printed + rest.printed,
                                    result: rest.result,
                                }
                            },
                            Err(st) => StmtOutcome {
                                env: env2,
                                printed: bo.printed,
                                result: Err(st),
                            },
                        }
                    }
                },
                Err(er) => StmtOutcome {
                    env: o.env,
                    printed: Seq::empty(),
                    result: Err(SpecStop::Error(er)),
                },
            }
        },
        SpecStmt::Let(name, _tyname, init) => {
            let o = eval_expr_spec(*init, env);
            match o.result {
                Ok(v) => StmtOutcome {
                    env: env_define_spec(o.env, name, v),
                    printed: Seq::empty(),
                    result: Ok(SpecValue::Null),
                },
                Err(er) => StmtOutcome {
                    env: o.env,
                    printed: Seq::empty(),
                    result: Err(SpecStop::Error(er)),
                },
            }
        },
        SpecStmt::Block(ss) => {
            let bo = eval_stmts_spec(
                ss,
                env.push(Seq::empty()),
                fuel,
                0,
                SpecValue::Null,
                Seq::empty(),
            );
            StmtOutcome { env: env_pop_spec(bo.env), printed: bo.printed, result: bo.result }
        },
    }
}

/// The meaning of a statement list from index `i` on: statements run in
/// order; the list yields the last statement's value, or `acc` when none
/// remain; the first stop ends it. `printed` accumulates the values printed
/// so far.
pub open spec fn eval_stmts_spec(
    ss: Seq<SpecStmt>,
    env: Seq<Seq<(Seq<char>, SpecValue)>>,
    fuel: nat,
    i: int,
    acc: SpecValue,
    printed: Seq<SpecValue>,
) -> StmtOutcome
    decreases fuel, ss, ss.len() - i,
{
    if i < 0 || i >= ss.len() {
        StmtOutcome { env, printed, result: Ok(acc) }
    } else {
        let so = eval_stmt_spec(ss[i], env, fuel);
        match so.result {
            Ok(v) => eval_stmts_spec(ss, so.env, fuel, i + 1, v, printed + so.printed),
            Err(st) => StmtOutcome {
                env: so.env,
                printed: printed + so.printed,
                result: Err(st),
            },
        }
    }
}

#[via_fn]
proof fn eval_stmt_spec_decreases(s: SpecStmt, env: Seq<Seq<(Seq<char>, SpecValue)>>, fuel: nat) {
    match s {
        SpecStmt::Block(ss) => {
            assert(decreases_to!(s => ss));
        },
        _ => {},
    }
}

/// What evaluating a whole program leaves behind: the scope chain, the
/// printed values, and the top-level statements' values in order, or the
/// stop that ended the run.
pub struct ProgOutcome {
    pub env: Seq<Seq<(Seq<char>, SpecValue)>>,
    pub printed: Seq<SpecValue>,
    pub result: Result<Seq<SpecValue>, SpecStop>,
}

/// The meaning of a program from statement `i` on: each top-level statement
/// runs in order with the full loop budget, `vals` and `printed`
/// accumulating the statements' values and the printed output.
pub open spec fn eval_prog_spec(
    ss: Seq<SpecStmt>,
    env: Seq<Seq<(Seq<char>, SpecValue)>>,
    fuel: nat,
    i: int,
    vals: Seq<SpecValue>,
    printed: Seq<SpecValue>,
) -> ProgOutcome
    decreases ss.len() - i,
{
    if i < 0 || i >= ss.len() {
        ProgOutcome { env, printed, result: Ok(vals) }
    } else {
        let so = eval_stmt_spec(ss[i], env, fuel);
        match so.result {
            Ok(v) => eval_prog_spec(ss, so.env, fuel, i + 1, vals.push(v), printed + so.printed),
            Err(st) => ProgOutcome {
                env: so.env,
                printed: printed + so.printed,
                result: Err(st),
            },
        }
    }
}

// ---------------------------------------------------------------------------
// Type soundness
// ---------------------------------------------------------------------------
/// Whether a runtime value belongs to a static type.
pub open spec fn value_has_type(v: SpecValue, t: Type) -> bool {
    match (v, t) {
        (SpecValue::Int(_), Type::Integer) => true,
        (SpecValue::Float(_), Type::Float) => true,
        (SpecValue::Bool(_), Type::Boolean) => true,
        (SpecValue::String(_), Type::String) => true,
        (SpecValue::Null, Type::Null) => true,
        _ => false,
    }
}

/// Whether a binding carries a value of its name's declared type.
pub open spec fn binding_typed(
    n: Seq<char>,
    v: SpecValue,
    m: Map<Seq<char>, Seq<char>>,
) -> bool {
    m.contains_key(n) && match string_to_type_spec(m[n]) {
        Some(t) => value_has_type(v, t),
        None => false,
    }
}

pub open spec fn scope_typed(sc: Seq<(Seq<char>, SpecValue)>, m: Map<Seq<char>, Seq<char>>) -> bool {
    forall|ei: int| 0 <= ei < sc.len() ==> binding_typed(sc[ei].0, sc[ei].1, m)
}

/// Whether every binding in the chain carries a value of its name's
/// declared type.
pub open spec fn env_typed(
    env: Seq<Seq<(Seq<char>, SpecValue)>>,
    m: Map<Seq<char>, Seq<char>>,
) -> bool {
    forall|si: int| 0 <= si < env.len() ==> scope_typed(env[si], m)
}

/// Whether every `let` in a statement declares the type the table records
/// for its name. The table is one map for the whole program, so a name
/// shadowed under two different declared types falls outside this
/// discipline.
pub open spec fn lets_consistent(s: SpecStmt, m: Map<Seq<char>, Seq<char>>) -> bool
    decreases s, 0nat, 0int,
    via lets_consistent_decreases
{
    match s {
        SpecStmt::Expression(_) => true,
        SpecStmt::Print(_) => true,
        SpecStmt::If(_, body) => lets_consistent(*body, m),
        SpecStmt::IfElse(_, body, alt) => lets_consistent(*body, m) && lets_consistent(*alt, m),
        SpecStmt::While(_, body) => lets_consistent(*body, m),
        SpecStmt::Let(n, tyname, _) => m.contains_key(n) && string_to_type_spec(m[n])
            == string_to_type_spec(tyname),
        SpecStmt::Block(ss) => lets_consistent_seq(ss, m, 0),
    }
}

pub open spec fn lets_consistent_seq(
    ss: Seq<SpecStmt>,
    m: Map<Seq<char>, Seq<char>>,
    i: int,
) -> bool
    decreases ss, 1nat, ss.len() - i,
{
    if i < 0 || i >= ss.len() {
        true
    } else {
        lets_consistent(ss[i], m) && lets_consistent_seq(ss, m, i + 1)
    }
}

#[via_fn]
proof fn lets_consistent_decreases(s: SpecStmt, m: Map<Seq<char>, Seq<char>>) {
    match s {
        SpecStmt::Block(ss) => {
            assert(decreases_to!(s => ss));
        },
        _ => {},
    }
}

proof fn lemma_scope_lookup_typed(
    sc: Seq<(Seq<char>, SpecValue)>,
    m: Map<Seq<char>, Seq<char>>,
    n: Seq<char>,
)
    requires
        scope_typed(sc, m),
    ensures
        scope_lookup(sc, n) matches Some(v) ==> binding_typed(n, v, m),
    decreases sc.len(),
{
    if sc.len() > 0 && sc.last().0 != n {
        assert(scope_typed(sc.drop_last(), m));
        lemma_scope_lookup_typed(sc.drop_last(), m, n);
    }
}

proof fn lemma_env_lookup_typed(
    env: Seq<Seq<(Seq<char>, SpecValue)>>,
    m: Map<Seq<char>, Seq<char>>,
    n: Seq<char>,
)
    requires
        env_typed(env, m),
    ensures
        env_lookup(env, n) matches Some(v) ==> binding_typed(n, v, m),
    decreases env.len(),
{
    if env.len() > 0 {
        lemma_scope_lookup_typed(env.last(), m, n);
        assert(env_typed(env.drop_last(), m));
        lemma_env_lookup_typed(env.drop_last(), m, n);
    }
}

proof fn lemma_env_assign_typed(
    env: Seq<Seq<(Seq<char>, SpecValue)>>,
    m: Map<Seq<char>, Seq<char>>,
    n: Seq<char>,
    v: SpecValue,
)
    requires
        env_typed(env, m),
        binding_typed(n, v, m),
    ensures
        env_assign_spec(env, n, v) matches Some(env2) ==> env_typed(env2, m),
    decreases env.len(),
{
    if env.len() > 0 {
        if scope_lookup(env.last(), n) is Some {
            let env2 = env.update(env.len() - 1, env.last().push((n, v)));
            assert forall|si: int| 0 <= si < env2.len() implies scope_typed(env2[si], m) by {
                if si == env.len() - 1 {
                    let sc2 = env.last().push((n, v));
                    assert forall|ei: int| 0 <= ei < sc2.len() implies binding_typed(
                        sc2[ei].0,
                        sc2[ei].1,
                        m,
                    ) by {
                        if ei < sc2.len() - 1 {
                            assert(sc2[ei] == env.last()[ei]);
                        }
                    }
                }
            }
        } else {
            assert(env_typed(env.drop_last(), m));
            lemma_env_assign_typed(env.drop_last(), m, n, v);
            match env_assign_spec(env.drop_last(), n, v) {
                Some(outer) => {
                    let env2 = outer.push(env.last());
                    assert(forall|si: int|
                        0 <= si < outer.len() ==> env2[si] == outer[si] && scope_typed(
                            outer[si],
                            m,
                        ));
                    assert(env2[env2.len() - 1] == env.last());
                },
                None => {},
            }
        }
    }
}

/// Expression-level type soundness: against a chain whose bindings obey the
/// declared-type table, a well-typed expression never meets an invalid
/// operand, keeps the chain well typed, and any value it yields belongs to
/// its derived type. It may still fail: on a name not yet bound, on
/// division by zero or overflow, or on float arithmetic, none of which is a
/// type mismatch.
#[verifier::rlimit(100)]
pub proof fn lemma_expr_soundness(
    e: SpecExpr,
    env: Seq<Seq<(Seq<char>, SpecValue)>>,
    m: Map<Seq<char>, Seq<char>>,
    t: Type,
)
    requires
        ty_of_spec(e, m) == Some(t),
        env_typed(env, m),
    ensures
        env_typed(eval_expr_spec(e, env).env, m),
        eval_expr_spec(e, env).result != Err::<SpecValue, SpecErr>(SpecErr::InvalidOperand),
        eval_expr_spec(e, env).result matches Ok(v) ==> value_has_type(v, t),
    decreases e,
{
    match e {
        SpecExpr::Identifier(n) => {
            lemma_env_lookup_typed(env, m, n);
        },
        SpecExpr::Variable(n) => {
            lemma_env_lookup_typed(env, m, n);
        },
        SpecExpr::Assign(n, rhs) => {
            let tv = (match ty_of_spec(*rhs, m) {
                Some(tv) => tv,
                None => t,
            });
            lemma_expr_soundness(*rhs, env, m, tv);
            let o = eval_expr_spec(*rhs, env);
            match o.result {
                Ok(v) => {
                    lemma_env_assign_typed(o.env, m, n, v);
                },
                Err(_) => {},
            }
        },
        SpecExpr::Prefix(op, inner) => {
            let ti = (match ty_of_spec(*inner, m) {
                Some(ti) => ti,
                None => t,
            });
            lemma_expr_soundness(*inner, env, m, ti);
        },
        SpecExpr::Infix(l, op, r) => {
            let tl = (match ty_of_spec(*l, m) {
                Some(tl) => tl,
                None => t,
            });
            let tr = (match ty_of_spec(*r, m) {
                Some(tr) => tr,
                None => t,
            });
            lemma_expr_soundness(*l, env, m, tl);
            let lo = eval_expr_spec(*l, env);
            match lo.result {
                Ok(_) => {
                    lemma_expr_soundness(*r, lo.env, m, tr);
                },
                Err(_) => {},
            }
        },
        _ => {},
    }
}

/// Statement-level type soundness: a well-typed statement whose `let`s
/// agree with the declared-type table keeps the chain well typed and never
/// stops with an invalid operand, whatever the loop budget.
#[verifier::rlimit(100)]
pub proof fn lemma_stmt_soundness(
    s: SpecStmt,
    env: Seq<Seq<(Seq<char>, SpecValue)>>,
    m: Map<Seq<char>, Seq<char>>,
    fuel: nat,
)
    requires
        typecheck_stmt_spec(s, m) is Some,
        lets_consistent(s, m),
        env_typed(env, m),
    ensures
        env_typed(eval_stmt_spec(s, env, fuel).env, m),
        eval_stmt_spec(s, env, fuel).result != Err::<SpecValue, SpecStop>(
            SpecStop::Error(SpecErr::InvalidOperand),
        ),
    decreases fuel, s, 0int,
{
    match s {
        SpecStmt::Expression(e) => {
            lemma_expr_soundness(e, env, m, typecheck_stmt_spec(s, m).unwrap());
        },
        SpecStmt::Print(e) => {
            lemma_expr_soundness(e, env, m, typecheck_stmt_spec(s, m).unwrap());
        },
        SpecStmt::If(c, body) => {
            lemma_expr_soundness(*c, env, m, Type::Boolean);
            let o = eval_expr_spec(*c, env);
            match o.result {
                Ok(SpecValue::Bool(true)) => {
                    let pushed = o.env.push(Seq::<(Seq<char>, SpecValue)>::empty());
                    assert(env_typed(pushed, m));
                    lemma_stmt_soundness(*body, pushed, m, fuel);
                    let bo = eval_stmt_spec(*body, pushed, fuel);
                    assert(env_typed(env_pop_spec(bo.env), m));
                },
                _ => {},
            }
        },
        SpecStmt::IfElse(c, body, alt) => {
            lemma_expr_soundness(*c, env, m, Type::Boolean);
            let o = eval_expr_spec(*c, env);
            match o.result {
                Ok(SpecValue::Bool(cv)) => {
                    let pushed = o.env.push(Seq::<(Seq<char>, SpecValue)>::empty());
                    assert(env_typed(pushed, m));
                    if cv {
                        lemma_stmt_soundness(*body, pushed, m, fuel);
                        let bo = eval_stmt_spec(*body, pushed, fuel);
                        assert(env_typed(env_pop_spec(bo.env), m));
                    } else {
                        lemma_stmt_soundness(*alt, pushed, m, fuel);
                        let bo = eval_stmt_spec(*alt, pushed, fuel);
                        assert(env_typed(env_pop_spec(bo.env), m));
                    }
                },
                _ => {},
            }
        },
        SpecStmt::While(c, body) => {
            lemma_expr_soundness(c, env, m, Type::Boolean);
            let o = eval_expr_spec(c, env);
            match o.result {
                Ok(v) => {
                    if is_truthy_spec(v) && fuel > 0 {
                        let pushed = o.env.push(Seq::<(Seq<char>, SpecValue)>::empty());
                        assert(env_typed(pushed, m));
                        lemma_stmt_soundness(*body, pushed, m, fuel);
                        let bo = eval_stmt_spec(*body, pushed, fuel);
                        let env2 = env_pop_spec(bo.env);
                        assert(env_typed(env2, m));
                        match bo.result {
                            Ok(_) => {
                                lemma_stmt_soundness(
                                    SpecStmt::While(c, body),
                                    env2,
                                    m,
                                    (fuel - 1) as nat,
                                );
                            },
                            Err(_) => {},
                        }
                    }
                },
                Err(_) => {},
            }
        },
        SpecStmt::Let(n, tyname, init) => {
            let tv = (match ty_of_spec(*init, m) {
                Some(tv) => tv,
                None => Type::Null,
            });
            lemma_expr_soundness(*init, env, m, tv);
            let o = eval_expr_spec(*init, env);
            match o.result {
                Ok(v) => {
                    let env2 = env_define_spec(o.env, n, v);
                    assert(binding_typed(n, v, m));
                    if o.env.len() > 0 {
                        let sc2 = o.env.last().push((n, v));
                        assert forall|ei: int| 0 <= ei < sc2.len() implies binding_typed(
                            sc2[ei].0,
                            sc2[ei].1,
                            m,
                        ) by {
                            if ei < sc2.len() - 1 {
                                assert(sc2[ei] == o.env.last()[ei]);
                            }
                        }
                        assert forall|si: int| 0 <= si < env2.len() implies scope_typed(
                            env2[si],
                            m,
                        ) by {
                            if si < env2.len() - 1 {
                                assert(env2[si] == o.env[si]);
                            }
                        }
                    }
                },
                Err(_) => {},
            }
        },
        SpecStmt::Block(ss) => {
            let pushed = env.push(Seq::<(Seq<char>, SpecValue)>::empty());
            assert(env_typed(pushed, m));
            lemma_stmts_soundness(ss, pushed, m, fuel, 0, SpecValue::Null, Type::Null);
            let bo = eval_stmts_spec(ss, pushed, fuel, 0, SpecValue::Null, Seq::empty());
            assert(env_typed(env_pop_spec(bo.env), m));
        },
    }
}

proof fn lemma_stmts_soundness(
    ss: Seq<SpecStmt>,
    env: Seq<Seq<(Seq<char>, SpecValue)>>,
    m: Map<Seq<char>, Seq<char>>,
    fuel: nat,
    i: int,
    acc: SpecValue,
    tacc: Type,
)
    requires
        typecheck_stmts_spec(ss, m, i, tacc) is Some,
        lets_consistent_seq(ss, m, i),
        env_typed(env, m),
    ensures
        env_typed(eval_stmts_spec(ss, env, fuel, i, acc, Seq::empty()).env, m),
        eval_stmts_spec(ss, env, fuel, i, acc, Seq::empty()).result != Err::<
            SpecValue,
            SpecStop,
        >(SpecStop::Error(SpecErr::InvalidOperand)),
    decreases fuel, ss, ss.len() - i,
{
    if 0 <= i < ss.len() {
        lemma_stmt_soundness(ss[i], env, m, fuel);
        let so = eval_stmt_spec(ss[i], env, fuel);
        match so.result {
            Ok(v) => {
                lemma_stmts_shift(ss, so.env, fuel, i + 1, v, Seq::empty() + so.printed);
                lemma_stmts_soundness(
                    ss,
                    so.env,
                    m,
                    fuel,
                    i + 1,
                    v,
                    typecheck_stmt_spec(ss[i], m).unwrap(),
                );
            },
            Err(_) => {},
        }
    }
}

proof fn lemma_prog_soundness(
    prog: Seq<SpecStmt>,
    m: Map<Seq<char>, Seq<char>>,
    fuel: nat,
    i: int,
    env: Seq<Seq<(Seq<char>, SpecValue)>>,
    vals: Seq<SpecValue>,
    tacc: Seq<Type>,
)
    requires
        typecheck_spec(prog, m, i, tacc) is Some,
        lets_consistent_seq(prog, m, i),
        env_typed(env, m),
    ensures
        eval_prog_spec(prog, env, fuel, i, vals, Seq::empty()).result != Err::<
            Seq<SpecValue>,
            SpecStop,
        >(SpecStop::Error(SpecErr::InvalidOperand)),
    decreases prog.len() - i,
{
    if 0 <= i < prog.len() {
        lemma_stmt_soundness(prog[i], env, m, fuel);
        let so = eval_stmt_spec(prog[i], env, fuel);
        match so.result {
            Ok(v) => {
                lemma_prog_shift(prog, so.env, fuel, i + 1, vals.push(v), Seq::empty()
                    + so.printed);
                lemma_prog_soundness(
                    prog,
                    m,
                    fuel,
                    i + 1,
                    so.env,
                    vals.push(v),
                    tacc.push(typecheck_stmt_spec(prog[i], m).unwrap()),
                );
            },
            Err(_) => {},
        }
    }
}


/// Type soundness, the gap between checking and running: a program the
/// checker accepts against a declared-type table its `let`s agree with
/// never stops with an invalid-operand error, under any loop budget — the
/// checker's verdict rules type mismatches out of the run. The run may
/// still stop honestly: on a name read or assigned before its `let` ran, on
/// division by zero or integer overflow, on float arithmetic, or out of
/// fuel — none of those is a type mismatch.
pub proof fn lemma_type_soundness(prog: Seq<SpecStmt>, m: Map<Seq<char>, Seq<char>>, fuel: nat)
    requires
        typecheck_spec(prog, m, 0, Seq::empty()) is Some,
        lets_consistent_seq(prog, m, 0),
    ensures
        eval_prog_spec(
            prog,
            seq![Seq::<(Seq<char>, SpecValue)>::empty()],
            fuel,
            0,
            Seq::empty(),
            Seq::empty(),
        ).result != Err::<Seq<SpecValue>, SpecStop>(SpecStop::Error(SpecErr::InvalidOperand)),
{
    let env = seq![Seq::<(Seq<char>, SpecValue)>::empty()];
    assert(env_typed(env, m));
    lemma_prog_soundness(prog, m, fuel, 0, env, Seq::empty(), Seq::empty());
}

/// The printed accumulator only prefixes what a statement list prints.
proof fn lemma_stmts_shift(
    ss: Seq<SpecStmt>,
    env: Seq<Seq<(Seq<char>, SpecValue)>>,
    fuel: nat,
    i: int,
    acc: SpecValue,
    printed: Seq<SpecValue>,
)
    ensures
        eval_stmts_spec(ss, env, fuel, i, acc, printed).env == eval_stmts_spec(
            ss,
            env,
            fuel,
            i,
            acc,
            Seq::empty(),
        ).env,
        eval_stmts_spec(ss, env, fuel, i, acc, printed).result == eval_stmts_spec(
            ss,
            env,
            fuel,
            i,
            acc,
            Seq::empty(),
        ).result,
        eval_stmts_spec(ss, env, fuel, i, acc, printed).printed == printed + eval_stmts_spec(
            ss,
            env,
            fuel,
            i,
            acc,
            Seq::empty(),
        ).printed,
    decreases ss.len() - i,
{
    if i < 0 || i >= ss.len() {
        assert(printed + Seq::<SpecValue>::empty() =~= printed);
    } else {
        let so = eval_stmt_spec(ss[i], env, fuel);
        match so.result {
            Ok(v) => {
                lemma_stmts_shift(ss, so.env, fuel, i + 1, v, printed + so.printed);
                lemma_stmts_shift(ss, so.env, fuel, i + 1, v, Seq::empty() + so.printed);
                let tail = eval_stmts_spec(ss, so.env, fuel, i + 1, v, Seq::empty());
                assert(Seq::<SpecValue>::empty() + so.printed =~= so.printed);
                assert((printed + so.printed) + tail.printed =~= printed + (so.printed
                    + tail.printed));
            },
            Err(_) => {
                assert(Seq::<SpecValue>::empty() + so.printed =~= so.printed);
            },
        }
    }
}

// ---------------------------------------------------------------------------
// The evaluator
// ---------------------------------------------------------------------------
/// A tree-walking evaluator: it owns the scope chain it evaluates against
/// and collects every printed value, in program order, for the caller to
/// render and emit.
pub struct Evaluator {
    env: Environment,
    output: Vec<Value>,
}

impl Evaluator {
    /// The scope chain.
    pub closed spec fn envv(self) -> Seq<Seq<(Seq<char>, SpecValue)>> {
        self.env@
    }

    /// The values printed so far, in order.
    pub closed spec fn outv(self) -> Seq<SpecValue> {
        vals_view(self.output@)
    }

    /// An evaluator over a single empty scope, with nothing printed.
    pub fn new() -> (e: Evaluator)
        ensures
            e.envv() =~~= seq![Seq::<(Seq<char>, SpecValue)>::empty()],
            e.outv() =~= Seq::<SpecValue>::empty(),
    {
        Evaluator { env: Environment::new(), output: Vec::new() }
    }

    /// The values printed so far, for the caller to render.
    pub fn output(&self) -> (r: &Vec<Value>)
        ensures
            vals_view(r@) == self.outv(),
    {
        &self.output
    }

    /// Evaluate one expression, as [`eval_expr_spec`] states it.
    #[verifier::rlimit(100)]
    fn eval_expression(&mut self, expr: &Expression) -> (r: Result<Value, RuntimeError>)
        ensures
            final(self).outv() == old(self).outv(),
            final(self).envv() == eval_expr_spec(expr@, old(self).envv()).env,
            res_view(r) == eval_expr_spec(expr@, old(self).envv()).result,
        decreases *expr,
    {
        match expr {
            Expression::Integer(i) => Ok(Value::Int(*i)),
            Expression::Float(s) => Ok(Value::Float(s.clone())),
            Expression::String(s) => Ok(Value::String(s.clone())),
            Expression::Boolean(b) => Ok(Value::Bool(*b)),
            Expression::Null => Ok(Value::Null),
            Expression::Identifier(n) => match self.env.get(n.as_str()) {
                Some(v) => Ok(v),
                None => Err(RuntimeError::UndefinedVariable(n.clone())),
            },
            Expression::Variable(n) => match self.env.get(n.as_str()) {
                Some(v) => Ok(v),
                None => Err(RuntimeError::UndefinedVariable(n.clone())),
            },
            Expression::Assign(n, rhs) => {
                let v = self.eval_expression(rhs)?;
                match self.env.assign(n.as_str(), v.clone()) {
                    Ok(_) => Ok(v),
                    Err(e) => Err(e),
                }
            },
            Expression::Prefix(op, inner) => {
                let v = self.eval_expression(inner)?;
                apply_prefix(op, v)
            },
            Expression::Infix(l, op, r2) => {
                let lv = self.eval_expression(l)?;
                let rv = self.eval_expression(r2)?;
                apply_infix(op, lv, rv)
            },
        }
    }

    /// Evaluate one statement, as [`eval_stmt_spec`] states it: the printed
    /// values are appended to the evaluator's output, `fuel` bounds the
    /// iterations of each loop.
    #[verifier::rlimit(100)]
    #[verifier::loop_isolation(false)]
    fn eval_statement(&mut self, x: &Statement, fuel: u64) -> (r: Result<Value, EvalStop>)
        ensures
            final(self).envv() == eval_stmt_spec(x@, old(self).envv(), fuel as nat).env,
            final(self).outv() == old(self).outv() + eval_stmt_spec(
                x@,
                old(self).envv(),
                fuel as nat,
            ).printed,
            stop_view(r) == eval_stmt_spec(x@, old(self).envv(), fuel as nat).result,
        decreases fuel, *x,
    {
        proof {
            assert(old(self).outv() + Seq::<SpecValue>::empty() =~= old(self).outv());
        }
        match x {
            Statement::Expression(e) => match self.eval_expression(e) {
                Ok(v) => Ok(v),
                Err(er) => Err(EvalStop::Error(er)),
            },
            Statement::Print(e) => match self.eval_expression(e) {
                Ok(v) => {
                    let ghost before = self.output@;
                    self.output.push(v.clone());
                    proof {
                        assert(vals_view(self.output@) =~= vals_view(before) + seq![v@]);
                    }
                    Ok(v)
                },
                Err(er) => Err(EvalStop::Error(er)),
            },
            Statement::If(c, body) => match self.eval_expression(c) {
                Ok(Value::Bool(cv)) => {
                    if cv {
                        self.env.push_scope();
                        let r2 = self.eval_statement(body, fuel);
                        self.env.pop_scope();
                        match r2 {
                            Ok(_) => Ok(Value::Null),
                            Err(st) => Err(st),
                        }
                    } else {
                        Ok(Value::Null)
                    }
                },
                Ok(_) => Err(EvalStop::Error(RuntimeError::InvalidOperand)),
                Err(er) => Err(EvalStop::Error(er)),
            },
            Statement::IfElse(c, body, alt) => match self.eval_expression(c) {
                Ok(Value::Bool(cv)) => {
                    self.env.push_scope();
                    let r2 = if cv {
                        self.eval_statement(body, fuel)
                    } else {
                        self.eval_statement(alt, fuel)
                    };
                    self.env.pop_scope();
                    match r2 {
                        Ok(_) => Ok(Value::Null),
                        Err(st) => Err(st),
                    }
                },
                Ok(_) => Err(EvalStop::Error(RuntimeError::InvalidOperand)),
                Err(er) => Err(EvalStop::Error(er)),
            },
            Statement::While(c, body) => match self.eval_expression(c) {
                Ok(v) => {
                    if !v.is_truthy() {
                        Ok(Value::Null)
                    } else if fuel == 0 {
                        Err(EvalStop::OutOfFuel)
                    } else {
                        self.env.push_scope();
                        let r2 = self.eval_statement(body, fuel);
                        self.env.pop_scope();
                        match r2 {
                            Ok(_) => self.eval_statement(x, fuel - 1),
                            Err(st) => Err(st),
                        }
                    }
                },
                Err(er) => Err(EvalStop::Error(er)),
            },
            Statement::Let(name, _ty, init) => match self.eval_expression(init) {
                Ok(v) => {
                    self.env.define(name.clone(), v);
                    Ok(Value::Null)
                },
                Err(er) => Err(EvalStop::Error(er)),
            },
            Statement::Block(stmts) => {
                proof {
                    crate::ast::lemma_stmts_view(stmts@);
                }
                let ghost ssv = crate::ast::stmts_view(stmts@);
                self.env.push_scope();
                let ghost env0 = self.envv();
                let ghost out0 = self.outv();
                let mut last = Value::Null;
                let mut i: usize = 0;
                while i < stmts.len()
                    invariant
                        0 <= i <= stmts.len(),
                        eval_stmts_spec(ssv, env0, fuel as nat, 0, SpecValue::Null, out0)
                            == eval_stmts_spec(
                            ssv,
                            self.envv(),
                            fuel as nat,
                            i as int,
                            last@,
                            self.outv(),
                        ),
                    decreases stmts.len() - i,
                {
                    proof {
                        assert(decreases_to!(*x => *stmts));
                        assert(decreases_to!(*stmts => stmts@));
                    }
                    let r2 = self.eval_statement(&stmts[i], fuel);
                    match r2 {
                        Ok(v) => {
                            last = v;
                            i = i + 1;
                        },
                        Err(st) => {
                            self.env.pop_scope();
                            proof {
                                lemma_stmts_shift(
                                    ssv,
                                    env0,
                                    fuel as nat,
                                    0,
                                    SpecValue::Null,
                                    out0,
                                );
                            }
                            return Err(st);
                        },
                    }
                }
                self.env.pop_scope();
                proof {
                    lemma_stmts_shift(ssv, env0, fuel as nat, 0, SpecValue::Null, out0);
                }
                Ok(last)
            },
        }
    }

    /// Evaluate a whole program, as [`eval_prog_spec`] states it: the
    /// top-level statements' values in order, the printed values appended to
    /// the evaluator's output, and the first runtime error or exhausted loop
    /// budget reported instead.
    #[verifier::rlimit(100)]
    #[verifier::loop_isolation(false)]
    pub fn eval(&mut self, ast: &Vec<Statement>, fuel: u64) -> (r: Result<Vec<Value>, EvalStop>)
        ensures
            final(self).envv() == eval_prog_spec(
                stmts_view(ast@),
                old(self).envv(),
                fuel as nat,
                0,
                Seq::empty(),
                Seq::empty(),
            ).env,
            final(self).outv() == old(self).outv() + eval_prog_spec(
                stmts_view(ast@),
                old(self).envv(),
                fuel as nat,
                0,
                Seq::empty(),
                Seq::empty(),
            ).printed,
            r matches Ok(vs) ==> eval_prog_spec(
                stmts_view(ast@),
                old(self).envv(),
                fuel as nat,
                0,
                Seq::empty(),
                Seq::empty(),
            ).result == Ok::<Seq<SpecValue>, SpecStop>(vals_view(vs@)),
            r matches Err(st) ==> eval_prog_spec(
                stmts_view(ast@),
                old(self).envv(),
                fuel as nat,
                0,
                Seq::empty(),
                Seq::empty(),
            ).result == Err::<Seq<SpecValue>, SpecStop>(st@),
    {
        proof {
            crate::ast::lemma_stmts_view(ast@);
        }
        let ghost ssv = stmts_view(ast@);
        let ghost env0 = self.envv();
        let ghost out0 = self.outv();
        let mut values: Vec<Value> = Vec::new();
        proof {
            assert(vals_view(values@) =~= Seq::<SpecValue>::empty());
        }
        let mut i: usize = 0;
        while i < ast.len()
            invariant
                0 <= i <= ast.len(),
                eval_prog_spec(ssv, env0, fuel as nat, 0, Seq::empty(), out0) == eval_prog_spec(
                    ssv,
                    self.envv(),
                    fuel as nat,
                    i as int,
                    vals_view(values@),
                    self.outv(),
                ),
            decreases ast.len() - i,
        {
            let r2 = self.eval_statement(&ast[i], fuel);
            match r2 {
                Ok(v) => {
                    let ghost before = values@;
                    values.push(v);
                    proof {
                        assert(vals_view(values@) =~= vals_view(before).push(values@.last()@));
                    }
                    i = i + 1;
                },
                Err(st) => {
                    proof {
                        lemma_prog_shift(ssv, env0, fuel as nat, 0, Seq::empty(), out0);
                    }
                    return Err(st);
                },
            }
        }
        proof {
            lemma_prog_shift(ssv, env0, fuel as nat, 0, Seq::empty(), out0);
        }
        Ok(values)
    }
}

/// The accumulators only prefix what a program yields and prints.
proof fn lemma_prog_shift(
    ss: Seq<SpecStmt>,
    env: Seq<Seq<(Seq<char>, SpecValue)>>,
    fuel: nat,
    i: int,
    vals: Seq<SpecValue>,
    printed: Seq<SpecValue>,
)
    ensures
        eval_prog_spec(ss, env, fuel, i, vals, printed).env == eval_prog_spec(
            ss,
            env,
            fuel,
            i,
            vals,
            Seq::empty(),
        ).env,
        eval_prog_spec(ss, env, fuel, i, vals, printed).result == eval_prog_spec(
            ss,
            env,
            fuel,
            i,
            vals,
            Seq::empty(),
        ).result,
        eval_prog_spec(ss, env, fuel, i, vals, printed).printed == printed + eval_prog_spec(
            ss,
            env,
            fuel,
            i,
            vals,
            Seq::empty(),
        ).printed,
    decreases ss.len() - i,
{
    if i < 0 || i >= ss.len() {
        assert(printed + Seq::<SpecValue>::empty() =~= printed);
    } else {
        let so = eval_stmt_spec(ss[i], env, fuel);
        match so.result {
            Ok(v) => {
                lemma_prog_shift(ss, so.env, fuel, i + 1, vals.push(v), printed + so.printed);
                lemma_prog_shift(ss, so.env, fuel, i + 1, vals.push(v), Seq::empty() + so.printed);
                let tail = eval_prog_spec(ss, so.env, fuel, i + 1, vals.push(v), Seq::empty());
                assert(Seq::<SpecValue>::empty() + so.printed =~= so.printed);
                assert((printed + so.printed) + tail.printed =~= printed + (so.printed
                    + tail.printed));
            },
            Err(_) => {
                assert(Seq::<SpecValue>::empty() + so.printed =~= so.printed);
            },
        }
    }
}

} // verus!
