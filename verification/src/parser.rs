use crate::ast::stmts_view;
use crate::ast::Expression;
use crate::ast::SpecExpr;
use crate::ast::SpecStmt;
use crate::ast::Statement;
use crate::tokens::toks_view;
use crate::tokens::SpecToken;
use crate::tokens::Token;
use crate::typechecker::TypeMap;
use vstd::prelude::*;

verus! {

/// A parse error: the tokens do not form a program. The message and position
/// describe the offending token; the contracts of the parsing functions say
/// exactly when a token sequence is rejected.
#[derive(Debug)]
pub struct ParseError {
    pub message: String,
    pub pos: usize,
}

/// The token a parser sees at position `i`: past the end it reads `Eof`.
pub open spec fn peek_tok(t: Seq<SpecToken>, i: int) -> SpecToken {
    if 0 <= i < t.len() {
        t[i]
    } else {
        SpecToken::Eof
    }
}

// ---------------------------------------------------------------------------
// Expressions, by precedence tier
// ---------------------------------------------------------------------------
// Each tier's function returns the parsed node and the position just past
// it, or nothing where the tokens do not fit the grammar. A tier that folds
// a left-associative operator has a companion `..._rest` function carrying
// the left operand parsed so far. The bounds tests on a callee's returned
// position can never fail — every tier consumes at least one token and stays
// inside the sequence — and make the recursion's termination measure
// self-evident.
/// An atom: a literal, an identifier, or a parenthesized expression.
pub open spec fn atom_spec(t: Seq<SpecToken>, i: int) -> Option<(SpecExpr, int)>
    decreases t.len() - i, 0int when 0 <= i <= t.len()
{
    match peek_tok(t, i) {
        SpecToken::Integer(v) => Some((SpecExpr::Integer(v), i + 1)),
        SpecToken::Float(s) => Some((SpecExpr::Float(s), i + 1)),
        SpecToken::String(s) => Some((SpecExpr::String(s), i + 1)),
        SpecToken::Bool(b) => Some((SpecExpr::Boolean(b), i + 1)),
        SpecToken::Identifier(n) => Some((SpecExpr::Identifier(n), i + 1)),
        SpecToken::LeftParen => match assignment_spec(t, i + 1) {
            Some((e, j)) => {
                if peek_tok(t, j) is RightParen {
                    Some((e, j + 1))
                } else {
                    None
                }
            },
            None => None,
        },
        _ => None,
    }
}

/// A unary tier: `-` or `!` applied to an atom, or an atom.
pub open spec fn prefix_spec(t: Seq<SpecToken>, i: int) -> Option<(SpecExpr, int)>
    decreases t.len() - i, 1int when 0 <= i <= t.len()
{
    let c = peek_tok(t, i);
    if c is Minus || c is Bang {
        match atom_spec(t, i + 1) {
            Some((e, j)) => Some((SpecExpr::Prefix(c, Box::new(e)), j)),
            None => None,
        }
    } else {
        atom_spec(t, i)
    }
}

/// The multiplicative tier: prefix expressions folded left over `*` and `/`.
pub open spec fn factor_spec(t: Seq<SpecToken>, i: int) -> Option<(SpecExpr, int)>
    decreases t.len() - i, 2int when 0 <= i <= t.len()
{
    match prefix_spec(t, i) {
        Some((e, j)) => {
            if i < j <= t.len() {
                factor_rest_spec(t, e, j)
            } else {
                None
            }
        },
        None => None,
    }
}

pub open spec fn factor_rest_spec(t: Seq<SpecToken>, acc: SpecExpr, j: int) -> Option<
    (SpecExpr, int),
>
    decreases t.len() - j, 0int when 0 <= j <= t.len()
{
    let c = peek_tok(t, j);
    if c is Times || c is Divide {
        match prefix_spec(t, j + 1) {
            Some((r, k)) => {
                if j + 1 < k <= t.len() {
                    factor_rest_spec(t, SpecExpr::Infix(Box::new(acc), c, Box::new(r)), k)
                } else {
                    None
                }
            },
            None => None,
        }
    } else {
        Some((acc, j))
    }
}

/// The additive tier: factors folded left over `+` and `-`.
pub open spec fn term_spec(t: Seq<SpecToken>, i: int) -> Option<(SpecExpr, int)>
    decreases t.len() - i, 3int when 0 <= i <= t.len()
{
    match factor_spec(t, i) {
        Some((e, j)) => {
            if i < j <= t.len() {
                term_rest_spec(t, e, j)
            } else {
                None
            }
        },
        None => None,
    }
}

pub open spec fn term_rest_spec(t: Seq<SpecToken>, acc: SpecExpr, j: int) -> Option<
    (SpecExpr, int),
>
    decreases t.len() - j, 0int when 0 <= j <= t.len()
{
    let c = peek_tok(t, j);
    if c is Plus || c is Minus {
        match factor_spec(t, j + 1) {
            Some((r, k)) => {
                if j + 1 < k <= t.len() {
                    term_rest_spec(t, SpecExpr::Infix(Box::new(acc), c, Box::new(r)), k)
                } else {
                    None
                }
            },
            None => None,
        }
    } else {
        Some((acc, j))
    }
}

/// The relational tier: terms folded left over `>`, `>=`, `<` and `<=`.
pub open spec fn comparison_spec(t: Seq<SpecToken>, i: int) -> Option<(SpecExpr, int)>
    decreases t.len() - i, 4int when 0 <= i <= t.len()
{
    match term_spec(t, i) {
        Some((e, j)) => {
            if i < j <= t.len() {
                comparison_rest_spec(t, e, j)
            } else {
                None
            }
        },
        None => None,
    }
}

pub open spec fn comparison_rest_spec(t: Seq<SpecToken>, acc: SpecExpr, j: int) -> Option<
    (SpecExpr, int),
>
    decreases t.len() - j, 0int when 0 <= j <= t.len()
{
    let c = peek_tok(t, j);
    if c is Greater || c is GreaterEqual || c is Less || c is LessEqual {
        match term_spec(t, j + 1) {
            Some((r, k)) => {
                if j + 1 < k <= t.len() {
                    comparison_rest_spec(t, SpecExpr::Infix(Box::new(acc), c, Box::new(r)), k)
                } else {
                    None
                }
            },
            None => None,
        }
    } else {
        Some((acc, j))
    }
}

/// The equality tier: comparisons folded left over `==` and `!=`.
pub open spec fn equality_spec(t: Seq<SpecToken>, i: int) -> Option<(SpecExpr, int)>
    decreases t.len() - i, 5int when 0 <= i <= t.len()
{
    match comparison_spec(t, i) {
        Some((e, j)) => {
            if i < j <= t.len() {
                equality_rest_spec(t, e, j)
            } else {
                None
            }
        },
        None => None,
    }
}

pub open spec fn equality_rest_spec(t: Seq<SpecToken>, acc: SpecExpr, j: int) -> Option<
    (SpecExpr, int),
>
    decreases t.len() - j, 0int when 0 <= j <= t.len()
{
    let c = peek_tok(t, j);
    if c is DoubleEqual || c is BangEqual {
        match comparison_spec(t, j + 1) {
            Some((r, k)) => {
                if j + 1 < k <= t.len() {
                    equality_rest_spec(t, SpecExpr::Infix(Box::new(acc), c, Box::new(r)), k)
                } else {
                    None
                }
            },
            None => None,
        }
    } else {
        Some((acc, j))
    }
}

/// The conjunction tier: equalities folded left over `&&`.
pub open spec fn and_spec(t: Seq<SpecToken>, i: int) -> Option<(SpecExpr, int)>
    decreases t.len() - i, 6int when 0 <= i <= t.len()
{
    match equality_spec(t, i) {
        Some((e, j)) => {
            if i < j <= t.len() {
                and_rest_spec(t, e, j)
            } else {
                None
            }
        },
        None => None,
    }
}

pub open spec fn and_rest_spec(t: Seq<SpecToken>, acc: SpecExpr, j: int) -> Option<
    (SpecExpr, int),
>
    decreases t.len() - j, 0int when 0 <= j <= t.len()
{
    if peek_tok(t, j) is And {
        match equality_spec(t, j + 1) {
            Some((r, k)) => {
                if j + 1 < k <= t.len() {
                    and_rest_spec(
                        t,
                        SpecExpr::Infix(Box::new(acc), SpecToken::And, Box::new(r)),
                        k,
                    )
                } else {
                    None
                }
            },
            None => None,
        }
    } else {
        Some((acc, j))
    }
}

/// The disjunction tier: conjunctions folded left over `||`.
pub open spec fn or_spec(t: Seq<SpecToken>, i: int) -> Option<(SpecExpr, int)>
    decreases t.len() - i, 7int when 0 <= i <= t.len()
{
    match and_spec(t, i) {
        Some((e, j)) => {
            if i < j <= t.len() {
                or_rest_spec(t, e, j)
            } else {
                None
            }
        },
        None => None,
    }
}

pub open spec fn or_rest_spec(t: Seq<SpecToken>, acc: SpecExpr, j: int) -> Option<(SpecExpr, int)>
    decreases t.len() - j, 0int when 0 <= j <= t.len()
{
    if peek_tok(t, j) is Or {
        match and_spec(t, j + 1) {
            Some((r, k)) => {
                if j + 1 < k <= t.len() {
                    or_rest_spec(t, SpecExpr::Infix(Box::new(acc), SpecToken::Or, Box::new(r)), k)
                } else {
                    None
                }
            },
            None => None,
        }
    } else {
        Some((acc, j))
    }
}

/// The whole expression grammar. Assignment binds loosest and associates to
/// the right; its left-hand side must be a bare name.
pub open spec fn assignment_spec(t: Seq<SpecToken>, i: int) -> Option<(SpecExpr, int)>
    decreases t.len() - i, 8int when 0 <= i <= t.len()
{
    match or_spec(t, i) {
        Some((e, j)) => {
            if peek_tok(t, j) is Equal {
                if i < j <= t.len() {
                    match assignment_spec(t, j + 1) {
                        Some((rhs, k)) => match e {
                            SpecExpr::Identifier(name) => Some(
                                (SpecExpr::Assign(name, Box::new(rhs)), k),
                            ),
                            SpecExpr::Variable(name) => Some(
                                (SpecExpr::Assign(name, Box::new(rhs)), k),
                            ),
                            _ => None,
                        },
                        None => None,
                    }
                } else {
                    None
                }
            } else {
                Some((e, j))
            }
        },
        None => None,
    }
}

// ---------------------------------------------------------------------------
// Statements
// ---------------------------------------------------------------------------
/// One statement: a `print`, an `if` with an optional `else`, a braced
/// block, a `while`, or an expression statement ended by a semicolon.
pub open spec fn statement_spec(t: Seq<SpecToken>, i: int) -> Option<(SpecStmt, int)>
    decreases t.len() - i, 9int when 0 <= i <= t.len()
{
    let c = peek_tok(t, i);
    if c is Print {
        match assignment_spec(t, i + 1) {
            Some((e, j)) => {
                if peek_tok(t, j) is SemiColon {
                    Some((SpecStmt::Print(e), j + 1))
                } else {
                    None
                }
            },
            None => None,
        }
    } else if c is If {
        if peek_tok(t, i + 1) is LeftParen {
            match assignment_spec(t, i + 2) {
                Some((cond, j)) => {
                    if peek_tok(t, j) is RightParen && i + 2 < j <= t.len() {
                        match statement_spec(t, j + 1) {
                            Some((body, k)) => {
                                if peek_tok(t, k) is Else && j + 1 < k <= t.len() {
                                    match statement_spec(t, k + 1) {
                                        Some((alt, l)) => Some(
                                            (
                                                SpecStmt::IfElse(
                                                    Box::new(cond),
                                                    Box::new(body),
                                                    Box::new(alt),
                                                ),
                                                l,
                                            ),
                                        ),
                                        None => None,
                                    }
                                } else {
                                    Some((SpecStmt::If(Box::new(cond), Box::new(body)), k))
                                }
                            },
                            None => None,
                        }
                    } else {
                        None
                    }
                },
                None => None,
            }
        } else {
            None
        }
    } else if c is LeftBrace {
        match block_items_spec(t, i + 1, Seq::empty()) {
            Some((ss, j)) => Some((SpecStmt::Block(ss), j)),
            None => None,
        }
    } else if c is While {
        if peek_tok(t, i + 1) is LeftParen {
            match assignment_spec(t, i + 2) {
                Some((cond, j)) => {
                    if peek_tok(t, j) is RightParen && i + 2 < j <= t.len() {
                        match statement_spec(t, j + 1) {
                            Some((body, k)) => Some((SpecStmt::While(cond, Box::new(body)), k)),
                            None => None,
                        }
                    } else {
                        None
                    }
                },
                None => None,
            }
        } else {
            None
        }
    } else {
        match assignment_spec(t, i) {
            Some((e, j)) => {
                if peek_tok(t, j) is SemiColon {
                    Some((SpecStmt::Expression(e), j + 1))
                } else {
                    None
                }
            },
            None => None,
        }
    }
}

/// The rest of a `let` declaration, from the variable's name on:
/// `name : type = expr ;`. A declaration without an initializer is
/// rejected.
pub open spec fn var_decl_spec(t: Seq<SpecToken>, q: int) -> Option<(SpecStmt, int)>
    decreases t.len() - q, 0int when 0 <= q <= t.len()
{
    match peek_tok(t, q) {
        SpecToken::Identifier(name) => {
            if peek_tok(t, q + 1) is Colon {
                match peek_tok(t, q + 2) {
                    SpecToken::Identifier(tyname) => {
                        if peek_tok(t, q + 3) is Equal {
                            match assignment_spec(t, q + 4) {
                                Some((e, j)) => {
                                    if peek_tok(t, j) is SemiColon {
                                        Some((SpecStmt::Let(name, tyname, Box::new(e)), j + 1))
                                    } else {
                                        None
                                    }
                                },
                                None => None,
                            }
                        } else {
                            None
                        }
                    },
                    _ => None,
                }
            } else {
                None
            }
        },
        _ => None,
    }
}

/// A declaration: a `let name : type = expr ;`, or any other statement.
pub open spec fn declaration_spec(t: Seq<SpecToken>, i: int) -> Option<(SpecStmt, int)>
    decreases t.len() - i, 10int when 0 <= i <= t.len()
{
    if peek_tok(t, i) is Let {
        var_decl_spec(t, i + 1)
    } else {
        statement_spec(t, i)
    }
}

/// The declarations inside a braced block, up to and past the closing
/// brace. A block the input ends inside is rejected.
pub open spec fn block_items_spec(t: Seq<SpecToken>, i: int, acc: Seq<SpecStmt>) -> Option<
    (Seq<SpecStmt>, int),
>
    decreases t.len() - i, 11int when 0 <= i <= t.len()
{
    let c = peek_tok(t, i);
    if c is RightBrace {
        Some((acc, i + 1))
    } else if c is Eof {
        None
    } else {
        match declaration_spec(t, i) {
            Some((s, j)) => {
                if i < j <= t.len() {
                    block_items_spec(t, j, acc.push(s))
                } else {
                    None
                }
            },
            None => None,
        }
    }
}

/// The whole program: declarations up to the end-of-input token.
pub open spec fn program_spec(t: Seq<SpecToken>, i: int, acc: Seq<SpecStmt>) -> Option<
    Seq<SpecStmt>,
>
    decreases t.len() - i, 12int when 0 <= i <= t.len()
{
    if peek_tok(t, i) is Eof {
        Some(acc)
    } else {
        match declaration_spec(t, i) {
            Some((s, j)) => {
                if i < j <= t.len() {
                    program_spec(t, j, acc.push(s))
                } else {
                    None
                }
            },
            None => None,
        }
    }
}

// ---------------------------------------------------------------------------
// The declared-type table a parse records
// ---------------------------------------------------------------------------
/// The table after recording every `let` of one statement, in source order,
/// on top of `acc`. A later `let` of the same name overwrites an earlier
/// one.
pub open spec fn tmap_of_stmt(
    s: SpecStmt,
    acc: Map<Seq<char>, Seq<char>>,
) -> Map<Seq<char>, Seq<char>>
    decreases s, 0nat, 0int,
    via tmap_of_stmt_decreases
{
    match s {
        SpecStmt::Expression(_) => acc,
        SpecStmt::Print(_) => acc,
        SpecStmt::If(_, body) => tmap_of_stmt(*body, acc),
        SpecStmt::IfElse(_, body, alt) => tmap_of_stmt(*alt, tmap_of_stmt(*body, acc)),
        SpecStmt::While(_, body) => tmap_of_stmt(*body, acc),
        SpecStmt::Let(name, tyname, _) => acc.insert(name, tyname),
        SpecStmt::Block(ss) => tmap_of_stmts(ss, acc, 0),
    }
}

pub open spec fn tmap_of_stmts(
    ss: Seq<SpecStmt>,
    acc: Map<Seq<char>, Seq<char>>,
    i: int,
) -> Map<Seq<char>, Seq<char>>
    decreases ss, 1nat, ss.len() - i,
{
    if i < 0 || i >= ss.len() {
        acc
    } else {
        tmap_of_stmts(ss, tmap_of_stmt(ss[i], acc), i + 1)
    }
}

#[via_fn]
proof fn tmap_of_stmt_decreases(s: SpecStmt, acc: Map<Seq<char>, Seq<char>>) {
    match s {
        SpecStmt::Block(ss) => {
            assert(decreases_to!(s => ss));
        },
        _ => {},
    }
}

/// The declared-type table of a whole program.
pub open spec fn tmap_of_prog(ss: Seq<SpecStmt>) -> Map<Seq<char>, Seq<char>> {
    tmap_of_stmts(ss, Map::empty(), 0)
}

// ---------------------------------------------------------------------------
// The parser
// ---------------------------------------------------------------------------
/// A recursive-descent parser over a token sequence, one precedence tier per
/// method. It also records, while [`Parser::parse`] runs, the declared-type
/// table of every `let` it parsed.
pub struct Parser {
    type_map: TypeMap,
    tokens: Vec<Token>,
    pos: usize,
}

impl Parser {
    /// The models of the tokens under parse.
    pub closed spec fn toks(self) -> Seq<SpecToken> {
        toks_view(self.tokens@)
    }

    /// The cursor's position.
    pub closed spec fn p(self) -> int {
        self.pos as int
    }

    /// The declared-type table recorded so far.
    pub closed spec fn tmap(self) -> Map<Seq<char>, Seq<char>> {
        self.type_map@
    }

    /// The cursor never passes the end of the tokens.
    pub closed spec fn wf(self) -> bool {
        self.pos <= self.tokens@.len() && self.tokens@.len() == toks_view(self.tokens@).len()
    }

    pub fn new(tokens: Vec<Token>) -> (p: Parser)
        ensures
            p.wf(),
            p.toks() == toks_view(tokens@),
            p.p() == 0,
            p.tmap() == Map::<Seq<char>, Seq<char>>::empty(),
    {
        Parser { type_map: TypeMap::new(), tokens, pos: 0 }
    }

    /// The declared-type table of the `let` statements the last
    /// [`Parser::parse`] accepted.
    pub fn get_type_map(&self) -> (m: &TypeMap)
        ensures
            m@ == self.tmap(),
    {
        &self.type_map
    }

    /// The token under the cursor; past the end it reads `Eof`.
    fn peek(&self) -> (t: Token)
        ensures
            t@ == peek_tok(self.toks(), self.p()),
    {
        if self.pos < self.tokens.len() {
            self.tokens[self.pos].clone()
        } else {
            Token::Eof
        }
    }

    /// The token just consumed; with none consumed yet it reads `Eof`.
    fn previous(&self) -> (t: Token)
        ensures
            t@ == (if 1 <= self.p() && self.p() <= self.toks().len() {
                self.toks()[self.p() - 1]
            } else {
                SpecToken::Eof
            }),
    {
        if self.pos >= 1 && self.pos - 1 < self.tokens.len() {
            self.tokens[self.pos - 1].clone()
        } else {
            Token::Eof
        }
    }

    /// Whether the cursor has reached the end-of-input token.
    fn done(&self) -> (b: bool)
        ensures
            b == (peek_tok(self.toks(), self.p()) is Eof),
    {
        self.peek() == Token::Eof
    }

    /// Consume one token and hand it out; at the end of the input the cursor
    /// stands still.
    fn advance(&mut self) -> (t: Token)
        requires
            old(self).wf(),
        ensures
            final(self).wf(),
            final(self).toks() == old(self).toks(),
            final(self).tmap() == old(self).tmap(),
            final(self).p() == (if peek_tok(old(self).toks(), old(self).p()) is Eof {
                old(self).p()
            } else {
                old(self).p() + 1
            }),
            !(peek_tok(old(self).toks(), old(self).p()) is Eof) ==> t@ == peek_tok(
                old(self).toks(),
                old(self).p(),
            ),
    {
        // the token count, whose call bounds the cursor step below
        let _n = self.tokens.len();
        proof {
            assert(self.toks().len() == self.tokens@.len());
        }
        if !self.done() {
            self.pos = self.pos + 1;
        }
        self.previous()
    }

    /// Whether the token under the cursor is `t`; the end-of-input token
    /// never matches.
    fn expect(&mut self, t: &Token) -> (b: bool)
        requires
            old(self).wf(),
        ensures
            *final(self) == *old(self),
            b == (!(peek_tok(old(self).toks(), old(self).p()) is Eof) && peek_tok(
                old(self).toks(),
                old(self).p(),
            ) == t@),
    {
        if self.done() {
            return false;
        }
        self.peek() == *t
    }

    /// Consume the expected token, or report a parse error naming it.
    fn consume(&mut self, t: &Token, message: &str) -> (r: Result<Token, ParseError>)
        requires
            old(self).wf(),
        ensures
            final(self).wf(),
            final(self).toks() == old(self).toks(),
            final(self).tmap() == old(self).tmap(),
            r is Ok <==> (!(peek_tok(old(self).toks(), old(self).p()) is Eof) && peek_tok(
                old(self).toks(),
                old(self).p(),
            ) == t@),
            r is Ok ==> final(self).p() == old(self).p() + 1,
            r is Err ==> *final(self) == *old(self),
    {
        if self.expect(t) {
            Ok(self.advance())
        } else {
            Err(ParseError { message: message.to_owned(), pos: self.pos })
        }
    }

    /// The name under the cursor, which must be an identifier token; the
    /// cursor stands still either way.
    fn expect_identifier(&mut self) -> (r: Result<String, ParseError>)
        requires
            old(self).wf(),
        ensures
            *final(self) == *old(self),
            r is Ok <==> peek_tok(old(self).toks(), old(self).p()) is Identifier,
            r matches Ok(s) ==> peek_tok(old(self).toks(), old(self).p())
                == SpecToken::Identifier(s@),
    {
        if self.done() {
            return Err(ParseError { message: "Expected identifier".to_owned(), pos: self.pos });
        }
        match self.peek() {
            Token::Identifier(s) => Ok(s),
            _ => Err(ParseError { message: "Expected identifier".to_owned(), pos: self.pos }),
        }
    }

    /// An atom, as [`atom_spec`] reads it.
    #[verifier::rlimit(100)]
    fn atom(&mut self) -> (r: Result<Expression, ParseError>)
        requires
            old(self).wf(),
        ensures
            final(self).wf(),
            final(self).toks() == old(self).toks(),
            final(self).tmap() == old(self).tmap(),
            r matches Ok(e) ==> atom_spec(old(self).toks(), old(self).p()) == Some(
                (e@, final(self).p()),
            ) && old(self).p() < final(self).p() <= old(self).toks().len(),
            r is Err ==> atom_spec(old(self).toks(), old(self).p()) is None,
            r is Err && !(peek_tok(old(self).toks(), old(self).p()) is LeftParen) ==> *final(self)
                == *old(self),
            r matches Err(e) ==> !(peek_tok(old(self).toks(), old(self).p()) is LeftParen)
                ==> e.pos as int == old(self).p(),
        decreases old(self).toks().len() - old(self).p(), 0int,
    {
        match self.peek() {
            Token::Integer(v) => {
                self.advance();
                Ok(Expression::Integer(v))
            },
            Token::Float(s) => {
                self.advance();
                Ok(Expression::Float(s))
            },
            Token::String(s) => {
                self.advance();
                Ok(Expression::String(s))
            },
            Token::Bool(b) => {
                self.advance();
                Ok(Expression::Boolean(b))
            },
            Token::Identifier(n) => {
                self.advance();
                Ok(Expression::Identifier(n))
            },
            Token::LeftParen => {
                self.advance();
                let e = self.expression()?;
                self.consume(&Token::RightParen, "Expected ')' after expression.")?;
                Ok(e)
            },
            _ => Err(ParseError { message: "Expected expression".to_owned(), pos: self.pos }),
        }
    }

    /// The unary tier, as [`prefix_spec`] reads it.
    #[verifier::rlimit(100)]
    fn prefix(&mut self) -> (r: Result<Expression, ParseError>)
        requires
            old(self).wf(),
        ensures
            final(self).wf(),
            final(self).toks() == old(self).toks(),
            final(self).tmap() == old(self).tmap(),
            r matches Ok(e) ==> prefix_spec(old(self).toks(), old(self).p()) == Some(
                (e@, final(self).p()),
            ) && old(self).p() < final(self).p() <= old(self).toks().len(),
            r is Err ==> prefix_spec(old(self).toks(), old(self).p()) is None,
        decreases old(self).toks().len() - old(self).p(), 1int,
    {
        if self.expect(&Token::Minus) || self.expect(&Token::Bang) {
            self.advance();
            let op = self.previous();
            let right = self.atom()?;
            Ok(Expression::Prefix(op, Box::new(right)))
        } else {
            self.atom()
        }
    }

    /// The multiplicative tier, as [`factor_spec`] reads it.
    #[verifier::rlimit(100)]
    fn factor(&mut self) -> (r: Result<Expression, ParseError>)
        requires
            old(self).wf(),
        ensures
            final(self).wf(),
            final(self).toks() == old(self).toks(),
            final(self).tmap() == old(self).tmap(),
            r matches Ok(e) ==> factor_spec(old(self).toks(), old(self).p()) == Some(
                (e@, final(self).p()),
            ) && old(self).p() < final(self).p() <= old(self).toks().len(),
            r is Err ==> factor_spec(old(self).toks(), old(self).p()) is None,
        decreases old(self).toks().len() - old(self).p(), 2int,
    {
        let ghost t = self.toks();
        let ghost i0 = self.p();
        let mut expr = self.prefix()?;
        loop
            invariant
                t == old(self).toks(),
                i0 == old(self).p(),
                self.wf(),
                self.toks() == t,
                self.tmap() == old(self).tmap(),
                i0 < self.p() <= t.len(),
                factor_spec(t, i0) == factor_rest_spec(t, expr@, self.p()),
            ensures
                self.wf(),
                self.toks() == t,
                self.tmap() == old(self).tmap(),
                i0 < self.p() <= t.len(),
                factor_spec(t, i0) == Some((expr@, self.p())),
            decreases t.len() - self.p(),
        {
            if !(self.expect(&Token::Times) || self.expect(&Token::Divide)) {
                break;
            }
            self.advance();
            let op = self.previous();
            let right = self.prefix()?;
            expr = Expression::Infix(Box::new(expr), op, Box::new(right));
        }
        Ok(expr)
    }

    /// The additive tier, as [`term_spec`] reads it.
    #[verifier::rlimit(100)]
    fn term(&mut self) -> (r: Result<Expression, ParseError>)
        requires
            old(self).wf(),
        ensures
            final(self).wf(),
            final(self).toks() == old(self).toks(),
            final(self).tmap() == old(self).tmap(),
            r matches Ok(e) ==> term_spec(old(self).toks(), old(self).p()) == Some(
                (e@, final(self).p()),
            ) && old(self).p() < final(self).p() <= old(self).toks().len(),
            r is Err ==> term_spec(old(self).toks(), old(self).p()) is None,
        decreases old(self).toks().len() - old(self).p(), 3int,
    {
        let ghost t = self.toks();
        let ghost i0 = self.p();
        let mut expr = self.factor()?;
        loop
            invariant
                t == old(self).toks(),
                i0 == old(self).p(),
                self.wf(),
                self.toks() == t,
                self.tmap() == old(self).tmap(),
                i0 < self.p() <= t.len(),
                term_spec(t, i0) == term_rest_spec(t, expr@, self.p()),
            ensures
                self.wf(),
                self.toks() == t,
                self.tmap() == old(self).tmap(),
                i0 < self.p() <= t.len(),
                term_spec(t, i0) == Some((expr@, self.p())),
            decreases t.len() - self.p(),
        {
            if !(self.expect(&Token::Plus) || self.expect(&Token::Minus)) {
                break;
            }
            self.advance();
            let op = self.previous();
            let right = self.factor()?;
            expr = Expression::Infix(Box::new(expr), op, Box::new(right));
        }
        Ok(expr)
    }

    /// The relational tier, as [`comparison_spec`] reads it.
    #[verifier::rlimit(100)]
    fn comparison(&mut self) -> (r: Result<Expression, ParseError>)
        requires
            old(self).wf(),
        ensures
            final(self).wf(),
            final(self).toks() == old(self).toks(),
            final(self).tmap() == old(self).tmap(),
            r matches Ok(e) ==> comparison_spec(old(self).toks(), old(self).p()) == Some(
                (e@, final(self).p()),
            ) && old(self).p() < final(self).p() <= old(self).toks().len(),
            r is Err ==> comparison_spec(old(self).toks(), old(self).p()) is None,
        decreases old(self).toks().len() - old(self).p(), 4int,
    {
        let ghost t = self.toks();
        let ghost i0 = self.p();
        let mut expr = self.term()?;
        loop
            invariant
                t == old(self).toks(),
                i0 == old(self).p(),
                self.wf(),
                self.toks() == t,
                self.tmap() == old(self).tmap(),
                i0 < self.p() <= t.len(),
                comparison_spec(t, i0) == comparison_rest_spec(t, expr@, self.p()),
            ensures
                self.wf(),
                self.toks() == t,
                self.tmap() == old(self).tmap(),
                i0 < self.p() <= t.len(),
                comparison_spec(t, i0) == Some((expr@, self.p())),
            decreases t.len() - self.p(),
        {
            if !(self.expect(&Token::Greater) || self.expect(&Token::GreaterEqual) || self.expect(
                &Token::Less,
            ) || self.expect(&Token::LessEqual)) {
                break;
            }
            self.advance();
            let op = self.previous();
            let right = self.term()?;
            expr = Expression::Infix(Box::new(expr), op, Box::new(right));
        }
        Ok(expr)
    }

    /// The equality tier, as [`equality_spec`] reads it.
    #[verifier::rlimit(100)]
    fn equality(&mut self) -> (r: Result<Expression, ParseError>)
        requires
            old(self).wf(),
        ensures
            final(self).wf(),
            final(self).toks() == old(self).toks(),
            final(self).tmap() == old(self).tmap(),
            r matches Ok(e) ==> equality_spec(old(self).toks(), old(self).p()) == Some(
                (e@, final(self).p()),
            ) && old(self).p() < final(self).p() <= old(self).toks().len(),
            r is Err ==> equality_spec(old(self).toks(), old(self).p()) is None,
        decreases old(self).toks().len() - old(self).p(), 5int,
    {
        let expr = self.comparison()?;
        self.equality_more(expr)
    }

    #[verifier::rlimit(100)]
    fn equality_more(&mut self, acc: Expression) -> (r: Result<Expression, ParseError>)
        requires
            old(self).wf(),
        ensures
            final(self).wf(),
            final(self).toks() == old(self).toks(),
            final(self).tmap() == old(self).tmap(),
            r matches Ok(e) ==> equality_rest_spec(old(self).toks(), acc@, old(self).p()) == Some(
                (e@, final(self).p()),
            ) && old(self).p() <= final(self).p() <= old(self).toks().len(),
            r is Err ==> equality_rest_spec(old(self).toks(), acc@, old(self).p()) is None,
        decreases old(self).toks().len() - old(self).p(), 0int,
    {
        if !(self.expect(&Token::DoubleEqual) || self.expect(&Token::BangEqual)) {
            return Ok(acc);
        }
        self.advance();
        let op = self.previous();
        let right = self.comparison()?;
        self.equality_more(Expression::Infix(Box::new(acc), op, Box::new(right)))
    }

    /// The conjunction tier, as [`and_spec`] reads it.
    #[verifier::rlimit(100)]
    fn and(&mut self) -> (r: Result<Expression, ParseError>)
        requires
            old(self).wf(),
        ensures
            final(self).wf(),
            final(self).toks() == old(self).toks(),
            final(self).tmap() == old(self).tmap(),
            r matches Ok(e) ==> and_spec(old(self).toks(), old(self).p()) == Some(
                (e@, final(self).p()),
            ) && old(self).p() < final(self).p() <= old(self).toks().len(),
            r is Err ==> and_spec(old(self).toks(), old(self).p()) is None,
        decreases old(self).toks().len() - old(self).p(), 6int,
    {
        let expr = self.equality()?;
        self.and_more(expr)
    }

    #[verifier::rlimit(100)]
    fn and_more(&mut self, acc: Expression) -> (r: Result<Expression, ParseError>)
        requires
            old(self).wf(),
        ensures
            final(self).wf(),
            final(self).toks() == old(self).toks(),
            final(self).tmap() == old(self).tmap(),
            r matches Ok(e) ==> and_rest_spec(old(self).toks(), acc@, old(self).p()) == Some(
                (e@, final(self).p()),
            ) && old(self).p() <= final(self).p() <= old(self).toks().len(),
            r is Err ==> and_rest_spec(old(self).toks(), acc@, old(self).p()) is None,
        decreases old(self).toks().len() - old(self).p(), 0int,
    {
        if !(self.expect(&Token::And)) {
            return Ok(acc);
        }
        self.advance();
        let op = self.previous();
        let right = self.equality()?;
        self.and_more(Expression::Infix(Box::new(acc), op, Box::new(right)))
    }

    /// The disjunction tier, as [`or_spec`] reads it.
    #[verifier::rlimit(100)]
    fn or(&mut self) -> (r: Result<Expression, ParseError>)
        requires
            old(self).wf(),
        ensures
            final(self).wf(),
            final(self).toks() == old(self).toks(),
            final(self).tmap() == old(self).tmap(),
            r matches Ok(e) ==> or_spec(old(self).toks(), old(self).p()) == Some(
                (e@, final(self).p()),
            ) && old(self).p() < final(self).p() <= old(self).toks().len(),
            r is Err ==> or_spec(old(self).toks(), old(self).p()) is None,
        decreases old(self).toks().len() - old(self).p(), 7int,
    {
        let expr = self.and()?;
        self.or_more(expr)
    }

    #[verifier::rlimit(100)]
    fn or_more(&mut self, acc: Expression) -> (r: Result<Expression, ParseError>)
        requires
            old(self).wf(),
        ensures
            final(self).wf(),
            final(self).toks() == old(self).toks(),
            final(self).tmap() == old(self).tmap(),
            r matches Ok(e) ==> or_rest_spec(old(self).toks(), acc@, old(self).p()) == Some(
                (e@, final(self).p()),
            ) && old(self).p() <= final(self).p() <= old(self).toks().len(),
            r is Err ==> or_rest_spec(old(self).toks(), acc@, old(self).p()) is None,
        decreases old(self).toks().len() - old(self).p(), 0int,
    {
        if !(self.expect(&Token::Or)) {
            return Ok(acc);
        }
        self.advance();
        let op = self.previous();
        let right = self.and()?;
        self.or_more(Expression::Infix(Box::new(acc), op, Box::new(right)))
    }

    /// The whole expression grammar, as [`assignment_spec`] reads it:
    /// assignment binds loosest, associates to the right, and its left-hand
    /// side must be a bare name.
    #[verifier::rlimit(100)]
    fn assignment(&mut self) -> (r: Result<Expression, ParseError>)
        requires
            old(self).wf(),
        ensures
            final(self).wf(),
            final(self).toks() == old(self).toks(),
            final(self).tmap() == old(self).tmap(),
            r matches Ok(e) ==> assignment_spec(old(self).toks(), old(self).p()) == Some(
                (e@, final(self).p()),
            ) && old(self).p() < final(self).p() <= old(self).toks().len(),
            r is Err ==> assignment_spec(old(self).toks(), old(self).p()) is None,
        decreases old(self).toks().len() - old(self).p(), 8int,
    {
        let expr = self.or()?;
        if self.expect(&Token::Equal) {
            self.advance();
            let equals = self.assignment()?;
            match expr {
                Expression::Identifier(name) => Ok(Expression::Assign(name, Box::new(equals))),
                Expression::Variable(name) => Ok(Expression::Assign(name, Box::new(equals))),
                _ => Err(
                    ParseError { message: "Invalid assignment target".to_owned(), pos: self.pos },
                ),
            }
        } else {
            Ok(expr)
        }
    }

    /// An expression: the assignment tier.
    #[verifier::rlimit(100)]
    fn expression(&mut self) -> (r: Result<Expression, ParseError>)
        requires
            old(self).wf(),
        ensures
            final(self).wf(),
            final(self).toks() == old(self).toks(),
            final(self).tmap() == old(self).tmap(),
            r matches Ok(e) ==> assignment_spec(old(self).toks(), old(self).p()) == Some(
                (e@, final(self).p()),
            ) && old(self).p() < final(self).p() <= old(self).toks().len(),
            r is Err ==> assignment_spec(old(self).toks(), old(self).p()) is None,
        decreases old(self).toks().len() - old(self).p(), 9int,
    {
        self.assignment()
    }

    /// A `print` statement; the cursor stands on `print`.
    #[verifier::rlimit(100)]
    fn print_statement(&mut self) -> (r: Result<Statement, ParseError>)
        requires
            old(self).wf(),
            peek_tok(old(self).toks(), old(self).p()) is Print,
        ensures
            final(self).wf(),
            final(self).toks() == old(self).toks(),
            final(self).tmap() == old(self).tmap(),
            r matches Ok(s) ==> statement_spec(old(self).toks(), old(self).p()) == Some(
                (s@, final(self).p()),
            ) && old(self).p() < final(self).p() <= old(self).toks().len(),
            r is Err ==> statement_spec(old(self).toks(), old(self).p()) is None,
        decreases old(self).toks().len() - old(self).p(), 10int,
    {
        self.advance();
        let expr = self.expression()?;
        self.consume(&Token::SemiColon, "Expected ; after print")?;
        Ok(Statement::Print(expr))
    }

    /// An `if` statement with an optional `else`; the cursor stands on `if`.
    #[verifier::rlimit(100)]
    fn if_statement(&mut self) -> (r: Result<Statement, ParseError>)
        requires
            old(self).wf(),
            peek_tok(old(self).toks(), old(self).p()) is If,
        ensures
            final(self).wf(),
            final(self).toks() == old(self).toks(),
            final(self).tmap() == old(self).tmap(),
            r matches Ok(s) ==> statement_spec(old(self).toks(), old(self).p()) == Some(
                (s@, final(self).p()),
            ) && old(self).p() < final(self).p() <= old(self).toks().len(),
            r is Err ==> statement_spec(old(self).toks(), old(self).p()) is None,
        decreases old(self).toks().len() - old(self).p(), 10int,
    {
        self.advance();
        self.consume(&Token::LeftParen, "Expected '(' after 'if'")?;
        let condition = self.expression()?;
        self.consume(&Token::RightParen, "Expected ')' after if condition")?;
        let consequence = self.statement()?;
        if self.expect(&Token::Else) {
            self.advance();
            let alt = self.statement()?;
            Ok(Statement::IfElse(Box::new(condition), Box::new(consequence), Box::new(alt)))
        } else {
            Ok(Statement::If(Box::new(condition), Box::new(consequence)))
        }
    }

    /// A `while` statement; the cursor stands on `while`.
    #[verifier::rlimit(100)]
    fn while_statement(&mut self) -> (r: Result<Statement, ParseError>)
        requires
            old(self).wf(),
            peek_tok(old(self).toks(), old(self).p()) is While,
        ensures
            final(self).wf(),
            final(self).toks() == old(self).toks(),
            final(self).tmap() == old(self).tmap(),
            r matches Ok(s) ==> statement_spec(old(self).toks(), old(self).p()) == Some(
                (s@, final(self).p()),
            ) && old(self).p() < final(self).p() <= old(self).toks().len(),
            r is Err ==> statement_spec(old(self).toks(), old(self).p()) is None,
        decreases old(self).toks().len() - old(self).p(), 10int,
    {
        self.advance();
        self.consume(&Token::LeftParen, "Expected '(' after 'while'")?;
        let condition = self.expression()?;
        self.consume(&Token::RightParen, "Expected ')' after condition")?;
        let body = self.statement()?;
        Ok(Statement::While(condition, Box::new(body)))
    }

    /// An expression statement; the cursor stands on none of the statement
    /// keywords.
    #[verifier::rlimit(100)]
    fn expression_statement(&mut self) -> (r: Result<Statement, ParseError>)
        requires
            old(self).wf(),
            !(peek_tok(old(self).toks(), old(self).p()) is Print),
            !(peek_tok(old(self).toks(), old(self).p()) is If),
            !(peek_tok(old(self).toks(), old(self).p()) is LeftBrace),
            !(peek_tok(old(self).toks(), old(self).p()) is While),
        ensures
            final(self).wf(),
            final(self).toks() == old(self).toks(),
            final(self).tmap() == old(self).tmap(),
            r matches Ok(s) ==> statement_spec(old(self).toks(), old(self).p()) == Some(
                (s@, final(self).p()),
            ) && old(self).p() < final(self).p() <= old(self).toks().len(),
            r is Err ==> statement_spec(old(self).toks(), old(self).p()) is None,
        decreases old(self).toks().len() - old(self).p(), 10int,
    {
        let expr = self.expression()?;
        self.consume(&Token::SemiColon, "Expected ';' after expression.")?;
        Ok(Statement::Expression(expr))
    }

    /// The declarations of a braced block, past the closing brace; the
    /// cursor stands past the opening brace.
    #[verifier::rlimit(100)]
    fn block(&mut self) -> (r: Result<Vec<Statement>, ParseError>)
        requires
            old(self).wf(),
            peek_tok(old(self).toks(), old(self).p()) is LeftBrace,
        ensures
            final(self).wf(),
            final(self).toks() == old(self).toks(),
            final(self).tmap() == old(self).tmap(),
            r matches Ok(ss) ==> block_items_spec(
                old(self).toks(),
                old(self).p() + 1,
                Seq::empty(),
            ) == Some((stmts_view(ss@), final(self).p())) && old(self).p() < final(self).p()
                <= old(self).toks().len(),
            r is Err ==> block_items_spec(old(self).toks(), old(self).p() + 1, Seq::empty())
                is None,
        decreases old(self).toks().len() - old(self).p(), 10int,
    {
        let ghost t = self.toks();
        let ghost i0 = self.p();
        self.advance();
        let mut statements: Vec<Statement> = Vec::new();
        loop
            invariant
                t == old(self).toks(),
                i0 == old(self).p(),
                self.wf(),
                self.toks() == t,
                self.tmap() == old(self).tmap(),
                i0 < self.p() <= t.len(),
                block_items_spec(t, i0 + 1, Seq::empty()) == block_items_spec(
                    t,
                    self.p(),
                    stmts_view(statements@),
                ),
            ensures
                self.wf(),
                self.toks() == t,
                self.tmap() == old(self).tmap(),
                i0 < self.p() <= t.len(),
                peek_tok(t, self.p()) is RightBrace,
                block_items_spec(t, i0 + 1, Seq::empty()) == Some(
                    (stmts_view(statements@), self.p() + 1),
                ),
            decreases t.len() - self.p(),
        {
            if self.expect(&Token::RightBrace) {
                break;
            }
            if self.done() {
                return Err(
                    ParseError { message: "Expected '}' after block".to_owned(), pos: self.pos },
                );
            }
            let s = self.declaration()?;
            let ghost prev = statements@;
            statements.push(s);
            proof {
                crate::ast::lemma_stmts_view_push(prev, statements@.last());
            }
        }
        self.advance();
        Ok(statements)
    }

    /// One statement, as [`statement_spec`] reads it.
    #[verifier::rlimit(100)]
    fn statement(&mut self) -> (r: Result<Statement, ParseError>)
        requires
            old(self).wf(),
        ensures
            final(self).wf(),
            final(self).toks() == old(self).toks(),
            final(self).tmap() == old(self).tmap(),
            r matches Ok(s) ==> statement_spec(old(self).toks(), old(self).p()) == Some(
                (s@, final(self).p()),
            ) && old(self).p() < final(self).p() <= old(self).toks().len(),
            r is Err ==> statement_spec(old(self).toks(), old(self).p()) is None,
        decreases old(self).toks().len() - old(self).p(), 11int,
    {
        if self.expect(&Token::Print) {
            self.print_statement()
        } else if self.expect(&Token::If) {
            self.if_statement()
        } else if self.expect(&Token::LeftBrace) {
            let ss = self.block()?;
            Ok(Statement::Block(ss))
        } else if self.expect(&Token::While) {
            self.while_statement()
        } else {
            self.expression_statement()
        }
    }

    /// The rest of a `let` declaration, as [`var_decl_spec`] reads it; the
    /// cursor stands past `let`, on the variable's name.
    #[verifier::rlimit(100)]
    fn var_declaration(&mut self) -> (r: Result<Statement, ParseError>)
        requires
            old(self).wf(),
        ensures
            final(self).wf(),
            final(self).toks() == old(self).toks(),
            final(self).tmap() == old(self).tmap(),
            r matches Ok(s) ==> var_decl_spec(old(self).toks(), old(self).p()) == Some(
                (s@, final(self).p()),
            ) && old(self).p() < final(self).p() <= old(self).toks().len(),
            r is Err ==> var_decl_spec(old(self).toks(), old(self).p()) is None,
        decreases old(self).toks().len() - old(self).p(), 10int,
    {
        let name = self.expect_identifier()?;
        self.advance();
        self.consume(&Token::Colon, "Expected ':' after variable name")?;
        let ty = self.expect_identifier()?;
        self.advance();
        if !self.expect(&Token::Equal) {
            return Err(
                ParseError {
                    message: "Expected '=' after variable declaration".to_owned(),
                    pos: self.pos,
                },
            );
        }
        self.advance();
        let init = self.expression()?;
        self.consume(&Token::SemiColon, "Expected ';' after variable declaration")?;
        Ok(Statement::Let(name, ty, Box::new(init)))
    }

    /// One declaration, as [`declaration_spec`] reads it.
    #[verifier::rlimit(100)]
    fn declaration(&mut self) -> (r: Result<Statement, ParseError>)
        requires
            old(self).wf(),
        ensures
            final(self).wf(),
            final(self).toks() == old(self).toks(),
            final(self).tmap() == old(self).tmap(),
            r matches Ok(s) ==> declaration_spec(old(self).toks(), old(self).p()) == Some(
                (s@, final(self).p()),
            ) && old(self).p() < final(self).p() <= old(self).toks().len(),
            r is Err ==> declaration_spec(old(self).toks(), old(self).p()) is None,
        decreases old(self).toks().len() - old(self).p(), 12int,
    {
        if self.expect(&Token::Let) {
            self.advance();
            self.var_declaration()
        } else {
            self.statement()
        }
    }

    /// Parse the whole token sequence into the program it spells, and record
    /// the declared-type table of every `let` parsed, in source order. The
    /// program must be a sequence of declarations reaching the end-of-input
    /// token; the first offending token otherwise turns into a parse error.
    #[verifier::rlimit(100)]
    #[verifier::loop_isolation(false)]
    pub fn parse(&mut self) -> (r: Result<Vec<Statement>, ParseError>)
        requires
            old(self).wf(),
        ensures
            final(self).wf(),
            final(self).toks() == old(self).toks(),
            r matches Ok(ast) ==> program_spec(old(self).toks(), old(self).p(), Seq::empty())
                == Some(stmts_view(ast@)) && final(self).tmap() == tmap_of_prog(stmts_view(ast@)),
            r is Err ==> program_spec(old(self).toks(), old(self).p(), Seq::empty()) is None,
    {
        let ghost t = self.toks();
        let ghost i0 = self.p();
        let mut ast: Vec<Statement> = Vec::new();
        while !self.done()
            invariant
                self.wf(),
                self.toks() == t,
                i0 <= self.p() <= t.len(),
                program_spec(t, i0, Seq::empty()) == program_spec(
                    t,
                    self.p(),
                    stmts_view(ast@),
                ),
            decreases t.len() - self.p(),
        {
            let s = self.declaration()?;
            let ghost prev = ast@;
            ast.push(s);
            proof {
                crate::ast::lemma_stmts_view_push(prev, ast@.last());
            }
        }
        let mut tm = TypeMap::new();
        let mut i: usize = 0;
        proof {
            crate::ast::lemma_stmts_view(ast@);
        }
        while i < ast.len()
            invariant
                0 <= i <= ast.len(),
                tmap_of_prog(stmts_view(ast@)) == tmap_of_stmts(stmts_view(ast@), tm@, i as int),
            decreases ast.len() - i,
        {
            collect_types(&ast[i], &mut tm);
            i = i + 1;
        }
        self.type_map = tm;
        Ok(ast)
    }
}

/// Record, on top of the table so far, every `let` of one statement in
/// source order, as [`tmap_of_stmt`] states it.
#[verifier::loop_isolation(false)]
fn collect_types(stmt: &Statement, map: &mut TypeMap)
    ensures
        final(map)@ == tmap_of_stmt(stmt@, old(map)@),
    decreases *stmt,
{
    match stmt {
        Statement::Expression(_) => {},
        Statement::Print(_) => {},
        Statement::If(_, body) => {
            collect_types(body, map);
        },
        Statement::IfElse(_, body, alt) => {
            collect_types(body, map);
            collect_types(alt, map);
        },
        Statement::While(_, body) => {
            collect_types(body, map);
        },
        Statement::Let(name, tyname, _) => {
            map.insert(name.clone(), tyname.clone());
        },
        Statement::Block(stmts) => {
            proof {
                crate::ast::lemma_stmts_view(stmts@);
            }
            let ghost ssv = crate::ast::stmts_view(stmts@);
            let ghost m0 = map@;
            let mut i: usize = 0;
            while i < stmts.len()
                invariant
                    0 <= i <= stmts.len(),
                    tmap_of_stmts(ssv, m0, 0) == tmap_of_stmts(ssv, map@, i as int),
                decreases stmts.len() - i,
            {
                proof {
                    assert(decreases_to!(*stmt => *stmts));
                    assert(decreases_to!(*stmts => stmts@));
                }
                collect_types(&stmts[i], map);
                i = i + 1;
            }
        },
    }
}

} // verus!
