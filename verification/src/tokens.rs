use vstd::prelude::*;

verus! {

/// One lexical unit of source text.
///
/// Literal variants carry their parsed payload; `Float` carries the literal's
/// text exactly as it appeared in the source, since this crate performs no
/// floating-point computation. `Illegal` carries the offending character, its
/// character offset in the input, and its line number.
#[derive(Debug)]
pub enum Token {
    // single-character punctuation and operators
    LeftParen,
    RightParen,
    Plus,
    Minus,
    Times,
    Divide,
    Dot,
    SemiColon,
    Quote,
    Or,
    And,
    Xor,
    Bang,
    Equal,
    DoubleEqual,
    BangEqual,
    Greater,
    Less,
    GreaterEqual,
    LessEqual,
    Comma,
    LeftBrace,
    RightBrace,
    Colon,
    // invisible tokens, filtered out of a finished scan
    WhiteSpace,
    NewLine,
    Eof,
    // literals
    Integer(i64),
    Float(String),
    Bool(bool),
    String(String),
    // identifier
    Identifier(String),
    // keywords
    Print,
    If,
    Else,
    Let,
    While,
    // anything the lexer does not recognize
    Illegal(char, usize, usize),
}

/// The mathematical model of a [`Token`]: text is a `Seq<char>`.
pub enum SpecToken {
    LeftParen,
    RightParen,
    Plus,
    Minus,
    Times,
    Divide,
    Dot,
    SemiColon,
    Quote,
    Or,
    And,
    Xor,
    Bang,
    Equal,
    DoubleEqual,
    BangEqual,
    Greater,
    Less,
    GreaterEqual,
    LessEqual,
    Comma,
    LeftBrace,
    RightBrace,
    Colon,
    WhiteSpace,
    NewLine,
    Eof,
    Integer(i64),
    Float(Seq<char>),
    Bool(bool),
    String(Seq<char>),
    Identifier(Seq<char>),
    Print,
    If,
    Else,
    Let,
    While,
    Illegal(char, nat, nat),
}

impl View for Token {
    type V = SpecToken;

    open spec fn view(&self) -> SpecToken {
        match self {
            Token::LeftParen => SpecToken::LeftParen,
            Token::RightParen => SpecToken::RightParen,
            Token::Plus => SpecToken::Plus,
            Token::Minus => SpecToken::Minus,
            Token::Times => SpecToken::Times,
            Token::Divide => SpecToken::Divide,
            Token::Dot => SpecToken::Dot,
            Token::SemiColon => SpecToken::SemiColon,
            Token::Quote => SpecToken::Quote,
            Token::Or => SpecToken::Or,
            Token::And => SpecToken::And,
            Token::Xor => SpecToken::Xor,
            Token::Bang => SpecToken::Bang,
            Token::Equal => SpecToken::Equal,
            Token::DoubleEqual => SpecToken::DoubleEqual,
            Token::BangEqual => SpecToken::BangEqual,
            Token::Greater => SpecToken::Greater,
            Token::Less => SpecToken::Less,
            Token::GreaterEqual => SpecToken::GreaterEqual,
            Token::LessEqual => SpecToken::LessEqual,
            Token::Comma => SpecToken::Comma,
            Token::LeftBrace => SpecToken::LeftBrace,
            Token::RightBrace => SpecToken::RightBrace,
            Token::Colon => SpecToken::Colon,
            Token::WhiteSpace => SpecToken::WhiteSpace,
            Token::NewLine => SpecToken::NewLine,
            Token::Eof => SpecToken::Eof,
            Token::Integer(i) => SpecToken::Integer(*i),
            Token::Float(s) => SpecToken::Float(s@),
            Token::Bool(b) => SpecToken::Bool(*b),
            Token::String(s) => SpecToken::String(s@),
            Token::Identifier(s) => SpecToken::Identifier(s@),
            Token::Print => SpecToken::Print,
            Token::If => SpecToken::If,
            Token::Else => SpecToken::Else,
            Token::Let => SpecToken::Let,
            Token::While => SpecToken::While,
            Token::Illegal(c, off, line) => SpecToken::Illegal(*c, *off as nat, *line as nat),
        }
    }
}

/// The models of a sequence of tokens, element by element.
pub open spec fn toks_view(ts: Seq<Token>) -> Seq<SpecToken> {
    ts.map_values(|t: Token| t@)
}

/// Relies on `String::push`: it appends exactly the given character to the
/// end of the string.
#[verifier::external_body]
pub(crate) fn push_char(s: &mut String, c: char)
    ensures
        final(s)@ == old(s)@.push(c),
{
    s.push(c);
}

impl Clone for Token {
    /// The copy models exactly as the original does.
    fn clone(&self) -> (r: Token)
        ensures
            r@ == self@,
    {
        match self {
            Token::LeftParen => Token::LeftParen,
            Token::RightParen => Token::RightParen,
            Token::Plus => Token::Plus,
            Token::Minus => Token::Minus,
            Token::Times => Token::Times,
            Token::Divide => Token::Divide,
            Token::Dot => Token::Dot,
            Token::SemiColon => Token::SemiColon,
            Token::Quote => Token::Quote,
            Token::Or => Token::Or,
            Token::And => Token::And,
            Token::Xor => Token::Xor,
            Token::Bang => Token::Bang,
            Token::Equal => Token::Equal,
            Token::DoubleEqual => Token::DoubleEqual,
            Token::BangEqual => Token::BangEqual,
            Token::Greater => Token::Greater,
            Token::Less => Token::Less,
            Token::GreaterEqual => Token::GreaterEqual,
            Token::LessEqual => Token::LessEqual,
            Token::Comma => Token::Comma,
            Token::LeftBrace => Token::LeftBrace,
            Token::RightBrace => Token::RightBrace,
            Token::Colon => Token::Colon,
            Token::WhiteSpace => Token::WhiteSpace,
            Token::NewLine => Token::NewLine,
            Token::Eof => Token::Eof,
            Token::Integer(i) => Token::Integer(*i),
            Token::Float(s) => Token::Float(s.clone()),
            Token::Bool(b) => Token::Bool(*b),
            Token::String(s) => Token::String(s.clone()),
            Token::Identifier(s) => Token::Identifier(s.clone()),
            Token::Print => Token::Print,
            Token::If => Token::If,
            Token::Else => Token::Else,
            Token::Let => Token::Let,
            Token::While => Token::While,
            Token::Illegal(c, off, line) => Token::Illegal(*c, *off, *line),
        }
    }
}

impl PartialEq for Token {
    /// Two tokens are equal when their models are equal: same variant, and for
    /// literals, identifiers and illegal characters the same payload.
    #[verifier::rlimit(50)]
    fn eq(&self, other: &Token) -> bool {
        match (self, other) {
            (Token::LeftParen, Token::LeftParen) => true,
            (Token::RightParen, Token::RightParen) => true,
            (Token::Plus, Token::Plus) => true,
            (Token::Minus, Token::Minus) => true,
            (Token::Times, Token::Times) => true,
            (Token::Divide, Token::Divide) => true,
            (Token::Dot, Token::Dot) => true,
            (Token::SemiColon, Token::SemiColon) => true,
            (Token::Quote, Token::Quote) => true,
            (Token::Or, Token::Or) => true,
            (Token::And, Token::And) => true,
            (Token::Xor, Token::Xor) => true,
            (Token::Bang, Token::Bang) => true,
            (Token::Equal, Token::Equal) => true,
            (Token::DoubleEqual, Token::DoubleEqual) => true,
            (Token::BangEqual, Token::BangEqual) => true,
            (Token::Greater, Token::Greater) => true,
            (Token::Less, Token::Less) => true,
            (Token::GreaterEqual, Token::GreaterEqual) => true,
            (Token::LessEqual, Token::LessEqual) => true,
            (Token::Comma, Token::Comma) => true,
            (Token::LeftBrace, Token::LeftBrace) => true,
            (Token::RightBrace, Token::RightBrace) => true,
            (Token::Colon, Token::Colon) => true,
            (Token::WhiteSpace, Token::WhiteSpace) => true,
            (Token::NewLine, Token::NewLine) => true,
            (Token::Eof, Token::Eof) => true,
            (Token::Integer(a), Token::Integer(b)) => *a == *b,
            (Token::Float(a), Token::Float(b)) => *a == *b,
            (Token::Bool(a), Token::Bool(b)) => *a == *b,
            (Token::String(a), Token::String(b)) => *a == *b,
            (Token::Identifier(a), Token::Identifier(b)) => *a == *b,
            (Token::Print, Token::Print) => true,
            (Token::If, Token::If) => true,
            (Token::Else, Token::Else) => true,
            (Token::Let, Token::Let) => true,
            (Token::While, Token::While) => true,
            (Token::Illegal(c, off, line), Token::Illegal(d, off2, line2)) => (
                c == d && off == off2 && line == line2
            ),
            _ => false,
        }
    }
}

impl vstd::std_specs::cmp::PartialEqSpecImpl for Token {
    open spec fn obeys_eq_spec() -> bool {
        true
    }

    open spec fn eq_spec(&self, other: &Token) -> bool {
        self@ == other@
    }
}

} // verus!
