use crate::tokens::push_char;
use crate::tokens::toks_view;
use crate::tokens::SpecToken;
use crate::tokens::Token;
use vstd::prelude::*;
use vstd::string::StrSliceExecFns;

verus! {

// ---------------------------------------------------------------------------
// Character classes
// ---------------------------------------------------------------------------
pub open spec fn is_digit_char(c: char) -> bool {
    '0' <= c && c <= '9'
}

pub open spec fn is_ident_start(c: char) -> bool {
    ('a' <= c && c <= 'z') || ('A' <= c && c <= 'Z') || c == '_'
}

pub open spec fn is_ident_char(c: char) -> bool {
    is_ident_start(c) || is_digit_char(c)
}

pub open spec fn digit_val(c: char) -> int {
    c as int - '0' as int
}

/// The character a scan sees at position `i`: the end of the input reads as a
/// NUL sentinel.
pub open spec fn char_at(s: Seq<char>, i: int) -> char {
    if 0 <= i < s.len() {
        s[i]
    } else {
        '\0'
    }
}

// ---------------------------------------------------------------------------
// Greedy runs
// ---------------------------------------------------------------------------
/// The index just past the run of decimal digits that starts at `i`.
pub open spec fn digits_end(s: Seq<char>, i: int) -> int
    decreases s.len() - i when 0 <= i <= s.len()
{
    if i < s.len() && is_digit_char(s[i]) {
        digits_end(s, i + 1)
    } else {
        i
    }
}

/// The index just past the run of identifier characters that starts at `i`.
pub open spec fn ident_end(s: Seq<char>, i: int) -> int
    decreases s.len() - i when 0 <= i <= s.len()
{
    if i < s.len() && is_ident_char(s[i]) {
        ident_end(s, i + 1)
    } else {
        i
    }
}

/// The index of the first `"` at or after `i`, or the input's length if none
/// follows.
pub open spec fn string_end(s: Seq<char>, i: int) -> int
    decreases s.len() - i when 0 <= i <= s.len()
{
    if i < s.len() {
        if s[i] == '"' {
            i
        } else {
            string_end(s, i + 1)
        }
    } else {
        i
    }
}

/// The value of a run of decimal digits, most significant first.
pub open spec fn digits_value(s: Seq<char>) -> int
    decreases s.len(),
{
    if s.len() == 0 {
        0
    } else {
        digits_value(s.drop_last()) * 10 + digit_val(s.last())
    }
}

// ---------------------------------------------------------------------------
// Words
// ---------------------------------------------------------------------------
/// The token an identifier-shaped word scans to: a keyword, a boolean
/// literal, or an identifier.
pub open spec fn word_token(w: Seq<char>) -> SpecToken {
    if w == "print"@ {
        SpecToken::Print
    } else if w == "if"@ {
        SpecToken::If
    } else if w == "else"@ {
        SpecToken::Else
    } else if w == "let"@ {
        SpecToken::Let
    } else if w == "while"@ {
        SpecToken::While
    } else if w == "true"@ {
        SpecToken::Bool(true)
    } else if w == "false"@ {
        SpecToken::Bool(false)
    } else {
        SpecToken::Identifier(w)
    }
}

// ---------------------------------------------------------------------------
// One token
// ---------------------------------------------------------------------------
/// The token that starts at position `i` of line `line`, the position just
/// past it, and the line the scan continues on.
///
/// Numbers are read greedily: digits, then a `.` followed by at least one
/// digit for a float literal; a `.` not followed by a digit is left for the
/// next token. An integer literal beyond `i64::MAX`, a string literal with no
/// closing quote, and any unrecognized character each scan to an `Illegal`
/// token.
pub open spec fn scan_token(s: Seq<char>, i: int, line: int) -> (SpecToken, int, int) {
    let c = s[i];
    if c == '(' {
        (SpecToken::LeftParen, i + 1, line)
    } else if c == ')' {
        (SpecToken::RightParen, i + 1, line)
    } else if c == '+' {
        (SpecToken::Plus, i + 1, line)
    } else if c == '-' {
        (SpecToken::Minus, i + 1, line)
    } else if c == '*' {
        (SpecToken::Times, i + 1, line)
    } else if c == '/' {
        (SpecToken::Divide, i + 1, line)
    } else if c == '.' {
        (SpecToken::Dot, i + 1, line)
    } else if c == ';' {
        (SpecToken::SemiColon, i + 1, line)
    } else if c == '\'' {
        (SpecToken::Quote, i + 1, line)
    } else if c == ',' {
        (SpecToken::Comma, i + 1, line)
    } else if c == '{' {
        (SpecToken::LeftBrace, i + 1, line)
    } else if c == '}' {
        (SpecToken::RightBrace, i + 1, line)
    } else if c == ':' {
        (SpecToken::Colon, i + 1, line)
    } else if c == '^' {
        (SpecToken::Xor, i + 1, line)
    } else if c == '=' {
        if char_at(s, i + 1) == '=' {
            (SpecToken::DoubleEqual, i + 2, line)
        } else {
            (SpecToken::Equal, i + 1, line)
        }
    } else if c == '!' {
        if char_at(s, i + 1) == '=' {
            (SpecToken::BangEqual, i + 2, line)
        } else {
            (SpecToken::Bang, i + 1, line)
        }
    } else if c == '<' {
        if char_at(s, i + 1) == '=' {
            (SpecToken::LessEqual, i + 2, line)
        } else {
            (SpecToken::Less, i + 1, line)
        }
    } else if c == '>' {
        if char_at(s, i + 1) == '=' {
            (SpecToken::GreaterEqual, i + 2, line)
        } else {
            (SpecToken::Greater, i + 1, line)
        }
    } else if c == '&' {
        if char_at(s, i + 1) == '&' {
            (SpecToken::And, i + 2, line)
        } else {
            (SpecToken::Illegal(c, i as nat, line as nat), i + 1, line)
        }
    } else if c == '|' {
        if char_at(s, i + 1) == '|' {
            (SpecToken::Or, i + 2, line)
        } else {
            (SpecToken::Illegal(c, i as nat, line as nat), i + 1, line)
        }
    } else if c == ' ' || c == '\t' || c == '\r' {
        (SpecToken::WhiteSpace, i + 1, line)
    } else if c == '\n' {
        (SpecToken::NewLine, i + 1, line + 1)
    } else if c == '"' {
        let e = string_end(s, i + 1);
        if e < s.len() {
            (SpecToken::String(s.subrange(i + 1, e)), e + 1, line)
        } else {
            (SpecToken::Illegal('"', i as nat, line as nat), s.len() as int, line)
        }
    } else if is_digit_char(c) {
        let d = digits_end(s, i);
        if d < s.len() && s[d] == '.' && is_digit_char(char_at(s, d + 1)) {
            let f = digits_end(s, d + 1);
            (SpecToken::Float(s.subrange(i, f)), f, line)
        } else if digits_value(s.subrange(i, d)) > i64::MAX {
            (SpecToken::Illegal(c, i as nat, line as nat), d, line)
        } else {
            (SpecToken::Integer(digits_value(s.subrange(i, d)) as i64), d, line)
        }
    } else if is_ident_start(c) {
        let e = ident_end(s, i);
        (word_token(s.subrange(i, e)), e, line)
    } else {
        (SpecToken::Illegal(c, i as nat, line as nat), i + 1, line)
    }
}

// ---------------------------------------------------------------------------
// The whole scan
// ---------------------------------------------------------------------------
/// Every token from position `i` on, ending with exactly one `Eof`. A NUL
/// character reads as end of input.
pub open spec fn scan_spec(s: Seq<char>, i: int, line: int) -> Seq<SpecToken>
    decreases s.len() - i when 0 <= i <= s.len()
{
    if i >= s.len() || s[i] == '\0' {
        seq![SpecToken::Eof]
    } else {
        let (t, j, l2) = scan_token(s, i, line);
        let j2 = if i < j <= s.len() {
            j
        } else {
            i + 1
        };
        seq![t] + scan_spec(s, j2, l2)
    }
}

pub open spec fn is_visible(t: SpecToken) -> bool {
    !(t is WhiteSpace || t is NewLine)
}

/// What a finished scan returns: the raw token sequence with whitespace and
/// newline tokens filtered out.
pub open spec fn lex_spec(s: Seq<char>) -> Seq<SpecToken> {
    strip_spec(scan_spec(s, 0, 1))
}

// ---------------------------------------------------------------------------
// Bounds of the spec scan
// ---------------------------------------------------------------------------
pub proof fn lemma_digits_end(s: Seq<char>, i: int)
    requires
        0 <= i <= s.len(),
    ensures
        i <= digits_end(s, i) <= s.len(),
        forall|k: int| i <= k < digits_end(s, i) ==> is_digit_char(s[k]),
        digits_end(s, i) < s.len() ==> !is_digit_char(s[digits_end(s, i)]),
    decreases s.len() - i,
{
    if i < s.len() && is_digit_char(s[i]) {
        lemma_digits_end(s, i + 1);
    }
}

pub proof fn lemma_ident_end(s: Seq<char>, i: int)
    requires
        0 <= i <= s.len(),
    ensures
        i <= ident_end(s, i) <= s.len(),
        forall|k: int| i <= k < ident_end(s, i) ==> is_ident_char(s[k]),
        ident_end(s, i) < s.len() ==> !is_ident_char(s[ident_end(s, i)]),
    decreases s.len() - i,
{
    if i < s.len() && is_ident_char(s[i]) {
        lemma_ident_end(s, i + 1);
    }
}

pub proof fn lemma_string_end(s: Seq<char>, i: int)
    requires
        0 <= i <= s.len(),
    ensures
        i <= string_end(s, i) <= s.len(),
        forall|k: int| i <= k < string_end(s, i) ==> s[k] != '"',
        string_end(s, i) < s.len() ==> s[string_end(s, i)] == '"',
    decreases s.len() - i,
{
    if i < s.len() && s[i] != '"' {
        lemma_string_end(s, i + 1);
    }
}

/// The visible tokens of `ts`, in order.
pub open spec fn strip_spec(ts: Seq<SpecToken>) -> Seq<SpecToken>
    decreases ts.len(),
{
    if ts.len() == 0 {
        Seq::empty()
    } else {
        let rest = strip_spec(ts.drop_last());
        if is_visible(ts.last()) {
            rest.push(ts.last())
        } else {
            rest
        }
    }
}

pub proof fn lemma_digits_value_push(s: Seq<char>, c: char)
    ensures
        digits_value(s.push(c)) == digits_value(s) * 10 + digit_val(c),
{
    assert(s.push(c).drop_last() =~= s);
    assert(s.push(c).last() == c);
}

/// A scanned token spans at least one character and stays inside the input.
pub proof fn lemma_scan_token_bounds(s: Seq<char>, i: int, line: int)
    requires
        0 <= i < s.len(),
    ensures
        i < scan_token(s, i, line).1 <= s.len(),
{
    let c = s[i];
    if c == '"' {
        lemma_string_end(s, i + 1);
    } else if is_digit_char(c) {
        lemma_digits_end(s, i);
        let d = digits_end(s, i);
        if d < s.len() && s[d] == '.' && is_digit_char(char_at(s, d + 1)) {
            lemma_digits_end(s, d + 1);
        }
    } else if is_ident_start(c) {
        lemma_ident_end(s, i);
    }
}

// ---------------------------------------------------------------------------
// The lexer
// ---------------------------------------------------------------------------
/// A single-pass scanner over source text with one character of lookahead.
///
/// `position` is the character offset of the cursor, `ch` the character
/// there (a NUL sentinel at the end of the input), `read_position` the offset
/// the next read advances to, and `line` the one-based line number used for
/// diagnostics.
pub struct Lexer {
    input: String,
    position: usize,
    line: usize,
    read_position: usize,
    ch: char,
}

impl Lexer {
    /// The source text under scan.
    pub closed spec fn src(self) -> Seq<char> {
        self.input@
    }

    /// The cursor's character offset.
    pub closed spec fn pos(self) -> int {
        self.position as int
    }

    /// The current line number.
    pub closed spec fn line_no(self) -> int {
        self.line as int
    }

    /// The offset the next read advances to.
    pub closed spec fn rpos(self) -> int {
        self.read_position as int
    }

    /// The character under the cursor.
    pub closed spec fn cur(self) -> char {
        self.ch
    }

    /// The cursor state between tokens: the next read offset sits one past
    /// the cursor, and the cursor holds the character at its offset, or the
    /// NUL sentinel past the end.
    pub closed spec fn fresh(self) -> bool {
        self.rpos() == self.pos() + 1 && self.cur() == char_at(self.src(), self.pos())
    }

    pub fn new(input: String) -> (l: Lexer)
        requires
            input@.len() + 2 <= usize::MAX,
        ensures
            l.src() == input@,
            l.fresh(),
            l.pos() == 0,
            l.line_no() == 1,
    {
        let mut l = Lexer { input, position: 0, line: 1, read_position: 0, ch: '\0' };
        l.read_char();
        l
    }

    /// Advance the cursor to the next read offset and load the character
    /// there, or the NUL sentinel past the end of the input.
    pub fn read_char(&mut self)
        requires
            old(self).rpos() < usize::MAX,
        ensures
            final(self).src() == old(self).src(),
            final(self).line_no() == old(self).line_no(),
            final(self).pos() == old(self).rpos(),
            final(self).rpos() == old(self).rpos() + 1,
            final(self).cur() == char_at(old(self).src(), old(self).rpos()),
    {
        let n = self.input.as_str().unicode_len();
        if self.read_position >= n {
            self.ch = '\0';
        } else {
            self.ch = self.input.as_str().get_char(self.read_position);
        }
        self.position = self.read_position;
        self.read_position = self.read_position + 1;
    }

    /// Step the cursor back one character, so that the next read lands on the
    /// character it backed over.
    pub fn back_char(&mut self)
        requires
            1 <= old(self).rpos(),
            old(self).rpos() - 1 < old(self).src().len(),
        ensures
            final(self).src() == old(self).src(),
            final(self).line_no() == old(self).line_no(),
            final(self).pos() == old(self).rpos() - 1,
            final(self).rpos() == old(self).rpos() - 1,
            final(self).cur() == old(self).src()[old(self).rpos() - 1],
    {
        self.read_position = self.read_position - 1;
        self.position = self.read_position;
        self.ch = self.input.as_str().get_char(self.position);
    }

    /// Step the next read offset back one place, also when the cursor stands
    /// past the end of the input and there is no character to reload.
    fn retreat(&mut self)
        requires
            1 <= old(self).rpos(),
        ensures
            final(self).src() == old(self).src(),
            final(self).line_no() == old(self).line_no(),
            final(self).pos() == old(self).rpos() - 1,
            final(self).rpos() == old(self).rpos() - 1,
    {
        let n = self.input.as_str().unicode_len();
        if self.read_position - 1 < n {
            self.back_char();
        } else {
            self.read_position = self.read_position - 1;
            self.position = self.read_position;
        }
    }

    /// Read a numeric literal: a run of digits, continued past a decimal
    /// point only when a digit follows it. An integer literal whose value
    /// exceeds `i64::MAX` reads as an `Illegal` token.
    #[verifier::loop_isolation(false)]
    pub fn read_number(&mut self) -> (t: Token)
        requires
            old(self).fresh(),
            0 <= old(self).pos() < old(self).src().len(),
            is_digit_char(old(self).cur()),
            old(self).src().len() + 2 <= usize::MAX,
        ensures
            final(self).src() == old(self).src(),
            final(self).line_no() == old(self).line_no(),
            t@ == scan_token(old(self).src(), old(self).pos(), old(self).line_no()).0,
            final(self).rpos() == scan_token(old(self).src(), old(self).pos(), old(self).line_no()).1,
    {
        let ghost s = self.src();
        let ghost i = self.pos();
        let ghost line0 = self.line_no();
        proof {
            lemma_digits_end(s, i);
        }
        let c0 = self.ch;
        let p0 = self.position;
        let mut text = String::new();
        let mut val: u64 = 0;
        let mut overflow = false;
        while self.ch >= '0' && self.ch <= '9'
            invariant
                self.src() == s,
                self.line_no() == line0,
                s.len() + 2 <= usize::MAX,
                self.fresh(),
                i <= self.pos() <= digits_end(s, i) <= s.len(),
                forall|k: int| i <= k < digits_end(s, i) ==> is_digit_char(s[k]),
                digits_end(s, i) < s.len() ==> !is_digit_char(s[digits_end(s, i)]),
                text@ == s.subrange(i, self.pos()),
                !overflow ==> val == digits_value(text@),
                overflow ==> digits_value(text@) > u64::MAX,
            decreases s.len() - self.pos(),
        {
            assert(self.pos() < digits_end(s, i));
            let c = self.ch;
            let ghost before = text@;
            push_char(&mut text, c);
            if !overflow {
                let d = (c as u32) - ('0' as u32);
                match val.checked_mul(10) {
                    Some(v10) => match v10.checked_add(d as u64) {
                        Some(v) => {
                            val = v;
                        },
                        None => {
                            overflow = true;
                        },
                    },
                    None => {
                        overflow = true;
                    },
                }
            }
            proof {
                lemma_digits_value_push(before, c);
                assert(s.subrange(i, self.pos() + 1) =~= before.push(c));
            }
            self.read_char();
        }
        assert(self.pos() == digits_end(s, i));
        let ghost d = digits_end(s, i);
        let n = self.input.as_str().unicode_len();
        let mut is_float = false;
        if self.ch == '.' {
            if self.read_position < n {
                let c2 = self.input.as_str().get_char(self.read_position);
                if c2 >= '0' && c2 <= '9' {
                    is_float = true;
                }
            }
        }
        if is_float {
            proof {
                lemma_digits_end(s, d + 1);
            }
            push_char(&mut text, '.');
            self.read_char();
            assert(text@ =~= s.subrange(i, self.pos()));
            while self.ch >= '0' && self.ch <= '9'
                invariant
                    self.src() == s,
                    self.line_no() == line0,
                    s.len() + 2 <= usize::MAX,
                    self.fresh(),
                    i <= d < d + 1 <= self.pos() <= digits_end(s, d + 1) <= s.len(),
                    forall|k: int| d + 1 <= k < digits_end(s, d + 1) ==> is_digit_char(s[k]),
                    digits_end(s, d + 1) < s.len() ==> !is_digit_char(s[digits_end(s, d + 1)]),
                    text@ == s.subrange(i, self.pos()),
                decreases s.len() - self.pos(),
            {
                assert(self.pos() < digits_end(s, d + 1));
                let c = self.ch;
                let ghost before = text@;
                push_char(&mut text, c);
                proof {
                    assert(s.subrange(i, self.pos() + 1) =~= before.push(c));
                }
                self.read_char();
            }
            assert(self.pos() == digits_end(s, d + 1));
            self.retreat();
            Token::Float(text)
        } else {
            self.retreat();
            if overflow || val > i64::MAX as u64 {
                Token::Illegal(c0, p0, self.line)
            } else {
                Token::Integer(val as i64)
            }
        }
    }

    /// Read a string literal's contents up to its closing quote. A literal
    /// the input ends inside reads as an `Illegal` token carrying the opening
    /// quote.
    #[verifier::loop_isolation(false)]
    pub fn read_string(&mut self) -> (t: Token)
        requires
            old(self).fresh(),
            0 <= old(self).pos() < old(self).src().len(),
            old(self).cur() == '"',
            old(self).src().len() + 2 <= usize::MAX,
        ensures
            final(self).src() == old(self).src(),
            final(self).line_no() == old(self).line_no(),
            t@ == scan_token(old(self).src(), old(self).pos(), old(self).line_no()).0,
            final(self).rpos() == scan_token(old(self).src(), old(self).pos(), old(self).line_no()).1,
    {
        let ghost s = self.src();
        let ghost i = self.pos();
        let ghost line0 = self.line_no();
        proof {
            lemma_string_end(s, i + 1);
        }
        let ghost e = string_end(s, i + 1);
        let p0 = self.position;
        let mut text = String::new();
        let n = self.input.as_str().unicode_len();
        self.read_char();
        while self.position < n && self.ch != '"'
            invariant
                self.src() == s,
                self.line_no() == line0,
                n as int == s.len(),
                s.len() + 2 <= usize::MAX,
                self.fresh(),
                i + 1 <= self.pos() <= e,
                e == string_end(s, i + 1),
                e <= s.len(),
                forall|k: int| i + 1 <= k < e ==> s[k] != '"',
                e < s.len() ==> s[e] == '"',
                text@ == s.subrange(i + 1, self.pos()),
            decreases s.len() - self.pos(),
        {
            assert(self.pos() < e);
            let c = self.ch;
            let ghost before = text@;
            push_char(&mut text, c);
            proof {
                assert(s.subrange(i + 1, self.pos() + 1) =~= before.push(c));
            }
            self.read_char();
        }
        if self.position < n {
            assert(self.pos() == e);
            Token::String(text)
        } else {
            assert(self.pos() == e && e == s.len());
            self.retreat();
            Token::Illegal('"', p0, self.line)
        }
    }

    /// Read an identifier-shaped word and classify it as a keyword, a boolean
    /// literal, or an identifier.
    #[verifier::loop_isolation(false)]
    fn read_identifier(&mut self) -> (t: Token)
        requires
            old(self).fresh(),
            0 <= old(self).pos() < old(self).src().len(),
            is_ident_start(old(self).cur()),
            old(self).src().len() + 2 <= usize::MAX,
        ensures
            final(self).src() == old(self).src(),
            final(self).line_no() == old(self).line_no(),
            t@ == scan_token(old(self).src(), old(self).pos(), old(self).line_no()).0,
            final(self).rpos() == scan_token(old(self).src(), old(self).pos(), old(self).line_no()).1,
    {
        let ghost s = self.src();
        let ghost i = self.pos();
        let ghost line0 = self.line_no();
        proof {
            lemma_ident_end(s, i);
        }
        let mut text = String::new();
        while (self.ch >= 'a' && self.ch <= 'z') || (self.ch >= 'A' && self.ch <= 'Z')
            || self.ch == '_' || (self.ch >= '0' && self.ch <= '9')
            invariant
                self.src() == s,
                self.line_no() == line0,
                s.len() + 2 <= usize::MAX,
                self.fresh(),
                i <= self.pos() <= ident_end(s, i) <= s.len(),
                forall|k: int| i <= k < ident_end(s, i) ==> is_ident_char(s[k]),
                ident_end(s, i) < s.len() ==> !is_ident_char(s[ident_end(s, i)]),
                text@ == s.subrange(i, self.pos()),
            decreases s.len() - self.pos(),
        {
            assert(self.pos() < ident_end(s, i));
            let c = self.ch;
            let ghost before = text@;
            push_char(&mut text, c);
            proof {
                assert(s.subrange(i, self.pos() + 1) =~= before.push(c));
            }
            self.read_char();
        }
        assert(self.pos() == ident_end(s, i));
        self.retreat();
        if text == "print".to_owned() {
            Token::Print
        } else if text == "if".to_owned() {
            Token::If
        } else if text == "else".to_owned() {
            Token::Else
        } else if text == "let".to_owned() {
            Token::Let
        } else if text == "while".to_owned() {
            Token::While
        } else if text == "true".to_owned() {
            Token::Bool(true)
        } else if text == "false".to_owned() {
            Token::Bool(false)
        } else {
            Token::Identifier(text)
        }
    }

    /// Scan the one token that starts at the cursor. On return the next read
    /// lands just past the scanned token, and the line count has followed any
    /// newline. At the end of the input the scan yields `Eof` and stands
    /// still.
    pub fn match_token(&mut self) -> (t: Token)
        requires
            old(self).fresh(),
            0 <= old(self).pos(),
            old(self).line_no() < usize::MAX,
            old(self).src().len() + 2 <= usize::MAX,
        ensures
            final(self).src() == old(self).src(),
            old(self).pos() < old(self).src().len() && old(self).src()[old(self).pos()] != '\0'
                ==> {
                let (tk, j, l2) = scan_token(old(self).src(), old(self).pos(), old(self).line_no());
                &&& t@ == tk
                &&& final(self).rpos() == j
                &&& final(self).line_no() == l2
            },
            !(old(self).pos() < old(self).src().len() && old(self).src()[old(self).pos()] != '\0')
                ==> t@ == SpecToken::Eof && *final(self) == *old(self),
    {
        match self.ch {
            '(' => Token::LeftParen,
            ')' => Token::RightParen,
            '+' => Token::Plus,
            '-' => Token::Minus,
            '*' => Token::Times,
            '/' => Token::Divide,
            '.' => Token::Dot,
            ';' => Token::SemiColon,
            '\'' => Token::Quote,
            ',' => Token::Comma,
            '{' => Token::LeftBrace,
            '}' => Token::RightBrace,
            ':' => Token::Colon,
            '^' => Token::Xor,
            '=' => {
                if self.peek_char() == '=' {
                    self.read_char();
                    Token::DoubleEqual
                } else {
                    Token::Equal
                }
            },
            '!' => {
                if self.peek_char() == '=' {
                    self.read_char();
                    Token::BangEqual
                } else {
                    Token::Bang
                }
            },
            '<' => {
                if self.peek_char() == '=' {
                    self.read_char();
                    Token::LessEqual
                } else {
                    Token::Less
                }
            },
            '>' => {
                if self.peek_char() == '=' {
                    self.read_char();
                    Token::GreaterEqual
                } else {
                    Token::Greater
                }
            },
            '&' => {
                if self.peek_char() == '&' {
                    self.read_char();
                    Token::And
                } else {
                    Token::Illegal('&', self.position, self.line)
                }
            },
            '|' => {
                if self.peek_char() == '|' {
                    self.read_char();
                    Token::Or
                } else {
                    Token::Illegal('|', self.position, self.line)
                }
            },
            ' ' => Token::WhiteSpace,
            '\t' => Token::WhiteSpace,
            '\r' => Token::WhiteSpace,
            '\n' => {
                self.line = self.line + 1;
                Token::NewLine
            },
            '"' => self.read_string(),
            '\0' => Token::Eof,
            c => {
                if c >= '0' && c <= '9' {
                    self.read_number()
                } else if (c >= 'a' && c <= 'z') || (c >= 'A' && c <= 'Z') || c == '_' {
                    self.read_identifier()
                } else {
                    Token::Illegal(c, self.position, self.line)
                }
            },
        }
    }

    /// The character one past the cursor, or the NUL sentinel past the end of
    /// the input.
    fn peek_char(&self) -> (c: char)
        ensures
            c == char_at(self.src(), self.rpos()),
    {
        let n = self.input.as_str().unicode_len();
        if self.read_position < n {
            self.input.as_str().get_char(self.read_position)
        } else {
            '\0'
        }
    }

    /// Copy the visible tokens, dropping every whitespace and newline token.
    #[verifier::loop_isolation(false)]
    pub fn strip_whitespace(&mut self, orig_tokens: Vec<Token>) -> (r: Vec<Token>)
        ensures
            *final(self) == *old(self),
            toks_view(r@) == strip_spec(toks_view(orig_tokens@)),
    {
        let mut tokens: Vec<Token> = Vec::new();
        let mut idx: usize = 0;
        while idx < orig_tokens.len()
            invariant
                idx <= orig_tokens.len(),
                toks_view(tokens@) == strip_spec(toks_view(orig_tokens@.subrange(0, idx as int))),
            decreases orig_tokens.len() - idx,
        {
            let ghost prefix = orig_tokens@.subrange(0, idx as int);
            let ghost kept = tokens@;
            let keep = match &orig_tokens[idx] {
                Token::WhiteSpace => false,
                Token::NewLine => false,
                _ => true,
            };
            if keep {
                tokens.push(orig_tokens[idx].clone());
            }
            proof {
                let x = orig_tokens@[idx as int];
                assert(orig_tokens@.subrange(0, idx + 1) =~= prefix.push(x));
                assert(toks_view(prefix.push(x)) =~= toks_view(prefix).push(x@));
                assert(toks_view(prefix).push(x@).drop_last() =~= toks_view(prefix));
                if keep {
                    assert(toks_view(tokens@) =~= toks_view(kept).push(x@));
                }
            }
            idx = idx + 1;
        }
        proof {
            assert(orig_tokens@.subrange(0, orig_tokens@.len() as int) =~= orig_tokens@);
        }
        tokens
    }

    /// Scan the whole input: every token in source order with whitespace and
    /// newline tokens dropped, terminated by exactly one end-of-input token.
    /// The `debug` flag selects the callers' diagnostics and does not change
    /// what is returned.
    #[verifier::loop_isolation(false)]
    #[allow(unused_variables)]
    pub fn lex(&mut self, debug: bool) -> (r: Vec<Token>)
        requires
            old(self).fresh(),
            old(self).pos() == 0,
            old(self).line_no() == 1,
            old(self).src().len() + 2 <= usize::MAX,
        ensures
            toks_view(r@) == lex_spec(old(self).src()),
    {
        let ghost s = self.src();
        let mut tokens: Vec<Token> = Vec::new();
        while self.ch != '\0'
            invariant
                self.src() == s,
                self.fresh(),
                0 <= self.pos() <= s.len(),
                1 <= self.line_no() <= self.pos() + 1,
                scan_spec(s, 0, 1) == toks_view(tokens@) + scan_spec(s, self.pos(), self.line_no()),
            decreases s.len() - self.pos(),
        {
            proof {
                lemma_scan_token_bounds(s, self.pos(), self.line_no());
            }
            let ghost before = tokens@;
            let t = self.match_token();
            tokens.push(t);
            proof {
                assert(toks_view(tokens@) =~= toks_view(before).push(t@));
                assert(toks_view(before).push(t@) =~= toks_view(before) + seq![t@]);
            }
            self.read_char();
        }
        let ghost before = tokens@;
        let t = self.match_token();
        tokens.push(t);
        proof {
            assert(toks_view(tokens@) =~= toks_view(before).push(t@));
            assert(toks_view(before).push(t@) =~= toks_view(before) + seq![SpecToken::Eof]);
        }
        self.strip_whitespace(tokens)
    }
}

} // verus!
