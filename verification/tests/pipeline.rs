use mt::Environment;
use mt::Expression;
use mt::Lexer;
use mt::Parser;
use mt::RuntimeError;
use mt::Statement;
use mt::Token;
use mt::Type;
use mt::Value;

fn lex(src: &str) -> Vec<Token> {
    let mut l = Lexer::new(src.to_string());
    l.lex(false)
}

fn parse(src: &str) -> Result<Vec<Statement>, mt::ParseError> {
    let mut p = Parser::new(lex(src));
    p.parse()
}

#[test]
fn lex_let_statement() {
    let toks = lex("let x : int64 = 1;\n");
    assert_eq!(
        toks,
        vec![
            Token::Let,
            Token::Identifier("x".to_string()),
            Token::Colon,
            Token::Identifier("int64".to_string()),
            Token::Equal,
            Token::Integer(1),
            Token::SemiColon,
            Token::Eof,
        ]
    );
}

#[test]
fn lex_operators() {
    let toks = lex("a == b && c || d != e <= f >= g");
    assert_eq!(
        toks,
        vec![
            Token::Identifier("a".to_string()),
            Token::DoubleEqual,
            Token::Identifier("b".to_string()),
            Token::And,
            Token::Identifier("c".to_string()),
            Token::Or,
            Token::Identifier("d".to_string()),
            Token::BangEqual,
            Token::Identifier("e".to_string()),
            Token::LessEqual,
            Token::Identifier("f".to_string()),
            Token::GreaterEqual,
            Token::Identifier("g".to_string()),
            Token::Eof,
        ]
    );
}

#[test]
fn lex_float_carries_text() {
    let toks = lex("12.5");
    assert_eq!(toks, vec![Token::Float("12.5".to_string()), Token::Eof]);
}

#[test]
fn lex_dot_not_followed_by_digit_stays_separate() {
    let toks = lex("12.x");
    assert_eq!(
        toks,
        vec![
            Token::Integer(12),
            Token::Dot,
            Token::Identifier("x".to_string()),
            Token::Eof,
        ]
    );
}

#[test]
fn lex_string_literal() {
    let toks = lex("\"hi there\"");
    assert_eq!(toks, vec![Token::String("hi there".to_string()), Token::Eof]);
}

#[test]
fn lex_unterminated_string_is_illegal() {
    let toks = lex("\"oops");
    assert_eq!(toks, vec![Token::Illegal('"', 0, 1), Token::Eof]);
}

#[test]
fn lex_illegal_character_carries_position_and_line() {
    let toks = lex("\n@");
    assert_eq!(toks, vec![Token::Illegal('@', 1, 2), Token::Eof]);
}

#[test]
fn lex_integer_beyond_i64_is_illegal() {
    let toks = lex("99999999999999999999");
    assert_eq!(toks, vec![Token::Illegal('9', 0, 1), Token::Eof]);
}

#[test]
fn lex_keywords_and_booleans() {
    let toks = lex("print if else let while true false");
    assert_eq!(
        toks,
        vec![
            Token::Print,
            Token::If,
            Token::Else,
            Token::Let,
            Token::While,
            Token::Bool(true),
            Token::Bool(false),
            Token::Eof,
        ]
    );
}

#[test]
fn parse_precedence_multiplication_binds_tighter() {
    let ast = parse("1 + 2 * 3;").unwrap();
    assert_eq!(
        ast,
        vec![Statement::Expression(Expression::Infix(
            Box::new(Expression::Integer(1)),
            Token::Plus,
            Box::new(Expression::Infix(
                Box::new(Expression::Integer(2)),
                Token::Times,
                Box::new(Expression::Integer(3)),
            )),
        ))]
    );
}

#[test]
fn parse_left_associative_subtraction() {
    let ast = parse("7 - 4 - 1;").unwrap();
    assert_eq!(
        ast,
        vec![Statement::Expression(Expression::Infix(
            Box::new(Expression::Infix(
                Box::new(Expression::Integer(7)),
                Token::Minus,
                Box::new(Expression::Integer(4)),
            )),
            Token::Minus,
            Box::new(Expression::Integer(1)),
        ))]
    );
}

#[test]
fn parse_shadowing_program() {
    let ast = parse("let x : int64 = 1; { let x : int64 = 2; print x; } print x;").unwrap();
    assert_eq!(ast.len(), 3);
    assert!(matches!(ast[0], Statement::Let(..)));
    assert!(matches!(ast[1], Statement::Block(..)));
    assert!(matches!(ast[2], Statement::Print(..)));
}

#[test]
fn parse_assignment_in_block() {
    let ast = parse("let x : int64 = 1; { x = 2; } print x;").unwrap();
    match &ast[1] {
        Statement::Block(stmts) => match &stmts[0] {
            Statement::Expression(Expression::Assign(name, value)) => {
                assert_eq!(name, "x");
                assert_eq!(**value, Expression::Integer(2));
            }
            other => panic!("unexpected statement {:?}", other),
        },
        other => panic!("unexpected statement {:?}", other),
    }
}

#[test]
fn parse_while_loop() {
    let ast = parse("let i : int64 = 0; while (i < 3) { print i; i = i + 1; }").unwrap();
    assert_eq!(ast.len(), 2);
    assert!(matches!(ast[1], Statement::While(..)));
}

#[test]
fn parse_missing_semicolon_is_error() {
    assert!(parse("print 1").is_err());
}

#[test]
fn parse_missing_type_annotation_is_error() {
    assert!(parse("let x = 1;").is_err());
}

#[test]
fn parse_unterminated_block_is_error() {
    assert!(parse("{ print 1;").is_err());
}

#[test]
fn parse_assignment_to_non_variable_is_error() {
    assert!(parse("1 = 2;").is_err());
}

#[test]
fn typecheck_accepts_well_typed_program() {
    let src = "let x : int64 = 1; print x + 2;";
    let mut p = Parser::new(lex(src));
    let ast = p.parse().unwrap();
    let types = mt::typecheck(&ast, p.get_type_map()).unwrap();
    assert_eq!(types, vec![Type::Integer, Type::Integer]);
}

#[test]
fn typecheck_rejects_mixed_addition() {
    let src = "let x : int64 = 1; print x + true;";
    let mut p = Parser::new(lex(src));
    let ast = p.parse().unwrap();
    assert!(mt::typecheck(&ast, p.get_type_map()).is_err());
}

#[test]
fn typecheck_rejects_declared_type_mismatch() {
    let src = "let x : bool = 1;";
    let mut p = Parser::new(lex(src));
    let ast = p.parse().unwrap();
    assert!(mt::typecheck(&ast, p.get_type_map()).is_err());
}

#[test]
fn typecheck_rejects_unknown_type_name() {
    let src = "let x : int32 = 1;";
    let mut p = Parser::new(lex(src));
    let ast = p.parse().unwrap();
    assert!(mt::typecheck(&ast, p.get_type_map()).is_err());
}

#[test]
fn typecheck_rejects_non_boolean_condition() {
    let src = "if (1) print 2;";
    let mut p = Parser::new(lex(src));
    let ast = p.parse().unwrap();
    assert!(mt::typecheck(&ast, p.get_type_map()).is_err());
}

#[test]
fn typecheck_rejects_undeclared_variable() {
    let src = "print y;";
    let mut p = Parser::new(lex(src));
    let ast = p.parse().unwrap();
    assert!(mt::typecheck(&ast, p.get_type_map()).is_err());
}

#[test]
fn string_to_type_names() {
    assert_eq!(mt::string_to_type("int64"), Some(Type::Integer));
    assert_eq!(mt::string_to_type("float64"), Some(Type::Float));
    assert_eq!(mt::string_to_type("string"), Some(Type::String));
    assert_eq!(mt::string_to_type("bool"), Some(Type::Boolean));
    assert_eq!(mt::string_to_type("null"), Some(Type::Null));
    assert_eq!(mt::string_to_type("Int64"), None);
}

#[test]
fn environment_shadowing_and_scope_exit() {
    let mut env = Environment::new();
    env.define("x".to_string(), Value::Int(1));
    env.push_scope();
    env.define("x".to_string(), Value::Int(2));
    assert_eq!(env.get("x"), Some(Value::Int(2)));
    env.pop_scope();
    assert_eq!(env.get("x"), Some(Value::Int(1)));
}

#[test]
fn environment_assignment_mutates_outer_binding() {
    let mut env = Environment::new();
    env.define("x".to_string(), Value::Int(1));
    env.push_scope();
    env.assign("x", Value::Int(2)).unwrap();
    env.pop_scope();
    assert_eq!(env.get("x"), Some(Value::Int(2)));
}

#[test]
fn environment_undefined_read_and_assignment() {
    let mut env = Environment::new();
    assert_eq!(env.get("nope"), None);
    assert_eq!(
        env.assign("nope", Value::Int(1)),
        Err(RuntimeError::UndefinedVariable("nope".to_string()))
    );
}

#[test]
fn value_truthiness() {
    assert!(Value::Int(0).is_truthy());
    assert!(Value::String(String::new()).is_truthy());
    assert!(Value::Bool(true).is_truthy());
    assert!(!Value::Bool(false).is_truthy());
    assert!(!Value::Null.is_truthy());
}

#[test]
fn pipeline_is_deterministic() {
    let src = "let x : int64 = 1; { let x : int64 = 2; print x; } print x;";
    let toks1 = lex(src);
    let toks2 = lex(src);
    assert_eq!(toks1, toks2);
    let mut p1 = Parser::new(toks1);
    let mut p2 = Parser::new(toks2);
    let ast1 = p1.parse().unwrap();
    let ast2 = p2.parse().unwrap();
    assert_eq!(ast1, ast2);
    let t1 = mt::typecheck(&ast1, p1.get_type_map()).unwrap();
    let t2 = mt::typecheck(&ast2, p2.get_type_map()).unwrap();
    assert_eq!(t1, t2);
}
