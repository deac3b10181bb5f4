use mt::EvalStop;
use mt::Evaluator;
use mt::Lexer;
use mt::Parser;
use mt::RuntimeError;
use mt::Value;

const FUEL: u64 = 1_000_000;

/// Lex, parse, typecheck and evaluate; the statements' values, the printed
/// values, and the outcome.
fn run(src: &str) -> (Result<Vec<Value>, EvalStop>, Vec<Value>) {
    let mut l = Lexer::new(src.to_string());
    let mut p = Parser::new(l.lex(false));
    let ast = p.parse().unwrap();
    mt::typecheck(&ast, p.get_type_map()).unwrap();
    let mut e = Evaluator::new();
    let r = e.eval(&ast, FUEL);
    (r, e.output().clone())
}

/// Evaluate without the type checker, to reach the evaluator's own errors.
fn run_unchecked(src: &str) -> (Result<Vec<Value>, EvalStop>, Vec<Value>) {
    let mut l = Lexer::new(src.to_string());
    let mut p = Parser::new(l.lex(false));
    let ast = p.parse().unwrap();
    let mut e = Evaluator::new();
    let r = e.eval(&ast, FUEL);
    (r, e.output().clone())
}

#[test]
fn shadowing_prints_two_then_one() {
    let (r, out) = run("let x : int64 = 1; { let x : int64 = 2; print x; } print x;");
    assert!(r.is_ok());
    assert_eq!(out, vec![Value::Int(2), Value::Int(1)]);
}

#[test]
fn assignment_mutates_outer_binding() {
    let (r, out) = run("let x : int64 = 1; { x = 2; } print x;");
    assert!(r.is_ok());
    assert_eq!(out, vec![Value::Int(2)]);
}

#[test]
fn while_prints_three_values_and_terminates() {
    let (r, out) = run("let i : int64 = 0; while (i < 3) { print i; i = i + 1; }");
    assert!(r.is_ok());
    assert_eq!(out, vec![Value::Int(0), Value::Int(1), Value::Int(2)]);
}

#[test]
fn division_truncates_toward_zero() {
    let (r, out) = run("print 7 / 2; print -7 / 2; print 7 / -2; print -7 / -2;");
    assert!(r.is_ok());
    assert_eq!(
        out,
        vec![Value::Int(3), Value::Int(-3), Value::Int(-3), Value::Int(3)]
    );
}

#[test]
fn division_matches_host_division() {
    for a in [-17i64, -5, -1, 0, 1, 5, 17] {
        for b in [-4i64, -3, -1, 1, 3, 4] {
            let src = format!("print {} / {};", a, b);
            let (r, out) = run(&src);
            assert!(r.is_ok());
            assert_eq!(out, vec![Value::Int(a / b)], "{} / {}", a, b);
        }
    }
}

#[test]
fn division_by_zero_is_reported() {
    let (r, out) = run("print 1 / 0;");
    assert_eq!(r, Err(EvalStop::Error(RuntimeError::DivisionByZero)));
    assert_eq!(out, Vec::new());
}

#[test]
fn overflow_is_reported() {
    let (r, _) = run("print 9223372036854775807 + 1;");
    assert_eq!(r, Err(EvalStop::Error(RuntimeError::Overflow)));
}

#[test]
fn undefined_variable_read_is_reported() {
    let (r, _) = run_unchecked("print y;");
    assert_eq!(
        r,
        Err(EvalStop::Error(RuntimeError::UndefinedVariable("y".to_string())))
    );
}

#[test]
fn undefined_variable_assignment_is_reported() {
    let (r, _) = run_unchecked("y = 1;");
    assert_eq!(
        r,
        Err(EvalStop::Error(RuntimeError::UndefinedVariable("y".to_string())))
    );
}

#[test]
fn printed_output_before_an_error_is_kept() {
    let (r, out) = run("print 1; print 2 / 0;");
    assert_eq!(r, Err(EvalStop::Error(RuntimeError::DivisionByZero)));
    assert_eq!(out, vec![Value::Int(1)]);
}

#[test]
fn endless_loop_runs_out_of_fuel() {
    let src = "while (true) { print 0; }";
    let mut l = Lexer::new(src.to_string());
    let mut p = Parser::new(l.lex(false));
    let ast = p.parse().unwrap();
    mt::typecheck(&ast, p.get_type_map()).unwrap();
    let mut e = Evaluator::new();
    assert_eq!(e.eval(&ast, 10), Err(EvalStop::OutOfFuel));
}

#[test]
fn string_concatenation_and_comparison() {
    let (r, out) = run("print \"ab\" + \"cd\"; print \"x\" == \"x\"; print \"x\" != \"y\";");
    assert!(r.is_ok());
    assert_eq!(
        out,
        vec![
            Value::String("abcd".to_string()),
            Value::Bool(true),
            Value::Bool(true),
        ]
    );
}

#[test]
fn boolean_logic_and_prefix_operators() {
    let (r, out) = run("print !true; print true && false; print true || false; print -5;");
    assert!(r.is_ok());
    assert_eq!(
        out,
        vec![
            Value::Bool(false),
            Value::Bool(false),
            Value::Bool(true),
            Value::Int(-5),
        ]
    );
}

#[test]
fn float_values_flow_but_are_not_computed_on() {
    let (r, out) = run("let f : float64 = 1.5; print f;");
    assert!(r.is_ok());
    assert_eq!(out, vec![Value::Float("1.5".to_string())]);
    let (r2, _) = run("print 1.5 + 2.5;");
    assert_eq!(r2, Err(EvalStop::Error(RuntimeError::FloatUnsupported)));
}

#[test]
fn statement_values_are_returned_in_order() {
    let (r, _) = run("let x : int64 = 4; x + 1; print x;");
    assert_eq!(
        r.unwrap(),
        vec![Value::Null, Value::Int(5), Value::Int(4)]
    );
}

#[test]
fn render_canonical_text() {
    assert_eq!(Value::Int(0).render(), "0");
    assert_eq!(Value::Int(-42).render(), "-42");
    assert_eq!(Value::Int(9007).render(), "9007");
    assert_eq!(Value::Bool(true).render(), "true");
    assert_eq!(Value::Bool(false).render(), "false");
    assert_eq!(Value::Null.render(), "null");
    assert_eq!(Value::String("hi".to_string()).render(), "hi");
    assert_eq!(Value::Float("2.50".to_string()).render(), "2.50");
}

#[test]
fn whole_pipeline_is_deterministic() {
    let src = "let i : int64 = 0; while (i < 3) { print i * i; i = i + 1; }";
    let (r1, out1) = run(src);
    let (r2, out2) = run(src);
    assert_eq!(r1, r2);
    assert_eq!(out1, out2);
}
