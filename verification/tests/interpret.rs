use rblox::expr::Expr;
use rblox::interpreter::{Interpreter, RuntimeError};
use rblox::parser::Parser;
use rblox::scanner::Scanner;
use rblox::token::Token;
use rblox::token_type::TokenType;
use rblox::value::Value;

const FUEL: u64 = 1_000_000;

fn run_in(it: &mut Interpreter, source: &str) -> Result<bool, RuntimeError> {
    let mut s = Scanner::new(source);
    let toks = s.scan_tokens().expect("scan should succeed");
    let mut p = Parser::new(toks);
    let stmts = p.parse().expect("parse should succeed");
    it.interpret(&stmts, FUEL)
}

fn run(source: &str) -> Interpreter {
    let mut it = Interpreter::new();
    let r = run_in(&mut it, source);
    assert_eq!(r, Ok(true));
    it
}

fn ident(name: &str) -> Token {
    Token::new(TokenType::Identifier, name.to_string(), None, 1)
}

fn get(it: &mut Interpreter, name: &str) -> Value {
    it.evaluate(&Expr::Variable { name: ident(name) })
        .expect("variable should exist")
}

fn num(v: f64) -> Value {
    Value::Number(v.to_bits())
}

#[test]
fn interprets_statements_fixture() {
    let source = "\
        var a = 1 + 2;\n\
        var s = \"hi\" + \"!\";\n\
        var gt = 2 > 1;\n\
        var lt = 2 < 1;\n\
        var eq = 1 == 1;\n\
        var neq = 1 != 1;\n\
        var n;\n\
        var bang = !false;\n\
        var scoped = \"outer\";\n\
        { var scoped = \"inner\"; }\n\
        var or_value = false or true;\n\
        var and_value = true and false;\n\
        var side = 0;\n\
        var or_short = true or (side = 1) == 1;\n\
        var and_short = false and (side = 1) == 1;\n\
        var sum = 0;\n\
        for (var i = 0; i < 3; i = i + 1) sum = sum + i;\n\
        var t0 = clock();\n";
    let mut app = run(source);
    let interpreter = &mut app;

    let a = interpreter
        .evaluate(&Expr::Variable { name: ident("a") })
        .expect("a should exist");
    assert_eq!(a, num(3.0));

    let s = interpreter
        .evaluate(&Expr::Variable { name: ident("s") })
        .expect("s should exist");
    assert_eq!(s, Value::Str("hi!".to_string()));

    let gt = interpreter
        .evaluate(&Expr::Variable { name: ident("gt") })
        .expect("gt should exist");
    assert_eq!(gt, Value::Boolean(true));

    let lt = interpreter
        .evaluate(&Expr::Variable { name: ident("lt") })
        .expect("lt should exist");
    assert_eq!(lt, Value::Boolean(false));

    let eq = interpreter
        .evaluate(&Expr::Variable { name: ident("eq") })
        .expect("eq should exist");
    assert_eq!(eq, Value::Boolean(true));

    let neq = interpreter
        .evaluate(&Expr::Variable { name: ident("neq") })
        .expect("neq should exist");
    assert_eq!(neq, Value::Boolean(false));

    let n = interpreter
        .evaluate(&Expr::Variable { name: ident("n") })
        .expect("n should exist");
    assert_eq!(n, Value::Nil);

    let bang = interpreter
        .evaluate(&Expr::Variable { name: ident("bang") })
        .expect("bang should exist");
    assert_eq!(bang, Value::Boolean(true));

    let scoped = interpreter
        .evaluate(&Expr::Variable { name: ident("scoped") })
        .expect("scoped should exist");
    assert_eq!(scoped, Value::Str("outer".to_string()));

    let or_value = interpreter
        .evaluate(&Expr::Variable { name: ident("or_value") })
        .expect("or_value should exist");
    assert_eq!(or_value, Value::Boolean(true));

    let and_value = interpreter
        .evaluate(&Expr::Variable { name: ident("and_value") })
        .expect("and_value should exist");
    assert_eq!(and_value, Value::Boolean(false));

    let side = interpreter
        .evaluate(&Expr::Variable { name: ident("side") })
        .expect("side should exist");
    assert_eq!(side, num(0.0));

    let or_short = interpreter
        .evaluate(&Expr::Variable { name: ident("or_short") })
        .expect("or_short should exist");
    assert_eq!(or_short, Value::Boolean(true));

    let and_short = interpreter
        .evaluate(&Expr::Variable { name: ident("and_short") })
        .expect("and_short should exist");
    assert_eq!(and_short, Value::Boolean(false));

    let sum = interpreter
        .evaluate(&Expr::Variable { name: ident("sum") })
        .expect("sum should exist");
    assert_eq!(sum, num(3.0));

    let t0 = interpreter
        .evaluate(&Expr::Variable { name: ident("t0") })
        .expect("t0 should exist");
    match t0 {
        Value::Number(_) => {}
        other => panic!("expected number, got {:?}", other),
    }
}

#[test]
fn and_or_never_touch_right_when_short_circuited() {
    let mut it = run("var side = 0; var a = false and (side = 1) == 1; var o = true or (side = 2) == 2;");
    assert_eq!(get(&mut it, "side"), num(0.0));
    assert_eq!(get(&mut it, "a"), Value::Boolean(false));
    assert_eq!(get(&mut it, "o"), Value::Boolean(true));
}

#[test]
fn division_by_zero_and_exact_quotient() {
    let mut it = Interpreter::new();
    assert_eq!(run_in(&mut it, "1 / 0;"), Err(RuntimeError::ZeroDivision));
    let mut it2 = run("var x = 1.0 / 2.0;");
    assert_eq!(get(&mut it2, "x"), num(0.5));
}

#[test]
fn shadowing_restores_outer_binding() {
    let mut it = run("var a = 1; { var a = 2; }");
    assert_eq!(get(&mut it, "a"), num(1.0));
}

#[test]
fn assignment_reaches_outer_scope() {
    let mut it = run("var a = 1; { a = 2; }");
    assert_eq!(get(&mut it, "a"), num(2.0));
}

#[test]
fn for_loop_sums() {
    let mut it = run("var sum = 0; for (var i = 0; i < 3; i = i + 1) sum = sum + i;");
    assert_eq!(get(&mut it, "sum"), num(3.0));
}

#[test]
fn equality_is_type_tolerant() {
    let mut it = run("var e = 1 == \"1\"; var ne = 1 != \"1\";");
    assert_eq!(get(&mut it, "e"), Value::Boolean(false));
    assert_eq!(get(&mut it, "ne"), Value::Boolean(true));
}

#[test]
fn clock_arity() {
    let mut it = run("var t = clock();");
    match get(&mut it, "t") {
        Value::Number(_) => {}
        other => panic!("expected number, got {:?}", other),
    }
    let mut it2 = Interpreter::new();
    assert_eq!(
        run_in(&mut it2, "clock(1);"),
        Err(RuntimeError::TypeMismatch(
            "Expected 0 arguments but got 1.".to_string()
        ))
    );
}

#[test]
fn undefined_variable_read_and_assignment() {
    let mut it = Interpreter::new();
    assert_eq!(
        run_in(&mut it, "x;"),
        Err(RuntimeError::UndefinedVariable("x".to_string()))
    );
    let mut it2 = Interpreter::new();
    assert_eq!(
        run_in(&mut it2, "x = 1;"),
        Err(RuntimeError::UndefinedVariable("x".to_string()))
    );
}

#[test]
fn type_mismatch_messages() {
    let mut it = Interpreter::new();
    assert_eq!(
        run_in(&mut it, "true + 1;"),
        Err(RuntimeError::TypeMismatch(
            "Operands must be two numbers or two strings.".to_string()
        ))
    );
    let mut it2 = Interpreter::new();
    assert_eq!(
        run_in(&mut it2, "\"a\" < 1;"),
        Err(RuntimeError::TypeMismatch(
            "Operands must be numbers.".to_string()
        ))
    );
    let mut it3 = Interpreter::new();
    assert_eq!(
        run_in(&mut it3, "-\"a\";"),
        Err(RuntimeError::TypeMismatch(
            "Operand must be a number.".to_string()
        ))
    );
    let mut it4 = Interpreter::new();
    assert_eq!(
        run_in(&mut it4, "1();"),
        Err(RuntimeError::TypeMismatch(
            "Can only call functions and classes.".to_string()
        ))
    );
    let mut it5 = Interpreter::new();
    assert_eq!(
        run_in(&mut it5, "1 >= 2;"),
        Err(RuntimeError::TypeMismatch(
            "Operands must be numbers.".to_string()
        ))
    );
}

#[test]
fn print_collects_output_in_order() {
    let mut it = run("print 1 + 1; print \"hi\"; print true; print nil;");
    let out = it.take_output();
    assert_eq!(
        out,
        vec![
            num(2.0),
            Value::Str("hi".to_string()),
            Value::Boolean(true),
            Value::Nil
        ]
    );
    assert_eq!(out[0].display_text(), None);
    assert_eq!(out[1].display_text(), Some("hi".to_string()));
    assert_eq!(out[2].display_text(), Some("true".to_string()));
    assert_eq!(out[3].display_text(), Some("nil".to_string()));
    assert!(it.take_output().is_empty());
}

#[test]
fn while_reports_exhausted_fuel() {
    let mut it = Interpreter::new();
    let mut s = Scanner::new("while (true) 1;");
    let toks = s.scan_tokens().expect("scan should succeed");
    let mut p = Parser::new(toks);
    let stmts = p.parse().expect("parse should succeed");
    assert_eq!(it.interpret(&stmts, 10), Ok(false));
}

#[test]
fn truthiness_of_zero_and_empty_string() {
    let mut it = run("var z = !0; var e = !\"\"; var nl = !nil; var f = !false;");
    assert_eq!(get(&mut it, "z"), Value::Boolean(false));
    assert_eq!(get(&mut it, "e"), Value::Boolean(false));
    assert_eq!(get(&mut it, "nl"), Value::Boolean(true));
    assert_eq!(get(&mut it, "f"), Value::Boolean(true));
}

#[test]
fn block_error_still_restores_scope() {
    let mut it = Interpreter::new();
    let r = run_in(&mut it, "var a = 1; { var a = 2; missing; }");
    assert_eq!(r, Err(RuntimeError::UndefinedVariable("missing".to_string())));
    assert_eq!(get(&mut it, "a"), num(1.0));
}

#[test]
fn error_stops_remaining_statements() {
    let mut it = Interpreter::new();
    let r = run_in(&mut it, "var a = 1; 1 / 0; a = 2;");
    assert_eq!(r, Err(RuntimeError::ZeroDivision));
    assert_eq!(get(&mut it, "a"), num(1.0));
}

#[test]
fn negation_and_grouping() {
    let mut it = run("var x = -(1 + 2) * 2;");
    assert_eq!(get(&mut it, "x"), num(-6.0));
}
