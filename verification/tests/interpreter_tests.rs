use rlox::ast::error::Error;
use rlox::ast::stmt::Stmt;
use rlox::ast::token::{Literal, Token, TokenType};
use rlox::expr::{BinaryExpr, Expr, LiteralExpr};
use rlox::interpreter::Interpreter;
use rlox::parser::Parser;
use rlox::scanner::Scanner;
use rlox::walker::{LoxFunction, LoxValue, Num, WalkStep};

fn parse(source: &str) -> Vec<Stmt> {
    let mut scanner = Scanner::new(source);
    scanner.scan_tokens().unwrap();
    Parser::new(scanner.tokens).parse().unwrap()
}

fn number_of(n: &Num) -> f64 {
    match n {
        Num::Numeral(digits) => digits.parse().unwrap(),
        Num::Bits(bits) => f64::from_bits(*bits),
    }
}

fn number(x: f64) -> LoxValue {
    LoxValue::Number(Num::Bits(x.to_bits()))
}

fn show(interpreter: &Interpreter, v: &LoxValue) -> String {
    match v {
        LoxValue::Number(n) => format!("{}", number_of(n)),
        LoxValue::Str(s) => s.clone(),
        LoxValue::Bool(b) => b.to_string(),
        LoxValue::Nil => "nil".to_string(),
        LoxValue::Function(i) => format!("<function {}>", interpreter.function_declaration(*i).unwrap().name.lexeme),
        LoxValue::Clock => "<native function>".to_string(),
    }
}

/// Runs the scheduled work to its end, collecting what is printed.
fn drive(interpreter: &mut Interpreter<'_>, out: &mut Vec<String>) -> Result<(), Error> {
    while interpreter.can_step() {
        match interpreter.step()? {
            WalkStep::Continue => {}
            WalkStep::Print(v) => out.push(show(interpreter, &v)),
            WalkStep::Arithmetic(op, a, b) => {
                let (x, y) = (number_of(&a), number_of(&b));
                let result = match op {
                    TokenType::Plus => number(x + y),
                    TokenType::Minus => number(x - y),
                    TokenType::Star => number(x * y),
                    TokenType::Slash => number(x / y),
                    TokenType::Greater => LoxValue::Bool(x > y),
                    TokenType::GreaterEqual => LoxValue::Bool(x >= y),
                    TokenType::Less => LoxValue::Bool(x < y),
                    TokenType::LessEqual => LoxValue::Bool(x <= y),
                    TokenType::EqualEqual => LoxValue::Bool(x == y),
                    TokenType::BangEqual => LoxValue::Bool(x != y),
                    _ => panic!("not an arithmetic operator"),
                };
                interpreter.push_value(result);
            }
            WalkStep::Negate(n) => interpreter.push_value(number(-number_of(&n))),
            WalkStep::Clock => interpreter.push_value(number(1000.0)),
        }
    }
    Ok(())
}

fn run(source: &str) -> Result<Vec<String>, (Vec<String>, String, usize)> {
    let program = parse(source);
    let mut interpreter = Interpreter::new();
    interpreter.interpret(&program);
    let mut out = Vec::new();
    match drive(&mut interpreter, &mut out) {
        Ok(()) => Ok(out),
        Err(Error::Runtime(e)) => Err((out, e.message, e.token.line)),
        Err(_) => panic!("only runtime errors come from a step"),
    }
}

fn output(source: &str) -> Vec<String> {
    run(source).unwrap()
}

fn runtime_error(source: &str) -> String {
    run(source).unwrap_err().1
}

#[test]
fn prints_arithmetic() {
    assert_eq!(output("print 1 + 2 * 3; print (1 + 2) * 3; print 10 / 4; print 2 - 5; print -3;"), vec!["7", "9", "2.5", "-3", "-3"]);
}

#[test]
fn prints_comparisons_and_equality() {
    assert_eq!(
        output("print 1 < 2; print 2 <= 1; print 3 > 2; print 3 >= 4; print 1 == 1; print 1 != 1;"),
        vec!["true", "false", "true", "false", "true", "false"]
    );
    assert_eq!(
        output("print nil == nil; print \"a\" == \"a\"; print \"1\" == 1; print true != false; print clock == clock;"),
        vec!["true", "true", "false", "true", "true"]
    );
}

#[test]
fn concatenates_strings() {
    assert_eq!(output("print \"ab\" + \"cd\";"), vec!["abcd"]);
}

#[test]
fn negation_and_truthiness() {
    assert_eq!(output("print !nil; print !false; print !0; print !\"\";"), vec!["true", "true", "false", "false"]);
}

#[test]
fn logical_operators_return_an_operand() {
    assert_eq!(output("print nil or \"x\"; print false and 1; print 1 and 2; print 1 or 2;"), vec!["x", "false", "2", "1"]);
}

#[test]
fn logical_operators_short_circuit() {
    assert_eq!(output("var a = 1; true or (a = 2); false and (a = 3); print a;"), vec!["1"]);
}

#[test]
fn blocks_shadow_and_restore() {
    assert_eq!(output("var a = 1; { var a = 2; print a; } print a;"), vec!["2", "1"]);
    assert_eq!(output("var a = 1; { a = 2; } print a;"), vec!["2"]);
}

#[test]
fn uninitialised_variable_is_nil() {
    assert_eq!(output("var a; print a;"), vec!["nil"]);
}

#[test]
fn if_and_else() {
    assert_eq!(output("if (1 < 2) print \"yes\"; else print \"no\"; if (nil) print \"x\"; else print \"y\";"), vec!["yes", "y"]);
    assert_eq!(output("if (false) print 1; print 2;"), vec!["2"]);
}

#[test]
fn while_and_for_loops() {
    assert_eq!(output("var i = 0; while (i < 3) { print i; i = i + 1; }"), vec!["0", "1", "2"]);
    assert_eq!(output("for (var i = 0; i < 3; i = i + 1) print i;"), vec!["0", "1", "2"]);
}

#[test]
fn functions_return_values() {
    assert_eq!(output("fun add(a, b) { return a + b; } print add(1, 2);"), vec!["3"]);
    assert_eq!(output("fun f() {} print f();"), vec!["nil"]);
    assert_eq!(output("fun f() { print 1; return; print 2; } f();").len(), 1);
}

#[test]
fn recursion() {
    assert_eq!(
        output("fun fib(n) { if (n < 2) return n; return fib(n - 1) + fib(n - 2); } print fib(10);"),
        vec!["55"]
    );
}

#[test]
fn return_leaves_loops_and_blocks() {
    // A `return` leaves a loop whose body it is, and the function.
    assert_eq!(output("fun g() { while (true) return 7; } print g(); print \"after\";"), vec!["7", "after"]);
    // A `return` inside a block statement ends only that block.
    assert_eq!(output("fun h() { { return 1; } return 2; } print h();"), vec!["2"]);
    assert_eq!(
        output("fun f() { var i = 0; while (i < 5) { i = i + 1; if (i == 3) return i; print i; } return 10; } print f();"),
        vec!["1", "2", "4", "5", "10"]
    );
}

#[test]
fn values_duplicate_and_truthiness() {
    let v = LoxValue::Str("x".to_string());
    match v.duplicate() {
        LoxValue::Str(s) => assert_eq!(s, "x"),
        _ => panic!("expected a string"),
    }
    assert!(!LoxValue::Nil.is_truthy());
    assert!(!LoxValue::Bool(false).is_truthy());
    assert!(LoxValue::Bool(true).is_truthy());
    assert!(number(0.0).is_truthy());
    match LoxValue::from_literal(&Literal::Number("2.5".to_string())) {
        LoxValue::Number(n) => assert_eq!(number_of(&n), 2.5),
        _ => panic!("expected a number"),
    }
}

#[test]
fn execute_block_scopes_its_statements() {
    let outer = parse("var a = 1;");
    let block = parse("var a = 2; print a;");
    let after = parse("print a;");
    let mut interpreter = Interpreter::new();
    let mut out = Vec::new();
    interpreter.interpret(&outer);
    drive(&mut interpreter, &mut out).unwrap();
    interpreter.execute_block(&block);
    drive(&mut interpreter, &mut out).unwrap();
    interpreter.interpret(&after);
    drive(&mut interpreter, &mut out).unwrap();
    assert_eq!(out, vec!["2", "1"]);
}

#[test]
fn a_finished_program_leaves_no_values_behind() {
    let program = parse("fun f() { return 1; } f(); var x = f() + 2; print x; { return 5; }");
    let mut interpreter = Interpreter::new();
    interpreter.interpret(&program);
    let mut out = Vec::new();
    drive(&mut interpreter, &mut out).unwrap();
    assert_eq!(out, vec!["3"]);
    assert!(!interpreter.can_step());
    assert!(interpreter.take_value().is_none());
}

#[test]
fn parsed_programs_are_well_formed() {
    let program = parse("fun f(a, b) { if (a < b) return -a; while (!b) { print a + b * 2; } } var x = f(1, 2) or nil;");
    assert!(rlox::wellformed::program_is_ok(&program));
    for s in &program {
        assert!(rlox::wellformed::stmt_is_ok(s));
    }
}

#[test]
fn a_tree_with_an_unknown_operator_is_not_well_formed() {
    let bad = Expr::Binary(BinaryExpr::new(
        Expr::Literal(LiteralExpr::new(Literal::Nil)),
        Token::new(TokenType::And, "and".to_string(), 1, None),
        Expr::Literal(LiteralExpr::new(Literal::Nil)),
    ));
    assert!(!rlox::wellformed::expr_is_ok(&bad));
    let good = Expr::Binary(BinaryExpr::new(
        Expr::Literal(LiteralExpr::new(Literal::Nil)),
        Token::new(TokenType::EqualEqual, "==".to_string(), 1, None),
        Expr::Literal(LiteralExpr::new(Literal::Nil)),
    ));
    assert!(rlox::wellformed::expr_is_ok(&good));
    let program = vec![Stmt::Print(bad)];
    assert!(!rlox::wellformed::program_is_ok(&program));
}

#[test]
fn equality_and_inequality_are_opposite() {
    assert_eq!(
        output("print 1 == 2; print 1 != 2; print nil == false; print nil != false; print \"a\" == \"a\"; print \"a\" != \"a\";"),
        vec!["false", "true", "false", "true", "true", "false"]
    );
}
