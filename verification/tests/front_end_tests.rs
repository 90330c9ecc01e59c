use rlox::ast::error::{Error, ParserError, RuntimeError, ScanError};
use rlox::ast::stmt::{FunctionStmt, IfStmt, ReturnStmt, Stmt, WhileStmt};
use rlox::ast::token::{Literal, Token, TokenType};
use rlox::clock::Clock;
use rlox::environment::Environment;
use rlox::expr::{
    AssignExpr, BinaryExpr, CallExpr, Expr, GroupingExpr, LiteralExpr, LogicalExpr, UnaryExpr, Var,
};
use rlox::parser::Parser;
use rlox::scanner::{Scanner, ScannerState};

fn scan(source: &str) -> Result<Vec<Token>, Error> {
    let mut scanner = Scanner::new(source);
    scanner.scan_tokens()?;
    Ok(scanner.tokens)
}

fn kinds(tokens: &[Token]) -> Vec<TokenType> {
    tokens.iter().map(|t| t.token_type).collect()
}

fn parse(source: &str) -> Result<Vec<Stmt>, Error> {
    Parser::new(scan(source)?).parse()
}

fn name(text: &str) -> Token {
    Token::new(TokenType::Identifier, text.to_string(), 1, None)
}

#[test]
fn scanner_state_default() {
    let s = ScannerState::default();
    assert_eq!((s.start, s.current, s.line), (0, 0, 1));
}

#[test]
fn scans_a_declaration() {
    let tokens = scan("var a = 1;").unwrap();
    assert_eq!(
        kinds(&tokens),
        vec![TokenType::Var, TokenType::Identifier, TokenType::Equal, TokenType::Number, TokenType::Semicolon, TokenType::EOF]
    );
    assert_eq!(tokens[1].lexeme, "a");
    match &tokens[3].literal {
        Some(Literal::Number(n)) => assert_eq!(n, "1"),
        _ => panic!("expected a number literal"),
    }
    assert_eq!(tokens[5].lexeme, "");
}

#[test]
fn scans_operators_comments_and_lines() {
    let tokens = scan("a <= b // comment\n!= \"s\"\n").unwrap();
    assert_eq!(
        kinds(&tokens),
        vec![TokenType::Identifier, TokenType::LessEqual, TokenType::Identifier, TokenType::BangEqual, TokenType::String, TokenType::EOF]
    );
    assert_eq!(tokens[3].line, 2);
    match &tokens[4].literal {
        Some(Literal::String(s)) => assert_eq!(s, "s"),
        _ => panic!("expected a string literal"),
    }
    assert_eq!(tokens[5].line, 3);
}

#[test]
fn scans_numbers_and_keywords() {
    let tokens = scan("12.5 3. or orchid").unwrap();
    assert_eq!(
        kinds(&tokens),
        vec![TokenType::Number, TokenType::Number, TokenType::Dot, TokenType::Or, TokenType::Identifier, TokenType::EOF]
    );
    assert_eq!(tokens[0].lexeme, "12.5");
    assert_eq!(tokens[1].lexeme, "3");
}

#[test]
fn scan_errors() {
    match scan("\"open") {
        Err(Error::Scan(e)) => assert_eq!(e.message, "Unterminated string"),
        _ => panic!("expected a scan error"),
    }
    match scan("a\n@") {
        Err(Error::Scan(e)) => {
            assert_eq!(e.message, "Unexpected character: @");
            assert_eq!(e.line, 2);
        }
        _ => panic!("expected a scan error"),
    }
}

#[test]
fn parses_a_variable_declaration() {
    let stmts = parse("var a = 1;").unwrap();
    assert_eq!(stmts.len(), 1);
    match &stmts[0] {
        Stmt::Var(v) => {
            assert_eq!(v.name.lexeme, "a");
            assert!(matches!(&v.initializer, Some(Expr::Literal(l)) if matches!(&l.value, Literal::Number(n) if n == "1")));
        }
        _ => panic!("expected a declaration"),
    }
}

#[test]
fn parses_precedence_left_to_right() {
    let stmts = parse("print 1 - 2 - 3 * 4;").unwrap();
    match &stmts[0] {
        Stmt::Print(Expr::Binary(b)) => {
            assert_eq!(b.operator.token_type, TokenType::Minus);
            assert!(matches!(&*b.left, Expr::Binary(l) if l.operator.token_type == TokenType::Minus));
            assert!(matches!(&*b.right, Expr::Binary(r) if r.operator.token_type == TokenType::Star));
        }
        _ => panic!("expected a print of a binary expression"),
    }
}

#[test]
fn parses_logical_and_assignment() {
    let stmts = parse("a = b or c and !d;").unwrap();
    match &stmts[0] {
        Stmt::Expr(Expr::Assign(a)) => {
            assert_eq!(a.name.lexeme, "a");
            match &*a.value {
                Expr::Logical(l) => {
                    assert_eq!(l.operator.token_type, TokenType::Or);
                    assert!(matches!(&*l.right, Expr::Logical(r) if r.operator.token_type == TokenType::And));
                }
                _ => panic!("expected a logical expression"),
            }
        }
        _ => panic!("expected an assignment"),
    }
}

#[test]
fn assignment_to_a_non_variable_keeps_the_target() {
    let stmts = parse("1 = 2;").unwrap();
    assert!(matches!(&stmts[0], Stmt::Expr(Expr::Literal(_))));
}

#[test]
fn parses_calls_and_grouping() {
    let stmts = parse("f(1, (2))(3);").unwrap();
    match &stmts[0] {
        Stmt::Expr(Expr::Call(outer)) => {
            assert_eq!(outer.args.len(), 1);
            match &*outer.callee {
                Expr::Call(inner) => {
                    assert_eq!(inner.args.len(), 2);
                    assert!(matches!(&inner.args[1], Expr::Grouping(_)));
                    assert!(matches!(&*inner.callee, Expr::Variable(t) if t.lexeme == "f"));
                }
                _ => panic!("expected a call"),
            }
        }
        _ => panic!("expected a call statement"),
    }
}

#[test]
fn parses_a_function() {
    let stmts = parse("fun add(a, b) { return a + b; }").unwrap();
    match &stmts[0] {
        Stmt::Function(f) => {
            assert_eq!(f.name.lexeme, "add");
            assert_eq!(f.params.len(), 2);
            assert_eq!(f.params[1].lexeme, "b");
            assert_eq!(f.body.len(), 1);
            assert!(matches!(&f.body[0], Stmt::Return(r) if r.keyword.token_type == TokenType::Return));
        }
        _ => panic!("expected a function"),
    }
}

#[test]
fn bare_return_is_nil() {
    let stmts = parse("fun f() { return; }").unwrap();
    match &stmts[0] {
        Stmt::Function(f) => match &f.body[0] {
            Stmt::Return(r) => assert!(matches!(&r.value, Expr::Literal(l) if matches!(l.value, Literal::Nil))),
            _ => panic!("expected a return"),
        },
        _ => panic!("expected a function"),
    }
}

#[test]
fn parses_if_else_and_while() {
    let stmts = parse("if (a) print 1; else { print 2; } while (b) b = false;").unwrap();
    assert_eq!(stmts.len(), 2);
    match &stmts[0] {
        Stmt::If(i) => {
            assert!(matches!(&*i.then_branch, Stmt::Print(_)));
            assert!(matches!(&i.else_branch, Some(e) if matches!(&**e, Stmt::Block(b) if b.len() == 1)));
        }
        _ => panic!("expected an if"),
    }
    assert!(matches!(&stmts[1], Stmt::While(w) if matches!(&*w.body, Stmt::Expr(Expr::Assign(_)))));
}

#[test]
fn for_loop_stands_for_a_while_loop() {
    let stmts = parse("for (var i = 0; i < 3; i = i + 1) print i;").unwrap();
    assert_eq!(stmts.len(), 1);
    match &stmts[0] {
        Stmt::Block(outer) => {
            assert_eq!(outer.len(), 2);
            assert!(matches!(&outer[0], Stmt::Var(v) if v.name.lexeme == "i"));
            match &outer[1] {
                Stmt::While(w) => {
                    assert!(matches!(&w.condition, Expr::Binary(b) if b.operator.token_type == TokenType::Less));
                    match &*w.body {
                        Stmt::Block(body) => {
                            assert_eq!(body.len(), 2);
                            assert!(matches!(&body[0], Stmt::Print(_)));
                            assert!(matches!(&body[1], Stmt::Expr(Expr::Assign(_))));
                        }
                        _ => panic!("expected the body and the increment"),
                    }
                }
                _ => panic!("expected a while loop"),
            }
        }
        _ => panic!("expected a block"),
    }
}

#[test]
fn empty_for_loop_runs_while_true() {
    let stmts = parse("for (;;) print 1;").unwrap();
    match &stmts[0] {
        Stmt::While(w) => {
            assert!(matches!(&w.condition, Expr::Literal(l) if matches!(l.value, Literal::Bool(true))));
            assert!(matches!(&*w.body, Stmt::Print(_)));
        }
        _ => panic!("expected a bare while loop"),
    }
}

#[test]
fn parse_error_missing_semicolon() {
    match parse("print 1") {
        Err(Error::Parser(e)) => {
            assert_eq!(e.message, "Expect ';' after value.");
            assert_eq!(e.token.token_type, TokenType::EOF);
        }
        _ => panic!("expected a parse error"),
    }
}

#[test]
fn parse_error_expected_expression() {
    match parse("print ;") {
        Err(Error::Parser(e)) => {
            assert_eq!(e.message, "Expected expression.");
            assert_eq!(e.token.token_type, TokenType::Semicolon);
        }
        _ => panic!("expected a parse error"),
    }
}

#[test]
fn parse_error_messages_name_the_function_kind() {
    match parse("fun (") {
        Err(Error::Parser(e)) => assert_eq!(e.message, "Expect function name."),
        _ => panic!("expected a parse error"),
    }
    match parse("fun f {") {
        Err(Error::Parser(e)) => assert_eq!(e.message, "Expect '(' after function name."),
        _ => panic!("expected a parse error"),
    }
    match parse("fun f(1) {}") {
        Err(Error::Parser(e)) => assert_eq!(e.message, "Expect parameter name."),
        _ => panic!("expected a parse error"),
    }
}

#[test]
fn parse_error_unclosed_block() {
    match parse("{ print 1;") {
        Err(Error::Parser(e)) => {
            assert_eq!(e.message, "Expect '}' after block.");
            assert_eq!(e.token.token_type, TokenType::EOF);
        }
        _ => panic!("expected a parse error"),
    }
}

#[test]
fn parse_error_unclosed_call() {
    match parse("f(1;") {
        Err(Error::Parser(e)) => assert_eq!(e.message, "Expected ')' after arguments."),
        _ => panic!("expected a parse error"),
    }
}

#[test]
fn parse_of_nothing() {
    assert!(parse("").unwrap().is_empty());
}

#[test]
fn environment_get_after_define() {
    let mut env: Environment<i32> = Environment::new();
    env.define("a".to_string(), 1);
    assert_eq!(env.get(&name("a")).unwrap(), 1);
    env.define("a".to_string(), 2);
    assert_eq!(env.get(&name("a")).unwrap(), 2);
}

#[test]
fn environment_undefined_variable() {
    let env: Environment<i32> = Environment::default();
    match env.get(&name("zz")) {
        Err(Error::Runtime(e)) => {
            assert_eq!(e.message, "Undefined variable 'zz'");
            assert_eq!(e.token.lexeme, "zz");
        }
        _ => panic!("expected a runtime error"),
    }
}

#[test]
fn environment_assign_reaches_the_defining_scope() {
    let mut outer: Environment<i32> = Environment::new();
    outer.define("x".to_string(), 1);
    let mut inner = Environment::new_with_enclosing(outer);
    assert_eq!(inner.get(&name("x")).unwrap(), 1);
    inner.assign(&name("x"), 5).unwrap();
    assert_eq!(inner.get(&name("x")).unwrap(), 5);
    let outer = *inner.enclosing.take().unwrap();
    assert_eq!(outer.get(&name("x")).unwrap(), 5);
}

#[test]
fn environment_inner_definition_shadows() {
    let mut outer: Environment<i32> = Environment::new();
    outer.define("x".to_string(), 1);
    let mut inner = Environment::new_with_enclosing(outer);
    inner.define("x".to_string(), 2);
    assert_eq!(inner.get(&name("x")).unwrap(), 2);
    let outer = *inner.enclosing.take().unwrap();
    assert_eq!(outer.get(&name("x")).unwrap(), 1);
}

#[test]
fn environment_assign_undefined() {
    let mut env: Environment<i32> = Environment::new();
    match env.assign(&name("q"), 3) {
        Err(Error::Runtime(e)) => assert_eq!(e.message, "Undefined variable 'q'."),
        _ => panic!("expected a runtime error"),
    }
    assert!(env.get(&name("q")).is_err());
}

#[test]
fn clock_takes_no_arguments() {
    assert_eq!(Clock.arity(), 0);
}

#[test]
fn node_constructors() {
    let t = name("n");
    let one = || Expr::Literal(LiteralExpr::new(Literal::Nil));
    let b = BinaryExpr::new(one(), t.duplicate(), one());
    assert_eq!(b.operator.lexeme, "n");
    let g = GroupingExpr::new(one());
    assert!(matches!(*g.expression, Expr::Literal(_)));
    let u = UnaryExpr::new(t.duplicate(), one());
    assert!(matches!(*u.right, Expr::Literal(_)));
    let v = Var::new(t.duplicate(), None);
    assert!(v.initializer.is_none());
    let a = AssignExpr::new(t.duplicate(), one());
    assert_eq!(a.name.lexeme, "n");
    let l = LogicalExpr::new(one(), t.duplicate(), one());
    assert_eq!(l.operator.lexeme, "n");
    let c = CallExpr::new(one(), t.duplicate(), vec![one(), one()]);
    assert_eq!(c.args.len(), 2);
    let r = ReturnStmt::new(t.duplicate(), one());
    assert_eq!(r.keyword.lexeme, "n");
    let i = IfStmt::new(one(), Stmt::Expr(one()), Some(Stmt::Print(one())));
    assert!(i.else_branch.is_some());
    let w = WhileStmt::new(one(), Stmt::Block(vec![]));
    assert!(matches!(*w.body, Stmt::Block(_)));
    let f = FunctionStmt::new(t.duplicate(), vec![t.duplicate()], vec![]);
    assert_eq!(f.params.len(), 1);
}

#[test]
fn error_constructors() {
    let s = ScanError::new(4, "m".to_string());
    assert_eq!((s.line, s.message.as_str()), (4, "m"));
    let p = ParserError::new(name("x"), "p".to_string());
    assert_eq!((p.token.lexeme.as_str(), p.message.as_str()), ("x", "p"));
    let r = RuntimeError::new(name("y"), "r".to_string());
    assert_eq!((r.token.lexeme.as_str(), r.message.as_str()), ("y", "r"));
}

#[test]
fn error_reports() {
    assert_eq!(Error::Scan(ScanError::new(3, "Unexpected character: #".to_string())).report(), "[line 3] error: Unexpected character: #");
    let t = Token::new(TokenType::Identifier, "x".to_string(), 12, None);
    assert_eq!(Error::Parser(ParserError::new(t.clone(), "Expect ';'.".to_string())).report(), "12 at 'x': Expect ';'.");
    let end = Token::new(TokenType::EOF, String::new(), 4, None);
    assert_eq!(Error::Parser(ParserError::new(end, "Expected expression.".to_string())).report(), "4 at end: Expected expression.");
    assert_eq!(Error::Runtime(RuntimeError::new(t, "Undefined variable 'x'".to_string())).report(), "12 at 'x': Undefined variable 'x'");
}

#[test]
fn can_scan_sources() {
    assert!(Scanner::can_scan("a != b;"));
    assert!(Scanner::can_scan("a !="));
    assert!(Scanner::can_scan("// a <"));
    assert!(Scanner::can_scan("\"<\""));
    assert!(!Scanner::can_scan("a <"));
    assert!(!Scanner::can_scan("!"));
    assert!(Scanner::can_scan(""));
}

#[test]
fn parse_error_reports_the_token_and_message() {
    match parse("print (1;") {
        Err(Error::Parser(e)) => {
            assert_eq!(e.message, "Expected ')' after expression.");
            assert_eq!(e.token.token_type, TokenType::Semicolon);
        }
        _ => panic!("expected a parse error"),
    }
}
