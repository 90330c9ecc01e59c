use rlox::bytecode::chunk::{instruction_len, Chunk};
use rlox::bytecode::common::{AsOpCode, OpCode, OPCODE_COUNT};
use rlox::bytecode::compile::{Compiler, ParseFn, Precedence};
use rlox::bytecode::error::{Error, InterpretError, ParserError, RuntimeError, ScanError};
use rlox::bytecode::scanner::{identifier_type, is_alpha, is_digit_byte, Scanner};
use rlox::bytecode::table::{slice_eq, Table};
use rlox::bytecode::token::{Literal, Token, TokenType};
use rlox::bytecode::value::{Number, Obj, StringInterner, Value, ValueArray};
use rlox::bytecode::vm::{Step, VM};

fn numeral(s: &str) -> Value {
    Value::Number(Number::Numeral(s.as_bytes().to_vec()))
}

fn text(s: &str) -> Value {
    Value::Obj(Obj::String(s.as_bytes().to_vec()))
}

fn number_of(n: &Number) -> f64 {
    match n {
        Number::Numeral(s) => std::str::from_utf8(s).unwrap().parse().unwrap(),
        Number::Bits(b) => f64::from_bits(*b),
    }
}

fn show(v: &Value) -> String {
    match v {
        Value::Number(n) => format!("{}", number_of(n)),
        Value::Bool(b) => format!("{}", b),
        Value::Nil => "nil".to_string(),
        Value::Obj(Obj::String(s)) => String::from_utf8(s.clone()).unwrap(),
    }
}

/// Runs the machine to its end, doing the arithmetic it asks for, and
/// returns what it printed or the fault it raised.
fn run(vm: &mut VM) -> Result<Vec<String>, Error> {
    let mut printed = Vec::new();
    while vm.can_step() {
        match vm.step()? {
            Step::Continue => {}
            Step::Print(v) => printed.push(show(&v)),
            Step::Arithmetic(op, a, b) => {
                let (x, y) = (number_of(&a), number_of(&b));
                let r = match op {
                    OpCode::Add => Value::Number(Number::Bits((x + y).to_bits())),
                    OpCode::Subtract => Value::Number(Number::Bits((x - y).to_bits())),
                    OpCode::Multiply => Value::Number(Number::Bits((x * y).to_bits())),
                    OpCode::Divide => Value::Number(Number::Bits((x / y).to_bits())),
                    OpCode::Greater => Value::Bool(x > y),
                    OpCode::Less => Value::Bool(x < y),
                    OpCode::Equal => Value::Bool(x == y),
                    _ => panic!("not an arithmetic operator"),
                };
                vm.push(r);
            }
            Step::Negate(n) => vm.push(Value::Number(Number::Bits((-number_of(&n)).to_bits()))),
            Step::Return => break,
        }
    }
    Ok(printed)
}

fn compile(source: &str) -> Result<Vec<u8>, Error> {
    let mut compiler = Compiler::new(source, StringInterner::new());
    compiler.compile()?;
    Ok(compiler.chunk.code)
}

#[test]
fn opcode_byte_roundtrip() {
    for b in 0..OPCODE_COUNT {
        let op = OpCode::from_byte(b);
        assert_eq!(op.as_byte(), b);
        assert_eq!(b.as_opcode(), op);
    }
    assert_eq!(OpCode::Constant.as_byte(), 0);
    assert_eq!(OpCode::Add.as_byte(), 5);
    assert_eq!(OpCode::Return.as_byte(), 24);
    assert_eq!(OpCode::from_byte(20), OpCode::Print);
}

#[test]
fn instruction_lengths() {
    assert_eq!(instruction_len(OpCode::ConstantLong.as_byte()), 4);
    assert_eq!(instruction_len(OpCode::Constant.as_byte()), 2);
    assert_eq!(instruction_len(OpCode::GetGlobal.as_byte()), 2);
    assert_eq!(instruction_len(OpCode::Jump.as_byte()), 3);
    assert_eq!(instruction_len(OpCode::Return.as_byte()), 1);
}

#[test]
fn chunk_lines_follow_writes() {
    let mut chunk = Chunk::new();
    chunk.write_chunk(OpCode::Nil.as_byte(), 1);
    chunk.write_chunk(OpCode::Pop.as_byte(), 1);
    chunk.write_chunk(OpCode::True.as_byte(), 3);
    chunk.write_chunk(OpCode::Return.as_byte(), 4);
    assert_eq!(chunk.lines, vec![2, 0, 1, 1]);
    assert_eq!(chunk.get_line(0), 1);
    assert_eq!(chunk.get_line(1), 1);
    assert_eq!(chunk.get_line(2), 3);
    assert_eq!(chunk.get_line(3), 4);
}

#[test]
fn short_constant_is_written_with_one_byte_index() {
    let mut chunk = Chunk::new();
    chunk.write_constant(numeral("1.5"), 2);
    assert_eq!(chunk.code, vec![OpCode::Constant.as_byte(), 0]);
    assert_eq!(chunk.lines, vec![0, 2]);
    assert_eq!(chunk.constants.values.len(), 1);
}

#[test]
fn long_constant_is_written_with_three_byte_index() {
    let mut chunk = Chunk::new();
    for _ in 0..300 {
        chunk.add_constant(Value::Nil);
    }
    chunk.write_constant(numeral("7"), 1);
    assert_eq!(chunk.code, vec![OpCode::ConstantLong.as_byte(), 0, 1, 44]);
    assert_eq!(chunk.constants.values.len(), 301);
    let d = chunk.disassemble_instruction(0);
    assert_eq!(d.op, OpCode::ConstantLong);
    assert_eq!(d.constant, Some(300));
    assert_eq!(d.next, 4);
}

#[test]
fn constant_written_is_the_constant_loaded() {
    let mut vm = VM::new();
    for i in 0..260 {
        vm.chunk.add_constant(numeral(&format!("{}", i)));
    }
    vm.chunk.write_constant(text("x"), 1);
    vm.chunk.write_constant(text("y"), 1);
    vm.chunk.write_chunk(OpCode::Return.as_byte(), 1);
    assert!(vm.can_step());
    assert!(matches!(vm.step(), Ok(Step::Continue)));
    assert_eq!(vm.ip, 4);
    assert!(matches!(vm.step(), Ok(Step::Continue)));
    assert_eq!(vm.ip, 8);
    assert_eq!(vm.stack.len(), 2);
    assert_eq!(show(&vm.stack[0]), "x");
    assert_eq!(show(&vm.stack[1]), "y");
}

#[test]
fn disassembly_of_a_chunk() {
    let mut chunk = Chunk::new();
    chunk.write_constant(numeral("1"), 1);
    chunk.write_chunk(OpCode::Negate.as_byte(), 1);
    chunk.write_chunk(OpCode::Return.as_byte(), 2);
    let ds = chunk.disassemble_chunk();
    assert_eq!(ds.len(), 3);
    assert_eq!((ds[0].offset, ds[0].line, ds[0].op, ds[0].constant, ds[0].next), (0, Some(1), OpCode::Constant, Some(0), 2));
    assert_eq!((ds[1].offset, ds[1].line, ds[1].op, ds[1].constant, ds[1].next), (2, None, OpCode::Negate, None, 3));
    assert_eq!((ds[2].offset, ds[2].line, ds[2].op, ds[2].next), (3, Some(2), OpCode::Return, 4));
    assert!(Chunk::new().disassemble_chunk().is_empty());
}

#[test]
fn falsey_values() {
    assert!(Value::Nil.is_falsey());
    assert!(Value::Bool(false).is_falsey());
    assert!(!Value::Bool(true).is_falsey());
    assert!(!numeral("0").is_falsey());
    assert!(!text("").is_falsey());
    assert!(matches!(Value::Nil.not(), Value::Bool(true)));
    assert!(matches!(numeral("3").not(), Value::Bool(false)));
}

#[test]
fn value_equality() {
    assert_eq!(Value::Nil.eq(&Value::Nil), Some(true));
    assert_eq!(Value::Bool(true).eq(&Value::Bool(false)), Some(false));
    assert_eq!(text("ab").eq(&text("ab")), Some(true));
    assert_eq!(text("ab").eq(&text("abc")), Some(false));
    assert_eq!(text("1").eq(&numeral("1")), Some(false));
    assert_eq!(numeral("1").eq(&text("1")), Some(false));
    assert_eq!(numeral("1").eq(&numeral("1")), None);
    assert_eq!(Value::Nil.eq(&Value::Bool(false)), Some(false));
}

#[test]
fn value_from_literal() {
    assert!(matches!(Value::from_literal(&Literal::Nil), Value::Nil));
    assert!(matches!(Value::from_literal(&Literal::Bool(true)), Value::Bool(true)));
    match Value::from_literal(&Literal::Number(b"12.5".to_vec())) {
        Value::Number(Number::Numeral(s)) => assert_eq!(s, b"12.5".to_vec()),
        _ => panic!("expected a number"),
    }
    match Value::from_literal(&Literal::String(b"hi".to_vec())) {
        Value::Obj(Obj::String(s)) => assert_eq!(s, b"hi".to_vec()),
        _ => panic!("expected a string"),
    }
    assert!(ValueArray::new().values.is_empty());
}

#[test]
fn interning_is_idempotent() {
    let mut strings: StringInterner<u32> = StringInterner::new();
    assert!(strings.get(b"ab").is_none());
    let first = strings.intern(b"ab", 1);
    assert_eq!(first, b"ab".to_vec());
    let second = strings.intern(b"ab", 2);
    assert_eq!(second, b"ab".to_vec());
    assert_eq!(strings.get(b"ab"), Some(&1));
    if let Some(v) = strings.get_mut(b"ab") {
        *v = 5;
    }
    assert_eq!(strings.get(b"ab"), Some(&5));
    assert!(strings.get_mut(b"zz").is_none());
}

#[test]
fn table_get_after_insert() {
    let mut t: Table<i32> = Table::new();
    t.insert(b"a", 1);
    t.insert(b"b", 2);
    t.insert(b"a", 3);
    assert_eq!(t.get(b"a"), Some(&3));
    assert_eq!(t.get(b"b"), Some(&2));
    assert_eq!(t.get(b"c"), None);
    *t.get_mut(b"b").unwrap() = 7;
    assert_eq!(t.get(b"b"), Some(&7));
    assert!(slice_eq(b"xy", b"xy"));
    assert!(!slice_eq(b"xy", b"x"));
}

#[test]
fn scanner_tokens() {
    let mut s = Scanner::new(b"var x = 12.5; // note\n\"hi\" >= !");
    let expected = [
        (TokenType::Var, "var", 1),
        (TokenType::Identifier, " x", 1),
        (TokenType::Equal, " =", 1),
        (TokenType::Number, " 12.5", 1),
        (TokenType::Semicolon, ";", 1),
        (TokenType::String, " // note\n\"hi\"", 2),
        (TokenType::GreaterEqual, " >=", 2),
        (TokenType::Bang, " !", 2),
        (TokenType::EOF, "", 2),
    ];
    for (kind, lex, line) in expected {
        let t = s.scan_token().unwrap();
        assert_eq!(t.token_type, kind);
        assert_eq!(t.lex, lex.as_bytes().to_vec());
        assert_eq!(t.line, line);
    }
}

#[test]
fn scanner_literals() {
    let mut s = Scanner::new(b"3 \"ab\"");
    match s.scan_token().unwrap().literal {
        Some(Literal::Number(n)) => assert_eq!(n, b"3".to_vec()),
        _ => panic!("expected a number literal"),
    }
    match s.scan_token().unwrap().literal {
        // The string's text starts at the blank before it; its literal is
        // that text without its first and last byte.
        Some(Literal::String(t)) => assert_eq!(t, b"\"ab".to_vec()),
        _ => panic!("expected a string literal"),
    }
}

#[test]
fn scanner_errors() {
    let mut s = Scanner::new(b"@");
    assert!(matches!(s.scan_token(), Err(Error::Scan(_))));
    let mut s = Scanner::new(b"\"open");
    assert!(matches!(s.scan_token(), Err(Error::Scan(_))));
}

#[test]
fn keywords_and_letters() {
    assert!(is_alpha(b'a'));
    assert!(is_alpha(b'Z'));
    assert!(is_alpha(b'_'));
    assert!(!is_alpha(b'1'));
    assert!(is_digit_byte(b'7'));
    assert!(!is_digit_byte(b'x'));
    assert_eq!(identifier_type(b"while"), TokenType::While);
    assert_eq!(identifier_type(b"fun"), TokenType::Fun);
    assert_eq!(identifier_type(b"false"), TokenType::False);
    assert_eq!(identifier_type(b"for"), TokenType::For);
    assert_eq!(identifier_type(b"this"), TokenType::This);
    assert_eq!(identifier_type(b"true"), TokenType::True);
    assert_eq!(identifier_type(b"whale"), TokenType::Identifier);
    assert_eq!(identifier_type(b"f"), TokenType::Identifier);
}

#[test]
fn precedence_table() {
    assert_eq!(TokenType::Plus.precedence(), Precedence::Term);
    assert_eq!(TokenType::Star.precedence(), Precedence::Factor);
    assert_eq!(TokenType::EqualEqual.precedence(), Precedence::Equality);
    assert_eq!(TokenType::Less.precedence(), Precedence::Comparison);
    assert_eq!(TokenType::Semicolon.precedence(), Precedence::Lowest);
    assert_eq!(TokenType::Minus.prefix_rule(), Some(ParseFn::Unary));
    assert_eq!(TokenType::Minus.infix_rule(), Some(ParseFn::Binary));
    assert_eq!(TokenType::Number.prefix_rule(), Some(ParseFn::Number));
    assert_eq!(TokenType::Identifier.prefix_rule(), None);
    let rule = TokenType::Slash.rule();
    assert_eq!(rule.prefix, None);
    assert_eq!(rule.infix, Some(ParseFn::Binary));
    assert_eq!(rule.precedence, Precedence::Factor);
    assert_eq!(Precedence::Term.next(), Precedence::Factor);
    assert_eq!(Precedence::Primary.next(), Precedence::Primary);
    assert_eq!(Precedence::Lowest.next(), Precedence::Assignment);
}

#[test]
fn compile_arithmetic() {
    let code = compile("print 1 + 2 * 3;").unwrap();
    assert_eq!(code, vec![0, 0, 0, 1, 0, 2, 16, 5, 20, 24]);
}

#[test]
fn compile_comparison_and_not() {
    let code = compile("!(1 >= 2);").unwrap();
    // `>=` is `<` then `!`.
    assert_eq!(code, vec![0, 0, 0, 1, 14, 18, 18, 7, 24]);
}

#[test]
fn compile_literals() {
    let code = compile("print(nil);print(true);print(false);").unwrap();
    assert_eq!(code, vec![2, 20, 3, 20, 4, 20, 24]);
}

#[test]
fn compile_global_declaration() {
    // A token's text includes the blank before it, so the global's name
    // does too.
    let mut compiler = Compiler::new("var a=1;", StringInterner::new());
    compiler.compile().unwrap();
    assert_eq!(compiler.chunk.code, vec![0, 1, 11, 0, 24]);
    assert_eq!(compiler.chunk.constants.values.len(), 2);
    assert_eq!(show(&compiler.chunk.constants.values[0]), " a");
}

#[test]
fn compile_skips_a_bad_declaration() {
    // The bad statement is dropped; compilation goes on after it.
    let code = compile("print ; print 1;").unwrap();
    assert_eq!(code.last(), Some(&24));
}

#[test]
fn compile_empty_source() {
    assert_eq!(compile("").unwrap(), vec![24]);
}

#[test]
fn compile_scan_error_first() {
    assert!(matches!(compile("@"), Err(Error::Scan(_))));
}

#[test]
fn vm_prints_arithmetic() {
    let mut vm = VM::new();
    vm.interpret("print(1+2*3);").unwrap();
    assert_eq!(run(&mut vm).unwrap(), vec!["7".to_string()]);
}

#[test]
fn vm_comparisons_and_equality() {
    let mut vm = VM::new();
    vm.interpret("print(2>1);print(1==1);print(nil==false);print(!nil);").unwrap();
    assert_eq!(run(&mut vm).unwrap(), vec!["true", "true", "false", "true"]);
}

#[test]
fn vm_negation_fault() {
    let mut vm = VM::new();
    vm.interpret("print -nil;").unwrap();
    match run(&mut vm) {
        Err(Error::Runtime(e)) => assert_eq!(e.message, b"Operand must be a number.".to_vec()),
        _ => panic!("expected a runtime error"),
    }
}

#[test]
fn vm_operand_fault() {
    let mut vm = VM::new();
    vm.interpret("print(1-true);").unwrap();
    match run(&mut vm) {
        Err(Error::Runtime(e)) => assert_eq!(e.message, b"Operands must be numbers.".to_vec()),
        _ => panic!("expected a runtime error"),
    }
}

#[test]
fn vm_add_fault() {
    let mut vm = VM::new();
    vm.interpret("print(1+nil);").unwrap();
    match run(&mut vm) {
        Err(Error::Runtime(e)) => assert_eq!(e.message, b"Operands must be two numbers or two strings.".to_vec()),
        _ => panic!("expected a runtime error"),
    }
}

#[test]
fn vm_global_define_then_get() {
    let mut vm = VM::new();
    vm.chunk.add_constant(text("a"));
    vm.chunk.add_constant(numeral("4"));
    for b in [0u8, 1, 11, 0, 10, 0, 20, 24] {
        vm.chunk.write_chunk(b, 1);
    }
    assert_eq!(run(&mut vm).unwrap(), vec!["4".to_string()]);
    assert!(vm.globals.get(b"a").is_some());
}

#[test]
fn vm_undefined_global() {
    let mut vm = VM::new();
    vm.chunk.add_constant(text("b"));
    for b in [10u8, 0, 24] {
        vm.chunk.write_chunk(b, 1);
    }
    match run(&mut vm) {
        Err(Error::Runtime(e)) => {
            assert_eq!(e.message, b"Undefined variable 'b'".to_vec());
            assert_eq!(e.ip, 2);
        }
        _ => panic!("expected a runtime error"),
    }
}

#[test]
fn vm_string_concatenation_is_interned() {
    let mut vm = VM::new();
    vm.chunk.add_constant(text("ab"));
    vm.chunk.add_constant(text("cd"));
    for b in [0u8, 0, 0, 1, 5, 20, 24] {
        vm.chunk.write_chunk(b, 1);
    }
    assert_eq!(run(&mut vm).unwrap(), vec!["abcd".to_string()]);
    assert!(vm.strings.get(b"abcd").is_some());
}

#[test]
fn vm_keeps_globals_between_programs() {
    let mut vm = VM::new();
    vm.chunk.add_constant(text("g"));
    vm.chunk.add_constant(Value::Bool(true));
    for b in [0u8, 1, 11, 0, 24] {
        vm.chunk.write_chunk(b, 1);
    }
    run(&mut vm).unwrap();
    vm.interpret("print 1;").unwrap();
    assert_eq!(vm.ip, 0);
    assert!(vm.stack.is_empty());
    assert!(vm.globals.get(b"g").is_some());
}

#[test]
fn stack_push_pop() {
    let mut vm = VM::new();
    vm.push(Value::Nil);
    vm.push(Value::Bool(true));
    assert!(matches!(vm.pop(), Value::Bool(true)));
    assert!(matches!(vm.pop(), Value::Nil));
}

#[test]
fn error_values() {
    let e = ScanError::new("bad".to_string(), 3);
    assert_eq!((e.message.as_str(), e.line), ("bad", 3));
    let t = Token::new(TokenType::Identifier, b"abc", 7, None);
    let p = ParserError::new(&t, "Expected expression.");
    assert_eq!(p.lexeme, b"abc".to_vec());
    assert_eq!(p.token_type, TokenType::Identifier);
    assert_eq!(p.line, 7);
    assert_eq!(p.message, "Expected expression.");
    let r = RuntimeError::new(4, b"oops");
    assert_eq!((r.ip, r.message.clone()), (4, b"oops".to_vec()));
    let i = InterpretError::Compile("c".to_string());
    assert!(matches!(Error::Interpret(i), Error::Interpret(InterpretError::Compile(_))));
}

#[test]
fn compile_keeps_code_before_an_error_and_resumes_after_it() {
    let mut compiler = Compiler::new("print(1+);print(2);", StringInterner::new());
    compiler.compile().unwrap();
    assert_eq!(compiler.chunk.code, vec![0, 0, 0, 1, 20, 24]);
    assert_eq!(compiler.chunk.constants.values.len(), 2);
    assert_eq!(show(&compiler.chunk.constants.values[1]), "2");
}

#[test]
fn compile_declaration_after_a_block_clashes() {
    let mut compiler = Compiler::new("{}var a=1;var b=2;", StringInterner::new());
    compiler.compile().unwrap();
    assert_eq!(compiler.chunk.code, vec![0, 1, 11, 0, 24]);
    assert_eq!(compiler.chunk.constants.values.len(), 2);
    assert_eq!(compiler.scope_depth, -1);
    assert_eq!(compiler.locals.len(), 1);
}

#[test]
fn compile_invalid_assignment_target() {
    let mut compiler = Compiler::new("1+2=3;print(4);", StringInterner::new());
    compiler.compile().unwrap();
    // The sum is compiled, the `=` stops the statement, and the statement
    // after it compiles.
    assert_eq!(compiler.chunk.code, vec![0, 0, 0, 1, 5, 0, 2, 20, 24]);
}

#[test]
fn compile_lines_of_the_code() {
    let mut compiler = Compiler::new("print 1\n+ 2;\n", StringInterner::new());
    compiler.compile().unwrap();
    assert_eq!(compiler.chunk.code, vec![0, 0, 0, 1, 5, 20, 24]);
    // The constant 1 is on line 1, the rest on line 2; `Return` is on the
    // line of the end of input.
    assert_eq!(compiler.chunk.lines, vec![2, 4, 1]);
}


fn ident(name: &str) -> rlox::bytecode::token::Token {
    rlox::bytecode::token::Token::new(TokenType::Identifier, name.as_bytes(), 1, None)
}

#[test]
fn compiler_variable_reads_a_global() {
    let mut compiler = Compiler::new("", StringInterner::new());
    compiler.parser.previous = ident("x");
    compiler.variable(true).unwrap();
    assert_eq!(compiler.chunk.code, vec![10, 0]);
    assert_eq!(show(&compiler.chunk.constants.values[0]), "x");
}

#[test]
fn compiler_variable_assigns_a_global() {
    let mut compiler = Compiler::new(" 2", StringInterner::new());
    compiler.parser.previous = ident("x");
    compiler.parser.current = rlox::bytecode::token::Token::new(TokenType::Equal, b"=", 1, None);
    compiler.variable(true).unwrap();
    assert_eq!(compiler.chunk.code, vec![0, 1, 12, 0]);
}

#[test]
fn compiler_variable_reads_a_local() {
    let mut compiler = Compiler::new("", StringInterner::new());
    compiler.locals.push(rlox::bytecode::local::Local::new(b"y".to_vec(), 0));
    compiler.locals.push(rlox::bytecode::local::Local::new(b"x".to_vec(), 1));
    compiler.parser.previous = ident("x");
    compiler.variable(false).unwrap();
    assert_eq!(compiler.chunk.code, vec![8, 1]);
}

#[test]
fn compiler_variable_in_its_own_initializer() {
    let mut compiler = Compiler::new("", StringInterner::new());
    compiler.locals.push(rlox::bytecode::local::Local::new(b"x".to_vec(), -1));
    compiler.parser.previous = ident("x");
    assert!(compiler.variable(true).is_err());
    assert!(compiler.chunk.code.is_empty());
}

#[test]
fn bytecode_error_reports() {
    assert_eq!(Error::Scan(ScanError::new("Unterminated string".to_string(), 7)).report(), "ScanError: Unterminated string at line 7");
    let t = Token::new(TokenType::Semicolon, b";", 2, None);
    assert_eq!(Error::Parser(ParserError::new(&t, "Expect expression.")).report(), "ParserError: Expect expression. at line 2");
}

#[test]
fn scanner_keyword_after_a_blank_is_an_identifier() {
    let mut s = Scanner::new(b"print print");
    assert_eq!(s.scan_token().unwrap().token_type, TokenType::Print);
    let t = s.scan_token().unwrap();
    assert_eq!(t.token_type, TokenType::Identifier);
    assert_eq!(t.lex, b" print".to_vec());
}

#[test]
fn interpret_keeps_the_interned_strings() {
    let mut vm = VM::new();
    vm.strings.intern(b"kept", ());
    vm.interpret("print(1);").unwrap();
    assert!(vm.strings.get(b"kept").is_some());
    let _ = vm.interpret("print(;");
    assert!(vm.strings.get(b"kept").is_some());
}
