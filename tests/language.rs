use tinyscript::add;
use tinyscript::ast::{Expr, Program, Stmt};
use tinyscript::environment::{Environment, Value};
use tinyscript::error::{ParseError, RuntimeError, ScanError};
use tinyscript::interpreter::Interpreter;
use tinyscript::operators::{add_values, compare_equal, divide_values, is_truthy, value_to_string};
use tinyscript::parser::Parser;
use tinyscript::scanner::Scanner;
use tinyscript::tokens::Token;

fn parse(src: &str) -> Program {
    let mut scanner = Scanner::new(src);
    let tokens = scanner.scan_tokens().expect("scan");
    let mut parser = Parser::new(tokens);
    parser.parse().expect("parse")
}

fn run_with(src: &str, fuel: u64) -> (Vec<String>, Result<(), RuntimeError>) {
    let program = parse(src);
    let mut interpreter = Interpreter::new();
    let r = interpreter.interpret(&program, fuel);
    (interpreter.output().clone(), r)
}

fn run(src: &str) -> (Vec<String>, Result<(), RuntimeError>) {
    run_with(src, 1_000_000)
}

fn lines(v: &[&str]) -> Vec<String> {
    v.iter().map(|s| s.to_string()).collect()
}

fn tokens_of(src: &str) -> Vec<Token> {
    let mut scanner = Scanner::new(src);
    scanner.scan_tokens().expect("scan").into_iter().map(|t| t.token).collect()
}

#[test]
fn it_works() {
    let result = add(2, 2);
    assert_eq!(result, 4);
}

#[test]
fn let_then_read_yields_value() {
    assert_eq!(run("let a = 2 + 3; print a;"), (lines(&["5"]), Ok(())));
}

#[test]
fn let_without_initializer_is_zero() {
    assert_eq!(run("let a; print a;"), (lines(&["0"]), Ok(())));
}

#[test]
fn inner_let_does_not_change_outer_binding() {
    assert_eq!(run("let x = 1; { let x = 2; } print x;"), (lines(&["1"]), Ok(())));
}

#[test]
fn inner_assignment_changes_outer_binding() {
    assert_eq!(run("let x = 1; { x = 2; } print x;"), (lines(&["2"]), Ok(())));
}

#[test]
fn closure_reads_variable_at_call_time() {
    let src = "let m = {\"a\": 1}; fn get() { return m[\"a\"]; } m[\"a\"] = 9; print get();";
    assert_eq!(run(src), (lines(&["9"]), Ok(())));
}

#[test]
fn assignment_copies_maps() {
    let src = "let m = {\"a\": 1}; let n = m; n[\"a\"] = 5; print m[\"a\"]; print n[\"a\"];";
    assert_eq!(run(src), (lines(&["1", "5"]), Ok(())));
}

#[test]
fn closure_counter_keeps_its_scope() {
    let src = "fn make() { let c = 0; fn inc() { c = c + 1; return c; } return inc; } \
               let f = make(); f(); print f();";
    assert_eq!(run(src), (lines(&["2"]), Ok(())));
}

#[test]
fn recursive_factorial() {
    let src = "fn f(n) { if (n <= 1) { return 1; } return n * f(n - 1); } print f(5);";
    assert_eq!(run(src), (lines(&["120"]), Ok(())));
}

#[test]
fn for_visits_array_elements_in_order() {
    assert_eq!(run("for (x in [3, 1, 2]) print x;"), (lines(&["3", "1", "2"]), Ok(())));
}

#[test]
fn for_over_empty_array_never_runs_body() {
    assert_eq!(run("let n = 0; for (x in []) { n = n + 1; } print n;"), (lines(&["0"]), Ok(())));
}

#[test]
fn for_over_string_visits_characters() {
    assert_eq!(run("for (c in \"ab\") print c;"), (lines(&["a", "b"]), Ok(())));
}

#[test]
fn for_over_number_is_an_error() {
    assert_eq!(run("for (c in 5) print c;"), (vec![], Err(RuntimeError::NotIterable)));
}

#[test]
fn missing_key_and_field_read_as_zero() {
    let src = "let m = {\"a\": 1}; print m[\"b\"]; print m.c; print m.a;";
    assert_eq!(run(src), (lines(&["0", "0", "1"]), Ok(())));
}

#[test]
fn division_by_zero_is_a_runtime_error() {
    assert_eq!(run("print 1; print 1 / 0; print 2;"), (lines(&["1"]), Err(RuntimeError::DivisionByZero)));
}

#[test]
fn index_out_of_bounds_is_a_runtime_error() {
    assert_eq!(run("let a = [1]; print a[5];"), (vec![], Err(RuntimeError::IndexOutOfBounds { index: 5 })));
    assert_eq!(run("let a = [1]; print a[-1];"), (vec![], Err(RuntimeError::IndexOutOfBounds { index: -1 })));
}

#[test]
fn calling_a_number_is_a_runtime_error() {
    assert_eq!(run("let x = 3; x();"), (vec![], Err(RuntimeError::NotCallable)));
}

#[test]
fn undefined_variable_is_a_runtime_error() {
    assert_eq!(run("print y;"), (vec![], Err(RuntimeError::UndefinedVariable)));
    assert_eq!(run("y = 1;"), (vec![], Err(RuntimeError::UndefinedVariable)));
}

#[test]
fn wrong_argument_count_is_a_runtime_error() {
    assert_eq!(
        run("fn f(a, b) { return a; } f(1);"),
        (vec![], Err(RuntimeError::ArityMismatch { expected: 2, found: 1 }))
    );
}

#[test]
fn arithmetic_and_precedence() {
    assert_eq!(run("print 1 + 2 * 3; print (1 + 2) * 3; print 7 / 2; print -7 / 2; print 10 - 4 - 3;"),
        (lines(&["7", "9", "3", "-3", "3"]), Ok(())));
}

#[test]
fn comparison_and_logic() {
    let src = "print 1 < 2; print 2 <= 1; print 3 > 2 and 2 > 3; print 0 or \"x\"; print !0; print 1 == 1; print 1 != 1;";
    assert_eq!(run(src), (lines(&["true", "false", "false", "x", "true", "true", "false"]), Ok(())));
}

#[test]
fn logical_operators_short_circuit() {
    assert_eq!(run("print false and y; print true or y;"), (lines(&["false", "true"]), Ok(())));
}

#[test]
fn addition_overflow_is_a_runtime_error() {
    assert_eq!(run("print 9223372036854775807 + 1;"), (vec![], Err(RuntimeError::Overflow)));
}

#[test]
fn string_concatenation_renders_other_side() {
    let src = "print \"n=\" + 4; print [1, 2] + \"!\"; print \"b\" + true;";
    assert_eq!(run(src), (lines(&["n=4", "[1, 2]!", "btrue"]), Ok(())));
}

#[test]
fn array_concatenation_and_rendering() {
    assert_eq!(run("print [1] + [2, \"x\"]; print [];"), (lines(&["[1, 2, x]", "[]"]), Ok(())));
}

#[test]
fn map_and_function_rendering() {
    let src = "let m = {a: 1, \"b\": [true]}; print m; fn f() {} print f; print {};";
    assert_eq!(run(src), (lines(&["{a: 1, b: [true]}", "<function f>", "{}"]), Ok(())));
}

#[test]
fn adding_number_and_boolean_is_a_type_error() {
    assert_eq!(run("print 1 + true;"), (vec![], Err(RuntimeError::TypeMismatch)));
}

#[test]
fn len_counts_characters_elements_and_entries() {
    let src = "print len(\"h\u{e9}llo\"); print len([1, 2, 3]); print len({a: 1}); print len([]);";
    assert_eq!(run(src), (lines(&["5", "3", "1", "0"]), Ok(())));
}

#[test]
fn len_of_number_is_a_type_error() {
    assert_eq!(run("print len(3);"), (vec![], Err(RuntimeError::TypeMismatch)));
}

#[test]
fn len_cannot_be_shadowed() {
    assert_eq!(run("fn len(x) { return 99; } print len([1]);"), (lines(&["1"]), Ok(())));
}

#[test]
fn structural_equality() {
    let src = "print [1, {a: 2}] == [1, {a: 2}]; print {a: 1, b: 2} == {b: 2, a: 1}; print [1] == [2]; \
               print 1 == \"1\"; fn f() {} print f == f; print f != f;";
    assert_eq!(run(src), (lines(&["true", "true", "false", "false", "false", "true"]), Ok(())));
}

#[test]
fn index_and_field_writes() {
    let src = "let a = [1, 2]; a[1] = 5; print a; let m = {}; m.x = 3; m[\"y\"] = 4; print m; print m.x;";
    assert_eq!(run(src), (lines(&["[1, 5]", "{x: 3, y: 4}", "3"]), Ok(())));
}

#[test]
fn nested_write_is_not_persisted() {
    let src = "let m = {inner: {a: 1}}; m.inner.a = 2; print m.inner.a;";
    assert_eq!(run(src), (lines(&["1"]), Ok(())));
}

#[test]
fn while_loop_sums() {
    let src = "let i = 0; let s = 0; while (i < 5) { s = s + i; i = i + 1; } print s;";
    assert_eq!(run(src), (lines(&["10"]), Ok(())));
}

#[test]
fn return_inside_loop_leaves_function() {
    let src = "fn first(a) { for (x in a) { if (x > 1) { return x; } } return -1; } print first([1, 5, 7]); print first([]);";
    assert_eq!(run(src), (lines(&["5", "-1"]), Ok(())));
}

#[test]
fn top_level_return_is_reported_and_run_goes_on() {
    assert_eq!(
        run("return 3; print 1;"),
        (lines(&["warning: top-level return value ignored: 3", "1"]), Ok(()))
    );
}

#[test]
fn infinite_loop_exhausts_budget() {
    assert_eq!(run_with("while (true) {}", 1000), (vec![], Err(RuntimeError::BudgetExhausted)));
}

#[test]
fn unbounded_recursion_is_reported() {
    assert_eq!(
        run("fn r(n) { return r(n + 1); } r(0);"),
        (vec![], Err(RuntimeError::CallDepthExceeded))
    );
}

#[test]
fn print_intrinsic_call_writes_one_line() {
    let call = Expr::Call {
        callee: Box::new(Expr::Variable("print".to_string())),
        arguments: vec![Expr::Number(1), Expr::String("a".to_string())],
    };
    let program = Program { statements: vec![Stmt::Expr(call)] };
    let mut interpreter = Interpreter::new();
    assert_eq!(interpreter.interpret(&program, 100), Ok(()));
    assert_eq!(interpreter.output().clone(), lines(&["1 a "]));
}

#[test]
fn scanner_prefers_two_character_operators() {
    assert_eq!(
        tokens_of("a>=b != c==d<e ! = ."),
        vec![
            Token::Identifier("a".to_string()),
            Token::GreaterEqual,
            Token::Identifier("b".to_string()),
            Token::BangEqual,
            Token::Identifier("c".to_string()),
            Token::EqualEqual,
            Token::Identifier("d".to_string()),
            Token::Less,
            Token::Identifier("e".to_string()),
            Token::Bang,
            Token::Equals,
            Token::Dot,
            Token::EOF,
        ]
    );
}

#[test]
fn scanner_keywords_literals_and_comments() {
    assert_eq!(
        tokens_of("let x = \"hi there\"; // note\nfor (i in [42]) fn return_ x1"),
        vec![
            Token::Let,
            Token::Identifier("x".to_string()),
            Token::Equals,
            Token::StringLiteral("hi there".to_string()),
            Token::Semicolon,
            Token::For,
            Token::LeftParen,
            Token::Identifier("i".to_string()),
            Token::In,
            Token::LeftBracket,
            Token::Number(42),
            Token::RightBracket,
            Token::RightParen,
            Token::Fn,
            Token::Identifier("return_".to_string()),
            Token::Identifier("x1".to_string()),
            Token::EOF,
        ]
    );
}

#[test]
fn scanner_spans_are_character_offsets() {
    let mut scanner = Scanner::new("ab  12");
    let toks = scanner.scan_tokens().unwrap();
    assert_eq!(toks.len(), 3);
    assert_eq!(toks[0].span, (0, 2));
    assert_eq!(toks[1].span, (4, 6));
    assert_eq!(toks[2].span, (6, 6));
}

#[test]
fn scanner_rejects_unterminated_string() {
    let mut scanner = Scanner::new("let s = \"abc\n");
    assert_eq!(scanner.scan_tokens().unwrap_err(), ScanError::UnterminatedString { line: 2 });
}

#[test]
fn scanner_rejects_unexpected_character() {
    let mut scanner = Scanner::new("let a = 1;\nlet b = @;");
    assert_eq!(
        scanner.scan_tokens().unwrap_err(),
        ScanError::UnexpectedCharacter { character: '@', line: 2 }
    );
}

#[test]
fn scanner_rejects_too_large_number() {
    let mut scanner = Scanner::new("9223372036854775808");
    assert_eq!(scanner.scan_tokens().unwrap_err(), ScanError::NumberTooLarge { line: 1 });
    assert_eq!(tokens_of("9223372036854775807"), vec![Token::Number(i64::MAX), Token::EOF]);
}

#[test]
fn scanning_and_parsing_are_repeatable() {
    let src = "fn f(a) { return a * 2; } let m = {k: [1, 2]}; m.k[0] = f(3); print m;";
    assert_eq!(tokens_of(src), tokens_of(src));
    assert_eq!(format!("{:?}", parse(src)), format!("{:?}", parse(src)));
}

#[test]
fn parser_rejects_invalid_assignment_target() {
    let mut scanner = Scanner::new("1 = 2;");
    let mut parser = Parser::new(scanner.scan_tokens().unwrap());
    assert_eq!(parser.parse().unwrap_err(), vec![ParseError::InvalidAssignmentTarget { position: 1 }]);
}

#[test]
fn parser_reports_every_error_after_recovery() {
    let mut scanner = Scanner::new("let = 1; print 2; let a = ; print 3;");
    let mut parser = Parser::new(scanner.scan_tokens().unwrap());
    assert_eq!(
        parser.parse().unwrap_err(),
        vec![ParseError::UnexpectedToken { position: 1 }, ParseError::ExpectedExpression { position: 10 }]
    );
}

#[test]
fn parser_requires_semicolon() {
    let mut scanner = Scanner::new("print 1");
    let mut parser = Parser::new(scanner.scan_tokens().unwrap());
    assert_eq!(parser.parse().unwrap_err(), vec![ParseError::UnexpectedToken { position: 2 }]);
}

#[test]
fn parser_builds_postfix_writes() {
    let program = parse("a.b = 1; c[0] = 2;");
    assert!(matches!(&program.statements[0], Stmt::Expr(Expr::DotAssign { .. })));
    assert!(matches!(&program.statements[1], Stmt::Expr(Expr::IndexAssign { .. })));
}

#[test]
fn environment_define_get_assign() {
    let mut env = Environment::new();
    env.define(0, "a".to_string(), Value::Number(1));
    let inner = env.new_enclosed(0);
    env.define(inner, "b".to_string(), Value::Array(vec![Value::Number(1), Value::Number(2)]));
    assert!(matches!(env.get(inner, &"a".to_string()), Some(Value::Number(1))));
    assert!(env.get(0, &"b".to_string()).is_none());
    assert!(env.assign(inner, &"a".to_string(), Value::Number(7)));
    assert!(matches!(env.get(0, &"a".to_string()), Some(Value::Number(7))));
    assert!(!env.assign(0, &"zz".to_string(), Value::Number(1)));
    assert_eq!(env.get_array_length(inner, &"b".to_string()), Some(2));
    assert_eq!(env.get_array_length(inner, &"a".to_string()), None);
}

#[test]
fn operators_on_values() {
    assert!(matches!(add_values(&Value::Number(2), &Value::Number(3)), Ok(Value::Number(5))));
    assert!(matches!(divide_values(&Value::Number(1), &Value::Number(0)), Err(RuntimeError::DivisionByZero)));
    assert!(matches!(divide_values(&Value::Number(i64::MIN), &Value::Number(-1)), Err(RuntimeError::Overflow)));
    assert!(matches!(compare_equal(&Value::String("a".to_string()), &Value::String("a".to_string())), Value::Boolean(true)));
    assert!(!is_truthy(&Value::String(String::new())));
    assert!(is_truthy(&Value::Array(vec![Value::Number(0)])));
    assert_eq!(value_to_string(&Value::Number(-120)), "-120");
    assert_eq!(value_to_string(&Value::Number(i64::MIN)), "-9223372036854775808");
    assert_eq!(value_to_string(&Value::String("x y".to_string())), "x y");
}
