use esperanto::ast::{BinOp, Expr, Stmt, Type};
use esperanto::error::Error;
use esperanto::interpreter::{run_program, CALL_DEPTH_LIMIT};
use esperanto::lexer::{lex, Tok, Token};
use esperanto::parser::parse;
use esperanto::text::{int_to_string, uint_to_string};
use esperanto::types::check;
use esperanto::value::{define, get, Scope, Store, Value};
use esperanto::{run, run_with_output, typecheck};

fn tok(tok: Tok, line: usize) -> Token {
    Token { tok, line }
}

fn kinds(src: &str) -> Vec<Tok> {
    lex(src).unwrap().into_iter().map(|t| t.tok).collect()
}

fn type_msg(src: &str) -> String {
    match typecheck(src) {
        Err(Error::Type(m)) => m,
        other => panic!("expected a type error for {src}, got {other:?}"),
    }
}

fn parse_err(src: &str) -> (String, usize) {
    match parse(lex(src).unwrap()) {
        Err(Error::Parse { msg, line }) => (msg, line),
        other => panic!("expected a parse error for {src}, got {other:?}"),
    }
}

fn int_of(r: Result<Value, Error>) -> i64 {
    match r {
        Ok(Value::Int(n)) => n,
        other => panic!("expected an Int, got {other:?}"),
    }
}

fn runtime_msg(r: Result<Value, Error>) -> String {
    match r {
        Err(Error::Runtime(m)) => m,
        other => panic!("expected a runtime error, got {other:?}"),
    }
}

fn run_unchecked(src: &str) -> Result<Value, Error> {
    let prog = parse(lex(src).unwrap()).unwrap();
    run_program(&prog)
}

// ---- lexer ----

#[test]
fn lex_tracks_lines_and_ends_with_eof() {
    let toks = lex("let x = 1;\nx;").unwrap();
    assert_eq!(
        toks,
        vec![
            tok(Tok::Let, 1),
            tok(Tok::Ident("x".to_string()), 1),
            tok(Tok::Eq, 1),
            tok(Tok::Int(1), 1),
            tok(Tok::Semi, 1),
            tok(Tok::Ident("x".to_string()), 2),
            tok(Tok::Semi, 2),
            tok(Tok::Eof, 2),
        ]
    );
}

#[test]
fn lex_empty_source_is_just_eof() {
    assert_eq!(lex("").unwrap(), vec![tok(Tok::Eof, 1)]);
    assert_eq!(lex("  \n\t# only a comment").unwrap(), vec![tok(Tok::Eof, 2)]);
}

#[test]
fn lex_string_escapes_and_newlines() {
    assert_eq!(kinds(r#""a\nb\t\\\"c\q""#), vec![Tok::Str("a\nb\t\\\"cq".to_string()), Tok::Eof]);
    // a newline inside a string moves the line; the token takes the line where it ends
    let toks = lex("\"a\nb\" x").unwrap();
    assert_eq!(toks[0], tok(Tok::Str("a\nb".to_string()), 2));
    assert_eq!(toks[1], tok(Tok::Ident("x".to_string()), 2));
}

#[test]
fn lex_escaped_newline_in_a_string_moves_the_line() {
    let toks = lex("\"a\\\nb\" x").unwrap();
    assert_eq!(toks[0], tok(Tok::Str("a\nb".to_string()), 2));
    assert_eq!(toks[1], tok(Tok::Ident("x".to_string()), 2));
    assert_eq!(toks[2], tok(Tok::Eof, 2));
    assert_eq!(lex(" ").unwrap(), vec![tok(Tok::Eof, 1)]);
}

#[test]
fn ast_and_values_clone() {
    let t = Type::Fn(vec![Type::Int, Type::Str], Box::new(Type::Bool));
    assert_eq!(t.clone(), t);
    let prog = parse(lex("let f = fn(x: Int) => x + 1; f(2);").unwrap()).unwrap();
    assert_eq!(prog.clone(), prog);
    let r: esperanto::Result<Value> = run("\"ab\";");
    match r.unwrap().clone() {
        Value::Str(s) => assert_eq!(s, "ab"),
        other => panic!("expected a string, got {other:?}"),
    }
}

#[test]
fn lex_comments_run_to_end_of_line() {
    assert_eq!(lex("# hi 1 2\n7").unwrap(), vec![tok(Tok::Int(7), 2), tok(Tok::Eof, 2)]);
}

#[test]
fn lex_operators_two_chars_first() {
    assert_eq!(
        kinds("++ == != <= >= && || -> => + - * / % < > ! = : ; , ( )"),
        vec![
            Tok::PlusPlus, Tok::EqEq, Tok::NotEq, Tok::Le, Tok::Ge, Tok::AmpAmp, Tok::PipePipe,
            Tok::Arrow, Tok::FatArrow, Tok::Plus, Tok::Minus, Tok::Star, Tok::Slash, Tok::Percent,
            Tok::Lt, Tok::Gt, Tok::Bang, Tok::Eq, Tok::Colon, Tok::Semi, Tok::Comma, Tok::LParen,
            Tok::RParen, Tok::Eof,
        ]
    );
    assert_eq!(kinds("a--b"), vec![
        Tok::Ident("a".to_string()), Tok::Minus, Tok::Minus, Tok::Ident("b".to_string()), Tok::Eof,
    ]);
}

#[test]
fn lex_keywords_and_names() {
    assert_eq!(
        kinds("let rec fn if then else true false lets _x1"),
        vec![
            Tok::Let, Tok::Rec, Tok::Fn, Tok::If, Tok::Then, Tok::Else, Tok::True, Tok::False,
            Tok::Ident("lets".to_string()), Tok::Ident("_x1".to_string()), Tok::Eof,
        ]
    );
}

#[test]
fn lex_unicode_names_and_whitespace() {
    // é is alphabetic, U+00A0 is whitespace, the digit continues the name
    assert_eq!(
        kinds("é_1 x\u{00A0}y"),
        vec![Tok::Ident("é_1".to_string()), Tok::Ident("x".to_string()), Tok::Ident("y".to_string()), Tok::Eof]
    );
}

#[test]
fn lex_integers_up_to_i64_max() {
    assert_eq!(kinds("9223372036854775807 007"), vec![Tok::Int(i64::MAX), Tok::Int(7), Tok::Eof]);
    assert_eq!(
        lex("\n9223372036854775808"),
        Err(Error::Lex { msg: "bad integer '9223372036854775808'".to_string(), line: 2 })
    );
}

#[test]
fn lex_errors() {
    assert_eq!(lex("\"abc"), Err(Error::Lex { msg: "unterminated string".to_string(), line: 1 }));
    assert_eq!(lex("\"a\nbc"), Err(Error::Lex { msg: "unterminated string".to_string(), line: 2 }));
    assert_eq!(lex("1 @ 2"), Err(Error::Lex { msg: "unexpected character '@'".to_string(), line: 1 }));
}

// ---- parser ----

#[test]
fn parse_left_associative_and_precedence() {
    let prog = parse(lex("1 - 2 - 3;").unwrap()).unwrap();
    let expected = Expr::Binary(
        BinOp::Sub,
        Box::new(Expr::Binary(BinOp::Sub, Box::new(Expr::Int(1)), Box::new(Expr::Int(2)))),
        Box::new(Expr::Int(3)),
    );
    assert_eq!(prog, vec![Stmt::Expr(expected)]);
    let prog = parse(lex("1 + 2 * 3 == 7 && true;").unwrap()).unwrap();
    let sum = Expr::Binary(
        BinOp::Add,
        Box::new(Expr::Int(1)),
        Box::new(Expr::Binary(BinOp::Mul, Box::new(Expr::Int(2)), Box::new(Expr::Int(3)))),
    );
    let eq = Expr::Binary(BinOp::Eq, Box::new(sum), Box::new(Expr::Int(7)));
    let and = Expr::Binary(BinOp::And, Box::new(eq), Box::new(Expr::Bool(true)));
    assert_eq!(prog, vec![Stmt::Expr(and)]);
}

#[test]
fn parse_let_with_function_type() {
    let prog = parse(lex("let rec f: (Int, Bool) -> Str = g;").unwrap()).unwrap();
    assert_eq!(
        prog,
        vec![Stmt::Let {
            name: "f".to_string(),
            rec: true,
            ty: Some(Type::Fn(vec![Type::Int, Type::Bool], Box::new(Type::Str))),
            value: Expr::Var("g".to_string()),
        }]
    );
}

#[test]
fn parse_errors_name_the_token_and_line() {
    assert_eq!(parse_err("let = 5;"), ("expected binding name, found Eq".to_string(), 1));
    assert_eq!(parse_err("1 +;"), ("unexpected Semi".to_string(), 1));
    assert_eq!(parse_err("(1;"), ("expected ')', found Semi".to_string(), 1));
    assert_eq!(parse_err("1\n+\n;"), ("unexpected Semi".to_string(), 3));
    assert_eq!(parse_err("let x: Foo = 1;"), ("unknown type 'Foo'".to_string(), 1));
    assert_eq!(parse_err("let \"a\\\"b\" = 1;"), ("expected binding name, found Str(\"a\\\"b\")".to_string(), 1));
    assert_eq!(parse_err("let x: (Int) Int = 1;"), ("expected '->' in function type, found Ident(\"Int\")".to_string(), 1));
    assert_eq!(parse_err("fn(x) => x;"), ("expected ':' and a type for the parameter, found RParen".to_string(), 1));
    assert_eq!(parse_err("f(1 2);"), ("expected ')' after arguments, found Int(2)".to_string(), 1));
    assert_eq!(parse_err("1"), ("expected ';', found Eof".to_string(), 1));
}

#[test]
fn parse_stops_at_eof() {
    assert_eq!(parse(vec![tok(Tok::Eof, 1)]).unwrap(), vec![]);
}

// ---- type checker ----

#[test]
fn type_error_messages() {
    assert_eq!(type_msg("x + 1;"), "undefined variable 'x'");
    assert_eq!(type_msg("true + 1;"), "arithmetic operator: expected Int, found Bool");
    assert_eq!(type_msg("1 ++ 2;"), "operator '++': expected Str, found Int");
    assert_eq!(type_msg("1 < true;"), "comparison operator: expected Int, found Bool");
    assert_eq!(type_msg("true && 1;"), "boolean operator: expected Bool, found Int");
    assert_eq!(type_msg("1 == true;"), "operands of '==' / '!=': expected Int, found Bool");
    assert_eq!(type_msg("!1;"), "operator '!': expected Bool, found Int");
    assert_eq!(type_msg("-true;"), "unary '-': expected Int, found Bool");
    assert_eq!(type_msg("if 1 then 2 else 3;"), "if condition: expected Bool, found Int");
    assert_eq!(type_msg("if true then 1 else \"x\";"), "if branches disagree: then is Int, else is Str");
    assert_eq!(type_msg("let x = 5; x(3);"), "cannot call a value of type Int");
    assert_eq!(type_msg("let f = fn(a: Int, b: Bool) -> Int => a; f(1, 2);"), "argument 2: expected Bool, found Int");
    assert_eq!(type_msg("let f = fn(a: Int, b: Int) => a + b; f(1);"), "function expects 2 argument(s), got 1");
    assert_eq!(type_msg("let f = fn(n: Int) -> Bool => n + 1;"), "function body: expected Bool, found Int");
    assert_eq!(type_msg("let x: Int = true;"), "binding 'x': expected Int, found Bool");
    assert_eq!(
        type_msg("let rec f = fn(n: Int) => n; f(1);"),
        "recursive binding 'f' must be a function with a declared return type"
    );
    assert_eq!(
        type_msg("let rec f: Int = fn(n: Int) -> Int => n;"),
        "binding 'f': expected Int, found (Int) -> Int"
    );
    assert_eq!(type_msg("let f = fn(n: Int) => n; f == f;"), "cannot compare functions");
    assert_eq!(type_msg("str(fn(n: Int) => n);"), "str expects Int or Bool, found (Int) -> Int");
    assert_eq!(type_msg("print(fn(n: Int) => n);"), "cannot print a function");
    assert_eq!(type_msg("len(\"a\", \"b\");"), "len takes exactly one argument");
    assert_eq!(type_msg("len(1);"), "len: expected Str, found Int");
}

#[test]
fn lambda_scope_ends_with_the_lambda() {
    assert_eq!(type_msg("let f = fn(a: Int) => a; a;"), "undefined variable 'a'");
}

#[test]
fn shadowed_builtin_is_an_ordinary_function() {
    assert_eq!(typecheck("let len = fn(s: Int) => s + 1; len(4);"), Ok(()));
    assert_eq!(int_of(run("let len = fn(s: Int) => s + 1; len(4);")), 5);
}

#[test]
fn check_on_a_parsed_program() {
    let prog = parse(lex("let x = 1; x + 2;").unwrap()).unwrap();
    assert_eq!(check(&prog), Ok(()));
}

// ---- interpreter ----

#[test]
fn division_rounds_toward_zero() {
    assert_eq!(int_of(run("-7 / 2;")), -3);
    assert_eq!(int_of(run("7 / -2;")), -3);
    assert_eq!(int_of(run("-7 % 2;")), -1);
    assert_eq!(int_of(run("7 % -2;")), 1);
}

#[test]
fn modulo_by_zero_is_a_runtime_error() {
    assert_eq!(runtime_msg(run("10 % 0;")), "modulo by zero");
}

#[test]
fn integer_arithmetic_wraps() {
    assert_eq!(int_of(run("9223372036854775807 + 1;")), i64::MIN);
    assert_eq!(int_of(run("(-9223372036854775807 - 1) / -1;")), i64::MIN);
    assert_eq!(int_of(run("(-9223372036854775807 - 1) % -1;")), 0);
    assert_eq!(int_of(run("-(-9223372036854775807 - 1);")), i64::MIN);
}

#[test]
fn print_output_is_collected_in_order() {
    let (r, out) = run_with_output("print(1); print(\"a\"); print(true); print(-42) + 1;");
    assert_eq!(int_of(r), -41);
    assert_eq!(out, vec!["1".to_string(), "a".to_string(), "true".to_string(), "-42".to_string()]);
}

#[test]
fn output_before_a_runtime_error_is_kept() {
    let (r, out) = run_with_output("print(1); 1 / 0; print(2);");
    assert_eq!(runtime_msg(r), "division by zero");
    assert_eq!(out, vec!["1".to_string()]);
}

#[test]
fn rejected_program_prints_nothing() {
    let (r, out) = run_with_output("print(1); true + 1;");
    assert_eq!(r.unwrap_err(), typecheck("print(1); true + 1;").unwrap_err());
    assert!(out.is_empty());
}

#[test]
fn last_statement_value() {
    assert_eq!(int_of(run("")), 0);
    assert_eq!(int_of(run("let x = 3;")), 3);
    match run("fn(x: Int) => x;") {
        Ok(v) => assert_eq!(v.display(), "<function>"),
        other => panic!("expected a function, got {other:?}"),
    }
    match run("str(-12) ++ str(false);") {
        Ok(Value::Str(s)) => assert_eq!(s, "-12false"),
        other => panic!("expected a string, got {other:?}"),
    }
}

#[test]
fn closures_see_later_definitions_at_the_same_type() {
    assert_eq!(int_of(run("let x = 1; let f = fn(n: Int) => x + n; let x = 10; f(1);")), 11);
    let rec_again = "let rec f = fn(n: Int) -> Int => n; let g = fn(n: Int) => f(n); \
                     let rec f = fn(n: Int) -> Int => n * 2; g(4);";
    assert_eq!(int_of(run(rec_again)), 8);
    let after_a_new_scope = "let y = 1; let f = fn(n: Int) => y; let x = 1; let x = \"s\"; let y = 5; f(0);";
    assert_eq!(int_of(run(after_a_new_scope)), 5);
}

#[test]
fn redefinition_with_another_type_keeps_the_checked_type() {
    let src = "let x = 1; let f = fn(n: Int) => x; let x = \"s\"; f(1) + 1;";
    assert_eq!(typecheck(src), Ok(()));
    assert_eq!(int_of(run(src)), 2);
    let src = "let f = fn(n: Int) => n; let g = fn(a: Int) => f(a); let f = fn(n: Int) => n > 0; g(1) + 1;";
    assert_eq!(typecheck(src), Ok(()));
    assert_eq!(int_of(run(src)), 2);
}

#[test]
fn redefining_a_builtin_after_a_closure_uses_it_keeps_the_builtin() {
    let src = "let g = fn(x: Int) => print(x); let print = fn(s: Int) => \"a\"; g(1) + 1;";
    assert_eq!(typecheck(src), Ok(()));
    let (r, out) = run_with_output(src);
    assert_eq!(int_of(r), 2);
    assert_eq!(out, vec!["1".to_string()]);
}

#[test]
fn higher_order_functions_run_to_their_checked_types() {
    let src = "let twice = fn(f: (Int) -> Int, x: Int) -> Int => f(f(x)); \
               let inc = fn(n: Int) => n + 1; \
               let adder = fn(k: Int) -> (Int) -> Int => fn(y: Int) => y + k; \
               twice(inc, 5) * 100 + twice(adder(10), 1);";
    assert_eq!(typecheck(src), Ok(()));
    assert_eq!(int_of(run(src)), 721);
    let same_type = "let k = 1; let f = fn(n: Int) => n * k; let k = 3; f(2);";
    assert_eq!(int_of(run(same_type)), 6);
}

#[test]
fn extra_arguments_are_not_evaluated_and_missing_ones_are_unbound() {
    let prog = "let f = fn(a: Int) => a; f(1, 1 / 0);";
    assert_eq!(int_of(run_unchecked(prog)), 1);
    assert_eq!(runtime_msg(run_unchecked("let f = fn(a: Int, b: Int) => b; f(1);")), "undefined variable 'b'");
}

#[test]
fn deep_recursion_runs() {
    let f = "let rec f = fn(n: Int) -> Int => if n <= 0 then 0 else 1 + f(n - 1);";
    assert_eq!(int_of(run(&format!("{f} f(1000);"))), 1000);
    assert_eq!(CALL_DEPTH_LIMIT, u64::MAX);
}

#[test]
fn runtime_guards_on_unchecked_programs() {
    assert_eq!(runtime_msg(run_unchecked("y;")), "undefined variable 'y'");
    assert_eq!(runtime_msg(run_unchecked("!1;")), "bad operand for unary operator");
    assert_eq!(runtime_msg(run_unchecked("if 1 then 2 else 3;")), "if condition is not a boolean");
    assert_eq!(runtime_msg(run_unchecked("1(2);")), "attempt to call a non-function");
    assert_eq!(runtime_msg(run_unchecked("1 + true;")), "bad operands for binary operator");
    assert_eq!(runtime_msg(run_unchecked("len(1);")), "len expects a string");
    assert_eq!(runtime_msg(run_unchecked("print();")), "print takes exactly one argument");
    match run_unchecked("1 == \"1\";") {
        Ok(Value::Bool(b)) => assert!(!b),
        other => panic!("expected a boolean, got {other:?}"),
    }
}

#[test]
fn len_counts_characters() {
    assert_eq!(int_of(run("len(\"héllo\");")), 5);
    assert_eq!(int_of(run("len(\"\");")), 0);
}

// ---- scopes ----

#[test]
fn scopes_define_get_and_parents() {
    let mut store = Store::new();
    let root = Scope::root(&mut store);
    assert_eq!(root, 0);
    assert!(get(&store, root, "x").is_none());
    define(&mut store, root, "x", Value::Int(1));
    assert!(matches!(get(&store, root, "x"), Some(Value::Int(1))));
    let child = Scope::child(&mut store, root);
    assert_eq!(child, 1);
    assert!(matches!(get(&store, child, "x"), Some(Value::Int(1))));
    define(&mut store, child, "x", Value::Bool(true));
    assert!(matches!(get(&store, child, "x"), Some(Value::Bool(true))));
    assert!(matches!(get(&store, root, "x"), Some(Value::Int(1))));
    define(&mut store, root, "x", Value::Int(2));
    assert!(matches!(get(&store, root, "x"), Some(Value::Int(2))));
    assert!(get(&store, child, "y").is_none());
    assert!(get(&store, 7, "x").is_none());
}

// ---- texts ----

#[test]
fn texts_of_types_errors_tokens_and_numbers() {
    assert_eq!(Type::Fn(vec![Type::Int, Type::Bool], Box::new(Type::Str)).display(), "(Int, Bool) -> Str");
    assert_eq!(Type::Fn(vec![], Box::new(Type::Fn(vec![Type::Str], Box::new(Type::Int)))).display(), "() -> (Str) -> Int");
    assert_eq!(Error::Lex { msg: "m".to_string(), line: 3 }.display(), "lex error (line 3): m");
    assert_eq!(Error::Parse { msg: "p".to_string(), line: 12 }.display(), "parse error (line 12): p");
    assert_eq!(Error::Type("t".to_string()).display(), "type error: t");
    assert_eq!(Error::Runtime("r".to_string()).display(), "runtime error: r");
    assert_eq!(Tok::Ident("x".to_string()).debug_text(), "Ident(\"x\")");
    assert_eq!(Tok::Str("a\"b\n".to_string()).debug_text(), "Str(\"a\\\"b\\n\")");
    assert_eq!(Tok::Int(-5).debug_text(), "Int(-5)");
    assert_eq!(Tok::FatArrow.debug_text(), "FatArrow");
    assert_eq!(int_to_string(i64::MIN), "-9223372036854775808");
    assert_eq!(int_to_string(0), "0");
    assert_eq!(uint_to_string(u64::MAX), "18446744073709551615");
    assert_eq!(Value::Bool(false).display(), "false");
}
