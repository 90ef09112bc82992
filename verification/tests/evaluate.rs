use lox::ast::Operator::{
    OAdd, OAnd, ODiv, OEq, OGe, OGt, OLe, OLt, OMul, ONe, ONot, OOr, OSub,
};
use lox::ast::{Expr, Operator, Stmt, AST};
use lox::environ::Environment;
use lox::evaluate::LoxValue::{LBoolean, LNil, LNumber, LString};
use lox::evaluate::{
    binary_operation, evaluate, evaluate_expression, execute_statement, execute_statements,
    unary_operation, Error, Interpreter, LoxValue,
};
use lox::number::Numbers;
use lox::reader::Source;
use lox::tokenize::ScanError;
use lox::{run, run_interp};

fn doubles() -> Numbers<
    impl Fn(&str) -> u64,
    impl Fn(Operator, u64, u64) -> u64,
    impl Fn(u64) -> String,
> {
    Numbers {
        parse: |text: &str| text.parse::<f64>().unwrap().to_bits(),
        arith: |op: Operator, x: u64, y: u64| {
            let (x, y) = (f64::from_bits(x), f64::from_bits(y));
            let z = match op {
                OAdd => x + y,
                OSub => x - y,
                OMul => x * y,
                ODiv => x / y,
                _ => unreachable!(),
            };
            z.to_bits()
        },
        show: |x: u64| format!("{}", f64::from_bits(x)),
    }
}

fn n(x: f64) -> LoxValue {
    LNumber(x.to_bits())
}

fn s(text: &str) -> LoxValue {
    LString(text.to_string())
}

fn num(text: &str) -> Expr {
    Expr::number(text)
}

fn eval(expr: &Expr) -> Result<LoxValue, Error> {
    assert!(expr.is_well_formed());
    let mut environ = Environment::new(None);
    evaluate_expression(expr, &mut environ, &doubles())
}

fn session(source: &str) -> (Vec<String>, Result<(), lox::Error>) {
    let (interp, result) = run(Source::from(source), doubles());
    (interp.printed().clone(), result)
}

#[test]
fn evaluate_its_alive() {
    assert_eq!(true, true);
}

#[test]
fn declare_assign_print() {
    let mut interp = Interpreter::new(doubles());
    let result = run_interp(&mut interp, Source::from("var x = 1; x = x + 2; print x;"));
    assert!(result.is_ok());
    assert_eq!(interp.printed(), &vec!["3".to_string()]);
    assert_eq!(interp.lookup("x"), Some(&n(3.0)));
}

#[test]
fn division_by_zero() {
    let expr = Expr::binary(num("10"), ODiv, num("0"));
    assert_eq!(eval(&expr), Err(Error::ZeroDivision));
    let expr = Expr::binary(num("10"), ODiv, Expr::unary(OSub, num("0")));
    assert_eq!(eval(&expr), Err(Error::ZeroDivision));
    let expr = Expr::binary(num("0"), ODiv, num("0.0"));
    assert_eq!(eval(&expr), Err(Error::ZeroDivision));
    let expr = Expr::binary(num("10"), ODiv, num("4"));
    assert_eq!(eval(&expr), Ok(n(2.5)));
}

#[test]
fn equality_across_kinds_is_false() {
    let expr = Expr::binary(num("1"), OEq, Expr::string("1"));
    assert_eq!(eval(&expr), Ok(LBoolean(false)));
    let expr = Expr::binary(num("1"), ONe, Expr::string("1"));
    assert_eq!(eval(&expr), Ok(LBoolean(true)));
    let values = [LNil, LBoolean(false), LBoolean(true), n(0.0), n(1.0), s(""), s("nil")];
    for (i, a) in values.iter().enumerate() {
        for (j, b) in values.iter().enumerate() {
            assert_eq!(a.equals(b), i == j, "{:?} {:?}", a, b);
            assert_eq!(
                binary_operation(a.clone(), OEq, b.clone(), &doubles()),
                Ok(LBoolean(i == j))
            );
            assert_eq!(
                binary_operation(a.clone(), ONe, b.clone(), &doubles()),
                Ok(LBoolean(i != j))
            );
        }
    }
}

#[test]
fn strings_are_joined() {
    let expr = Expr::binary(Expr::string("a"), OAdd, Expr::string("b"));
    assert_eq!(eval(&expr), Ok(s("ab")));
    let expr = Expr::binary(Expr::string(""), OAdd, Expr::string(""));
    assert_eq!(eval(&expr), Ok(s("")));
}

#[test]
fn number_plus_string_is_unsupported() {
    let expr = Expr::binary(num("1"), OAdd, Expr::string("b"));
    assert_eq!(eval(&expr), Err(Error::UnsupportedBinOp(n(1.0), OAdd, s("b"))));
    let expr = Expr::binary(Expr::string("b"), OAdd, num("1"));
    assert_eq!(eval(&expr), Err(Error::UnsupportedBinOp(s("b"), OAdd, n(1.0))));
}

#[test]
fn undefined_variable() {
    let (printed, result) = session("print y;");
    assert!(printed.is_empty());
    match result {
        Err(lox::Error::Evaluate(e)) => assert_eq!(e, Error::UndefinedVariable("y".to_string())),
        other => panic!("{:?}", other),
    }
    assert_eq!(
        eval(&Expr::assign("y", num("1"))),
        Err(Error::UndefinedVariable("y".to_string()))
    );
}

#[test]
fn redeclaration_overwrites() {
    let (printed, result) = session("var x = 1; var x = 2; print x;");
    assert!(result.is_ok());
    assert_eq!(printed, vec!["2".to_string()]);
}

#[test]
fn arithmetic_on_numbers() {
    let cases = [
        (OAdd, 0.1 + 0.2),
        (OSub, 0.1 - 0.2),
        (OMul, 0.1 * 0.2),
        (ODiv, 0.1 / 0.2),
    ];
    for (op, expected) in cases {
        assert_eq!(eval(&Expr::binary(num("0.1"), op, num("0.2"))), Ok(n(expected)));
    }
    assert_eq!(eval(&Expr::binary(num("7"), OSub, num("10"))), Ok(n(-3.0)));
    assert_eq!(eval(&Expr::binary(num("1.5"), OMul, num("4"))), Ok(n(6.0)));
}

#[test]
fn orderings_on_numbers() {
    let cases = [
        (OLt, [true, false, false]),
        (OLe, [true, true, false]),
        (OGt, [false, false, true]),
        (OGe, [false, true, true]),
    ];
    for (op, expected) in cases {
        assert_eq!(eval(&Expr::binary(num("1"), op, num("2"))), Ok(LBoolean(expected[0])));
        assert_eq!(eval(&Expr::binary(num("2"), op, num("2"))), Ok(LBoolean(expected[1])));
        assert_eq!(eval(&Expr::binary(num("3"), op, num("2"))), Ok(LBoolean(expected[2])));
    }
}

#[test]
fn binary_operators_on_the_wrong_kinds() {
    for op in [OSub, OMul, ODiv, OLt, OLe, OGt, OGe] {
        assert_eq!(
            binary_operation(s("a"), op, s("b"), &doubles()),
            Err(Error::UnsupportedBinOp(s("a"), op, s("b")))
        );
        assert_eq!(
            binary_operation(n(1.0), op, LNil, &doubles()),
            Err(Error::UnsupportedBinOp(n(1.0), op, LNil))
        );
        assert_eq!(
            binary_operation(LBoolean(true), op, n(1.0), &doubles()),
            Err(Error::UnsupportedBinOp(LBoolean(true), op, n(1.0)))
        );
    }
    assert_eq!(
        binary_operation(LNil, OAdd, LNil, &doubles()),
        Err(Error::UnsupportedBinOp(LNil, OAdd, LNil))
    );
}

#[test]
fn logical_operators_are_not_defined() {
    for op in [OAnd, OOr, ONot] {
        assert_eq!(
            binary_operation(LBoolean(true), op, LBoolean(false), &doubles()),
            Err(Error::UnsupportedBinOp(LBoolean(true), op, LBoolean(false)))
        );
        assert_eq!(
            binary_operation(n(1.0), op, n(2.0), &doubles()),
            Err(Error::UnsupportedBinOp(n(1.0), op, n(2.0)))
        );
    }
}

#[test]
fn both_operands_are_evaluated_left_first() {
    // the left error wins, and the right side is not reached
    let expr = Expr::binary(Expr::variable("a"), OAdd, Expr::variable("b"));
    assert_eq!(eval(&expr), Err(Error::UndefinedVariable("a".to_string())));
    // the right side is evaluated even where the left decides nothing
    let expr = Expr::binary(Expr::bool(true), OEq, Expr::variable("b"));
    assert_eq!(eval(&expr), Err(Error::UndefinedVariable("b".to_string())));
    // an assignment on the left is seen on the right
    let mut environ = Environment::new(None);
    environ.declare("x", n(1.0));
    let expr = Expr::binary(Expr::assign("x", num("5")), OAdd, Expr::variable("x"));
    assert_eq!(evaluate_expression(&expr, &mut environ, &doubles()), Ok(n(10.0)));
}

#[test]
fn unary_operators() {
    assert_eq!(eval(&Expr::unary(OSub, num("2.5"))), Ok(n(-2.5)));
    assert_eq!(unary_operation(OSub, n(-2.5)), Ok(n(2.5)));
    assert_eq!(unary_operation(OSub, n(0.0)), Ok(n(-0.0)));
    assert_eq!(
        unary_operation(OSub, s("a")),
        Err(Error::UnsupportedUnaryOp(OSub, s("a")))
    );
    assert_eq!(unary_operation(OSub, LNil), Err(Error::UnsupportedUnaryOp(OSub, LNil)));
    assert_eq!(unary_operation(ONot, LNil), Ok(LBoolean(true)));
    assert_eq!(unary_operation(ONot, LBoolean(false)), Ok(LBoolean(true)));
    assert_eq!(unary_operation(ONot, LBoolean(true)), Ok(LBoolean(false)));
    assert_eq!(unary_operation(ONot, n(0.0)), Ok(LBoolean(false)));
    assert_eq!(unary_operation(ONot, s("")), Ok(LBoolean(false)));
    for op in [OAdd, OMul, ODiv, OLt, OLe, OGt, OGe, OEq, ONe, OAnd, OOr] {
        assert_eq!(unary_operation(op, n(1.0)), Err(Error::UnsupportedUnaryOp(op, n(1.0))));
    }
}

#[test]
fn truthiness() {
    assert!(!LNil.is_truthy());
    assert!(!LBoolean(false).is_truthy());
    assert!(LBoolean(true).is_truthy());
    assert!(n(0.0).is_truthy());
    assert!(n(f64::NAN).is_truthy());
    assert!(s("").is_truthy());
    assert!(s("false").is_truthy());
}

#[test]
fn equality_of_numbers_follows_the_doubles() {
    assert!(n(0.0).equals(&n(-0.0)));
    assert!(!n(f64::NAN).equals(&n(f64::NAN)));
    assert!(n(f64::INFINITY).equals(&n(f64::INFINITY)));
    assert!(!n(f64::INFINITY).equals(&n(f64::NEG_INFINITY)));
    assert!(n(1.5).equals(&n(1.5)));
    assert!(!n(1.5).equals(&n(1.25)));
}

#[test]
fn grouping_and_literals() {
    assert_eq!(eval(&Expr::grouping(num("2"))), Ok(n(2.0)));
    assert_eq!(eval(&Expr::nil()), Ok(LNil));
    assert_eq!(eval(&Expr::bool(true)), Ok(LBoolean(true)));
    assert_eq!(eval(&Expr::string("x")), Ok(s("x")));
    assert_eq!(eval(&num("12.5")), Ok(n(12.5)));
}

#[test]
fn assignment_yields_its_value_and_chains() {
    let mut environ = Environment::new(None);
    environ.declare("a", LNil);
    environ.declare("b", LNil);
    let expr = Expr::assign("a", Expr::assign("b", num("4")));
    assert_eq!(evaluate_expression(&expr, &mut environ, &doubles()), Ok(n(4.0)));
    assert_eq!(environ.lookup("a"), Some(&n(4.0)));
    assert_eq!(environ.lookup("b"), Some(&n(4.0)));
}

#[test]
fn assignment_changes_the_nearest_scope_that_declares_the_name() {
    let mut environ = Environment::new(None);
    environ.declare("x", n(1.0));
    environ.declare("y", n(2.0));
    let mut environ = Environment::new(Some(environ));
    environ.declare("x", n(10.0));
    let numbers = doubles();
    assert_eq!(
        evaluate_expression(&Expr::assign("x", num("11")), &mut environ, &numbers),
        Ok(n(11.0))
    );
    assert_eq!(
        evaluate_expression(&Expr::assign("y", num("3")), &mut environ, &numbers),
        Ok(n(3.0))
    );
    assert_eq!(environ.lookup("x"), Some(&n(11.0)));
    assert_eq!(environ.lookup("y"), Some(&n(3.0)));
}

#[test]
fn statements_one_by_one() {
    let numbers = doubles();
    let mut environ = Environment::new(None);
    let mut output = Vec::new();
    let stmt = Stmt::vardecl("a", None);
    assert_eq!(execute_statement(&stmt, &mut environ, &numbers, &mut output), Ok(()));
    assert_eq!(environ.lookup("a"), Some(&LNil));
    let stmt = Stmt::vardecl("b", Some(Expr::string("text")));
    assert_eq!(execute_statement(&stmt, &mut environ, &numbers, &mut output), Ok(()));
    assert_eq!(environ.lookup("b"), Some(&s("text")));
    let stmt = Stmt::expression(Expr::assign("a", Expr::bool(true)));
    assert_eq!(execute_statement(&stmt, &mut environ, &numbers, &mut output), Ok(()));
    assert_eq!(environ.lookup("a"), Some(&LBoolean(true)));
    assert!(output.is_empty());
    for name in ["a", "b", "a"] {
        let stmt = Stmt::print(Expr::variable(name));
        assert_eq!(execute_statement(&stmt, &mut environ, &numbers, &mut output), Ok(()));
    }
    assert_eq!(output, vec!["true".to_string(), "text".to_string(), "true".to_string()]);
    let stmt = Stmt::vardecl("c", Some(Expr::variable("nowhere")));
    assert_eq!(
        execute_statement(&stmt, &mut environ, &numbers, &mut output),
        Err(Error::UndefinedVariable("nowhere".to_string()))
    );
    assert_eq!(environ.lookup("c"), None);
}

#[test]
fn printed_text_of_each_kind() {
    let numbers = doubles();
    assert_eq!(LNil.to_text(&numbers), "nil");
    assert_eq!(LBoolean(true).to_text(&numbers), "true");
    assert_eq!(LBoolean(false).to_text(&numbers), "false");
    assert_eq!(n(3.0).to_text(&numbers), "3");
    assert_eq!(n(-0.5).to_text(&numbers), "-0.5");
    assert_eq!(s("a b").to_text(&numbers), "a b");
    assert_eq!(s("").to_text(&numbers), "");
}

#[test]
fn the_first_error_ends_the_run_and_earlier_effects_stand() {
    let statements = vec![
        Stmt::vardecl("a", Some(num("1"))),
        Stmt::print(Expr::variable("a")),
        Stmt::expression(Expr::binary(num("1"), ODiv, num("0"))),
        Stmt::print(Expr::string("never")),
        Stmt::vardecl("b", None),
    ];
    let numbers = doubles();
    let mut environ = Environment::new(None);
    let mut output = vec!["before".to_string()];
    let result = execute_statements(&statements, &mut environ, &numbers, &mut output);
    assert_eq!(result, Err(Error::ZeroDivision));
    assert_eq!(output, vec!["before".to_string(), "1".to_string()]);
    assert_eq!(environ.lookup("a"), Some(&n(1.0)));
    assert_eq!(environ.lookup("b"), None);
}

#[test]
fn an_empty_program_does_nothing() {
    let mut output = Vec::new();
    assert_eq!(evaluate(AST { top: vec![] }, &doubles(), &mut output), Ok(()));
    assert!(output.is_empty());
}

#[test]
fn evaluate_runs_in_a_fresh_environment() {
    let numbers = doubles();
    let mut output = Vec::new();
    let first = AST {
        top: vec![Stmt::vardecl("a", Some(num("1"))), Stmt::print(Expr::variable("a"))],
    };
    assert_eq!(evaluate(first, &numbers, &mut output), Ok(()));
    let second = AST { top: vec![Stmt::print(Expr::variable("a"))] };
    assert_eq!(
        evaluate(second, &numbers, &mut output),
        Err(Error::UndefinedVariable("a".to_string()))
    );
    assert_eq!(output, vec!["1".to_string()]);
}

#[test]
fn a_session_keeps_its_bindings_from_one_run_to_the_next() {
    let mut interp = Interpreter::new(doubles());
    assert!(run_interp(&mut interp, Source::from("var a = \"x\";")).is_ok());
    assert!(run_interp(&mut interp, Source::from("print a + a;")).is_ok());
    assert!(run_interp(&mut interp, Source::from("a = 1.5;")).is_ok());
    assert_eq!(
        interp.evaluate(AST { top: vec![Stmt::print(Expr::variable("a"))] }),
        Ok(())
    );
    assert_eq!(interp.printed(), &vec!["xx".to_string(), "1.5".to_string()]);
    assert_eq!(interp.lookup("a"), Some(&n(1.5)));
    assert_eq!(interp.lookup("b"), None);
}

#[test]
fn a_source_with_lexical_errors_is_not_run() {
    let mut interp = Interpreter::new(doubles());
    let result = run_interp(&mut interp, Source::from("var a = 1; print a; $ \"open"));
    match result {
        Err(lox::Error::Tokenize(e)) => assert_eq!(
            e.errors(),
            &vec![
                ScanError::UnexpectedCharacter { line: 1, ch: '$' },
                ScanError::UnterminatedString { line: 1 },
            ]
        ),
        other => panic!("{:?}", other),
    }
    assert!(interp.printed().is_empty());
    assert_eq!(interp.lookup("a"), None);
}

#[test]
fn a_source_with_a_syntax_error_is_not_run() {
    let mut interp = Interpreter::new(doubles());
    let result = run_interp(&mut interp, Source::from("var a = 1; print a; 1 = 2;"));
    match result {
        Err(lox::Error::Parse(lox::parser::Error::SyntaxError { line, msg })) => {
            assert_eq!(line, 1);
            assert_eq!(msg, "Invalid assignment target at \"=\"");
        },
        other => panic!("{:?}", other),
    }
    assert!(interp.printed().is_empty());
    assert_eq!(interp.lookup("a"), None);
}

#[test]
fn a_runtime_error_keeps_what_ran_before_it() {
    let (printed, result) = session("var a = 1; print a; print a + \"b\"; print 2;");
    assert_eq!(printed, vec!["1".to_string()]);
    match result {
        Err(lox::Error::Evaluate(e)) => {
            assert_eq!(e, Error::UnsupportedBinOp(n(1.0), OAdd, s("b")))
        },
        other => panic!("{:?}", other),
    }
}

#[test]
fn programs_end_to_end() {
    let (printed, result) = session(
        "var a = 2;\nvar b = a + 0.5;\nprint b;\nprint a < b;\nprint (a == b) != true;\n\
         print \"a\" + \"b\";\nprint nil;\nprint -a;\nprint !nil;\n\
         var c;\nprint c;\nprint c = b - a;",
    );
    assert!(result.is_ok(), "{:?}", result);
    assert_eq!(
        printed,
        vec!["2.5", "true", "true", "ab", "nil", "-2", "true", "nil", "0.5"]
    );
}

#[test]
fn values_and_errors_are_copied_whole() {
    for v in [LNil, LBoolean(true), n(1.5), s("text")] {
        assert_eq!(v.clone(), v);
    }
    for e in [
        Error::ZeroDivision,
        Error::UnsupportedBinOp(n(1.0), OAdd, s("b")),
        Error::UnsupportedUnaryOp(OSub, LNil),
        Error::UndefinedVariable("y".to_string()),
    ] {
        assert_eq!(e.clone(), e);
    }
}

#[test]
fn trees_with_ill_formed_numbers_are_told_apart() {
    for text in ["0", "12", "1.5", "007.250"] {
        assert!(num(text).is_well_formed(), "{:?}", text);
    }
    for text in ["", "1.", ".5", "1e3", "-1", "one", "1 2"] {
        let bad = num(text);
        assert!(!bad.is_well_formed(), "{:?}", text);
        assert!(!Expr::grouping(num(text)).is_well_formed());
        assert!(!Expr::unary(OSub, num(text)).is_well_formed());
        assert!(!Expr::binary(num("1"), OAdd, num(text)).is_well_formed());
        assert!(!Expr::binary(num(text), OAdd, num("1")).is_well_formed());
        assert!(!Expr::assign("x", num(text)).is_well_formed());
        assert!(!Stmt::print(num(text)).is_well_formed());
        assert!(!Stmt::expression(num(text)).is_well_formed());
        assert!(!Stmt::vardecl("x", Some(num(text))).is_well_formed());
        let ast = AST { top: vec![Stmt::vardecl("x", None), Stmt::print(num(text))] };
        assert!(!ast.is_well_formed());
    }
    assert!(Expr::string("1e3").is_well_formed());
    assert!(Expr::variable("").is_well_formed());
    assert!(Stmt::vardecl("x", None).is_well_formed());
    assert!(AST { top: vec![] }.is_well_formed());
    assert!(AST { top: vec![Stmt::print(num("1")), Stmt::vardecl("x", Some(num("2.5")))] }
        .is_well_formed());
}

#[test]
fn each_stage_error_becomes_the_error_of_the_run() {
    let read = lox::reader::Error { msg: "no such file".to_string() };
    match lox::Error::from(read) {
        lox::Error::Read(e) => assert_eq!(e.msg, "no such file"),
        other => panic!("{:?}", other),
    }
    let scanned = lox::tokenize::tokenize(Source::from("$")).unwrap_err();
    match lox::Error::from(scanned) {
        lox::Error::Tokenize(e) => {
            let found: Vec<ScanError> = e.iter().copied().collect();
            assert_eq!(found, vec![ScanError::UnexpectedCharacter { line: 1, ch: '$' }]);
        },
        other => panic!("{:?}", other),
    }
    let parsed = lox::parser::Error::SyntaxError { line: 3, msg: "m".to_string() };
    match lox::Error::from(parsed) {
        lox::Error::Parse(lox::parser::Error::SyntaxError { line, msg }) => {
            assert_eq!((line, msg.as_str()), (3, "m"))
        },
        other => panic!("{:?}", other),
    }
    match lox::Error::from(Error::ZeroDivision) {
        lox::Error::Evaluate(e) => assert_eq!(e, Error::ZeroDivision),
        other => panic!("{:?}", other),
    }
}
