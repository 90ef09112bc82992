use lox::ast::{Expr, Operator, AST};
use lox::parser::{parse, Parser};
use lox::reader::Source;
use lox::tokenize::tokenize;

fn parse_string(s: &str) -> AST {
    let source = Source::from(s);
    let tokens = tokenize(source).unwrap();
    parse(tokens).unwrap()
}

fn parse_expr_string(s: &str) -> Expr {
    let source = Source::from(s);
    let tokens = tokenize(source).unwrap();
    Parser::new(tokens).parse_expression().unwrap()
}

#[test]
fn reader_its_alive() {
    assert_eq!(true, true);
}

#[test]
fn test_primary() {
    assert_eq!(parse_expr_string("123"), Expr::number("123"));
    assert_eq!(parse_expr_string("\"hello\""), Expr::string("hello"));
    assert_eq!(parse_expr_string("(2)"), Expr::grouping(Expr::number("2")));
    assert_eq!(parse_expr_string("nil"), Expr::nil());
    assert_eq!(parse_expr_string("true"), Expr::bool(true));
    assert_eq!(parse_expr_string("false"), Expr::bool(false));
}

#[test]
fn test_binary() {
    assert_eq!(
        parse_expr_string("1 + 2"),
        Expr::binary(Expr::number("1"), Operator::OAdd, Expr::number("2"))
    );
}

#[test]
fn source_holds_its_text() {
    assert_eq!(Source::from("var a = 1;").contents, "var a = 1;");
    assert_eq!(Source::from("").contents, "");
}

#[test]
fn empty_source_is_an_empty_program() {
    assert_eq!(parse_string("").top, vec![]);
    assert_eq!(parse_string("  // nothing here\n").top, vec![]);
}
