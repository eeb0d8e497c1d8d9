use tlox::parser::{ParseErrorKind, Parser};
use tlox::run;
use tlox::scanner::{ErrorHandler, Scanner};
use tlox::types::TokenType;

fn render(source: &str) -> String {
    let mut handler = ErrorHandler::new();
    match run(source, &mut handler) {
        Ok(text) => text,
        Err(e) => panic!("parse failed: {}", e.message()),
    }
}

#[test]
fn precedence() {
    assert_eq!(render("1 + 2 * 3"), "(+ 1 (* 2 3))");
}

#[test]
fn grouping() {
    assert_eq!(render("(1 + 2) * 3"), "(* (group (+ 1 2)) 3)");
}

#[test]
fn left_associativity() {
    assert_eq!(render("1 - 2 - 3"), "(- (- 1 2) 3)");
    assert_eq!(render("8 / 4 / 2"), "(/ (/ 8 4) 2)");
}

#[test]
fn unary_prefix() {
    assert_eq!(render("-1"), "(- 1)");
    assert_eq!(render("!true"), "(! true)");
    assert_eq!(render("!!false"), "(! (! false))");
    assert_eq!(render("- -1"), "(- (- 1))");
}

#[test]
fn unbalanced_grouping_fails() {
    let mut handler = ErrorHandler::new();
    let result = run("(1 + 2", &mut handler);
    assert!(result.is_err());
    let e = result.err().unwrap();
    assert_eq!(e.kind, ParseErrorKind::ExpectRightParen);
    assert_eq!(e.token.ttype(), TokenType::Eof);
    assert_eq!(e.message(), "Expect ')' after expression.");
}

#[test]
fn missing_operand_fails() {
    let mut handler = ErrorHandler::new();
    let e = run("1 + ", &mut handler).err().unwrap();
    assert_eq!(e.kind, ParseErrorKind::ExpectExpression);
    assert_eq!(e.token.ttype(), TokenType::Eof);
    let e = run("* 2", &mut handler).err().unwrap();
    assert_eq!(e.kind, ParseErrorKind::ExpectExpression);
    assert_eq!(e.token.ttype(), TokenType::Star);
    assert_eq!(e.message(), "Expect expression.");
}

#[test]
fn all_levels() {
    assert_eq!(render("1 == 2 < 3 + 4 * -5"), "(== 1 (< 2 (+ 3 (* 4 (- 5)))))");
    assert_eq!(render("1 != 2 == 3"), "(== (!= 1 2) 3)");
    assert_eq!(render("1 >= 2 <= 3 > 4"), "(> (<= (>= 1 2) 3) 4)");
}

#[test]
fn primaries() {
    assert_eq!(render("nil"), "nil");
    assert_eq!(render("\"hi there\""), "hi there");
    assert_eq!(render("12.5"), "12.5");
    assert_eq!(render("((true))"), "(group (group true))");
}

#[test]
fn parse_stops_after_one_expression() {
    assert_eq!(render("1 2"), "1");
}

#[test]
fn run_reports_lexical_errors() {
    let mut handler = ErrorHandler::new();
    let r = run("1 @ + 2", &mut handler);
    assert!(handler.has_error);
    assert_eq!(r.ok().unwrap(), "(+ 1 2)");
}

#[test]
fn parser_over_scanned_tokens() {
    let mut handler = ErrorHandler::new();
    let mut scanner = Scanner::new("3 * (4)");
    scanner.scan_tokens(&mut handler);
    let mut parser = Parser::new(scanner.into_tokens());
    let e = parser.parse().ok().unwrap();
    assert_eq!(e.render(), "(* 3 (group 4))");
}

#[test]
fn empty_input_has_no_expression() {
    let mut handler = ErrorHandler::new();
    let e = run("", &mut handler).err().unwrap();
    assert_eq!(e.kind, ParseErrorKind::ExpectExpression);
    assert_eq!(e.token.ttype(), TokenType::Eof);
    assert!(!handler.has_error);
}

#[test]
fn error_token_carries_its_line() {
    let mut handler = ErrorHandler::new();
    let e = run("(1\n+\n2", &mut handler).err().unwrap();
    assert_eq!(e.kind, ParseErrorKind::ExpectRightParen);
    assert_eq!(e.token.line(), 3);
}
