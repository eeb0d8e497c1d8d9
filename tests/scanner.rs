use tlox::scanner::{ErrorHandler, LiteralType, Scanner, Token};
use tlox::types::TokenType;

fn scan_with(source: &str, handler: &mut ErrorHandler) -> Vec<Token> {
    let mut scanner = Scanner::new(source);
    scanner.scan_tokens(handler);
    scanner.into_tokens()
}

fn scan(source: &str) -> Vec<Token> {
    let mut handler = ErrorHandler::new();
    scan_with(source, &mut handler)
}

fn types(tokens: &[Token]) -> Vec<TokenType> {
    tokens.iter().map(|t| t.ttype()).collect()
}

#[test]
fn bang_equal_is_one_token() {
    let tokens = scan("!=");
    assert_eq!(types(&tokens), vec![TokenType::BangEqual, TokenType::Eof]);
    assert_eq!(tokens[0].lexeme(), "!=");
}

#[test]
fn two_character_operators() {
    let tokens = scan("== <= >=");
    assert_eq!(
        types(&tokens),
        vec![TokenType::EqualEqual, TokenType::LessEqual, TokenType::GreaterEqual, TokenType::Eof]
    );
    assert_eq!(tokens[1].lexeme(), "<=");
}

#[test]
fn one_character_operators() {
    let tokens = scan("! = < > / !==");
    assert_eq!(
        types(&tokens),
        vec![
            TokenType::Bang,
            TokenType::Equal,
            TokenType::Less,
            TokenType::Greater,
            TokenType::Slash,
            TokenType::BangEqual,
            TokenType::Equal,
            TokenType::Eof
        ]
    );
}

#[test]
fn punctuation() {
    let tokens = scan("(){},.-+;*");
    assert_eq!(
        types(&tokens),
        vec![
            TokenType::LeftParen,
            TokenType::RightParen,
            TokenType::LeftBrace,
            TokenType::RightBrace,
            TokenType::Comma,
            TokenType::Dot,
            TokenType::Minus,
            TokenType::Plus,
            TokenType::Semicolon,
            TokenType::Star,
            TokenType::Eof
        ]
    );
}

#[test]
fn comment_yields_no_token() {
    let tokens = scan("// anything != \"x\"\n+");
    assert_eq!(types(&tokens), vec![TokenType::Plus, TokenType::Eof]);
    assert_eq!(tokens[0].line(), 2);
    assert_eq!(tokens[1].line(), 2);
    let tokens = scan("1 // to the end");
    assert_eq!(types(&tokens), vec![TokenType::Number, TokenType::Eof]);
    assert_eq!(tokens[1].line(), 1);
}

#[test]
fn number_with_fraction_is_one_token() {
    let tokens = scan("123.456");
    assert_eq!(types(&tokens), vec![TokenType::Number, TokenType::Eof]);
    assert_eq!(tokens[0].lexeme(), "123.456");
    assert!(matches!(tokens[0].literal(), LiteralType::Num(n) if n == "123.456"));
}

#[test]
fn trailing_dot_is_not_absorbed() {
    let tokens = scan("123.");
    assert_eq!(types(&tokens), vec![TokenType::Number, TokenType::Dot, TokenType::Eof]);
    assert_eq!(tokens[0].lexeme(), "123");
    assert!(matches!(tokens[0].literal(), LiteralType::Num(n) if n == "123"));
    let tokens = scan("1.x");
    assert_eq!(
        types(&tokens),
        vec![TokenType::Number, TokenType::Dot, TokenType::Identifier, TokenType::Eof]
    );
}

#[test]
fn string_literal_drops_quotes() {
    let tokens = scan("\"abc\"");
    assert_eq!(types(&tokens), vec![TokenType::String, TokenType::Eof]);
    assert_eq!(tokens[0].lexeme(), "\"abc\"");
    assert!(matches!(tokens[0].literal(), LiteralType::Str(s) if s == "abc"));
}

#[test]
fn empty_string_literal() {
    let tokens = scan("\"\"");
    assert!(matches!(tokens[0].literal(), LiteralType::Str(s) if s.is_empty()));
}

#[test]
fn multi_line_string_counts_lines() {
    let tokens = scan("\"a\nb\" 1");
    assert_eq!(types(&tokens), vec![TokenType::String, TokenType::Number, TokenType::Eof]);
    assert!(matches!(tokens[0].literal(), LiteralType::Str(s) if s == "a\nb"));
    assert_eq!(tokens[0].line(), 2);
    assert_eq!(tokens[1].line(), 2);
}

#[test]
fn unterminated_string_sets_error() {
    let mut handler = ErrorHandler::new();
    let tokens = scan_with("\"abc", &mut handler);
    assert_eq!(types(&tokens), vec![TokenType::Eof]);
    assert!(handler.has_error);
    assert_eq!(handler.diagnostics.len(), 1);
    assert_eq!(handler.diagnostics[0].line, 1);
    assert_eq!(handler.diagnostics[0].message, "Unterminated string.");
}

#[test]
fn identifier_is_not_split_at_keyword() {
    let tokens = scan("className");
    assert_eq!(types(&tokens), vec![TokenType::Identifier, TokenType::Eof]);
    assert_eq!(tokens[0].lexeme(), "className");
    let tokens = scan("orange or_ _x1");
    assert_eq!(
        types(&tokens),
        vec![TokenType::Identifier, TokenType::Identifier, TokenType::Identifier, TokenType::Eof]
    );
}

#[test]
fn keywords() {
    let tokens = scan(
        "and class else false for fun if nil or print return super this true var while",
    );
    assert_eq!(
        types(&tokens),
        vec![
            TokenType::And,
            TokenType::Class,
            TokenType::Else,
            TokenType::False,
            TokenType::For,
            TokenType::Fun,
            TokenType::If,
            TokenType::Nil,
            TokenType::Or,
            TokenType::Print,
            TokenType::Return,
            TokenType::Super,
            TokenType::This,
            TokenType::True,
            TokenType::Var,
            TokenType::While,
            TokenType::Eof
        ]
    );
}

#[test]
fn keywords_are_case_sensitive() {
    let tokens = scan("And TRUE");
    assert_eq!(types(&tokens), vec![TokenType::Identifier, TokenType::Identifier, TokenType::Eof]);
}

#[test]
fn identifier_continues_with_unicode_letters() {
    let tokens = scan("caf\u{e9} x");
    assert_eq!(types(&tokens), vec![TokenType::Identifier, TokenType::Identifier, TokenType::Eof]);
    assert_eq!(tokens[0].lexeme(), "caf\u{e9}");
}

#[test]
fn unexpected_character_is_reported_and_skipped() {
    let mut handler = ErrorHandler::new();
    let tokens = scan_with("1\n@ +", &mut handler);
    assert_eq!(types(&tokens), vec![TokenType::Number, TokenType::Plus, TokenType::Eof]);
    assert!(handler.has_error);
    assert_eq!(handler.diagnostics.len(), 1);
    assert_eq!(handler.diagnostics[0].line, 2);
    assert_eq!(handler.diagnostics[0].message, "Unexpected character.");
}

#[test]
fn every_error_is_collected() {
    let mut handler = ErrorHandler::new();
    let tokens = scan_with("@ # \"open", &mut handler);
    assert_eq!(types(&tokens), vec![TokenType::Eof]);
    assert_eq!(handler.diagnostics.len(), 3);
}

#[test]
fn lines_are_counted() {
    let tokens = scan("1\n\n2 \t\r3\n");
    assert_eq!(
        types(&tokens),
        vec![TokenType::Number, TokenType::Number, TokenType::Number, TokenType::Eof]
    );
    assert_eq!(tokens[0].line(), 1);
    assert_eq!(tokens[1].line(), 3);
    assert_eq!(tokens[2].line(), 3);
    assert_eq!(tokens[3].line(), 4);
}

#[test]
fn empty_source_has_only_end_marker() {
    let mut handler = ErrorHandler::new();
    let tokens = scan_with("", &mut handler);
    assert_eq!(types(&tokens), vec![TokenType::Eof]);
    assert_eq!(tokens[0].lexeme(), "");
    assert_eq!(tokens[0].line(), 1);
    assert!(!handler.has_error);
}

#[test]
fn error_handler_flag_and_reset() {
    let mut handler = ErrorHandler::new();
    assert!(!handler.has_error);
    handler.error(7, "boom");
    assert!(handler.has_error);
    assert_eq!(handler.diagnostics[0].line, 7);
    assert_eq!(handler.diagnostics[0].message, "boom");
    handler.reset();
    assert!(!handler.has_error);
    assert_eq!(handler.diagnostics.len(), 1);
}

#[test]
fn token_accessors() {
    let t = Token::new(TokenType::Number, "4".to_string(), LiteralType::Num("4".to_string()), 9);
    let d = t.duplicate();
    assert_eq!(d.ttype(), TokenType::Number);
    assert_eq!(d.lexeme(), "4");
    assert_eq!(d.line(), 9);
    assert!(matches!(d.literal(), LiteralType::Num(n) if n == "4"));
}

#[test]
fn unterminated_string_reports_its_last_line() {
    let mut handler = ErrorHandler::default();
    let tokens = scan_with("1 \"a\nb\nc", &mut handler);
    assert_eq!(types(&tokens), vec![TokenType::Number, TokenType::Eof]);
    assert_eq!(handler.diagnostics[0].line, 3);
    assert_eq!(tokens[1].line(), 3);
}
