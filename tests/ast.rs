use tlox::ast::Expr;
use tlox::scanner::{LiteralType, Token};
use tlox::types::TokenType;

#[test]
fn test_expr_display() {
    let expression = Expr::Binary {
        left: Box::new(Expr::Unary {
            operator: Token::new(TokenType::Minus, "-".to_string(), LiteralType::Null, 1),
            right: Box::new(Expr::Literal {
                value: LiteralType::Num("123".to_string()),
            }),
        }),
        operator: Token::new(TokenType::Star, "*".to_string(), LiteralType::Null, 1),
        right: Box::new(Expr::Grouping {
            expression: Box::new(Expr::Literal {
                value: LiteralType::Num("45.67".to_string()),
            }),
        }),
    };
    let res = expression.render();
    println!("{res}");
    assert!(expression.render() == "(* (- 123) (group 45.67))");
}

#[test]
fn literals_render_as_written() {
    let s = Expr::Literal { value: LiteralType::Str("a b".to_string()) };
    assert_eq!(s.render(), "a b");
    let t = Expr::Literal { value: LiteralType::Bool(true) };
    assert_eq!(t.render(), "true");
    let f = Expr::Literal { value: LiteralType::Bool(false) };
    assert_eq!(f.render(), "false");
    let n = Expr::Literal { value: LiteralType::Null };
    assert_eq!(n.render(), "nil");
}

#[test]
fn binary_renders_operator_first() {
    let e = Expr::Binary {
        left: Box::new(Expr::Literal { value: LiteralType::Num("1".to_string()) }),
        operator: Token::new(TokenType::EqualEqual, "==".to_string(), LiteralType::Null, 3),
        right: Box::new(Expr::Literal { value: LiteralType::Null }),
    };
    assert_eq!(e.render(), "(== 1 nil)");
}
