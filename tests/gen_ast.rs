use tlox::gen_ast::{define_ast, define_type};

#[test]
fn type_declaration() {
    let text = define_type("Expr", "Binary", "Expr left, Token operator, Expr right").unwrap();
    assert_eq!(
        text,
        "pub struct Binary {\n    left: Expr,\n    operator: Token,\n    right: Expr,\n}\n"
    );
}

#[test]
fn field_without_space_is_refused() {
    assert!(define_type("Expr", "Grouping", "Expr").is_none());
    assert!(define_type("Expr", "Binary", "Expr left, ").is_none());
}

#[test]
fn ast_declarations() {
    let grammar: Vec<String> = vec![
        String::from("Binary   : Expr left, Token operator, Expr right"),
        String::from("Grouping : Expr expression"),
        String::from("Literal  : Object value"),
        String::from("Unary    : Token operator, Expr right"),
    ];
    let text = define_ast("Expr", &grammar).unwrap();
    let expected = "pub struct Expr {\n}\n\
pub struct Binary {\n    left: Expr,\n    operator: Token,\n    right: Expr,\n}\n\
pub struct Grouping {\n    expression: Expr,\n}\n\
pub struct Literal {\n    value: Object,\n}\n\
pub struct Unary {\n    operator: Token,\n    right: Expr,\n}\n";
    assert_eq!(text, expected);
}

#[test]
fn entry_without_colon_is_refused() {
    let grammar: Vec<String> = vec![String::from("Grouping Expr expression")];
    assert!(define_ast("Expr", &grammar).is_none());
}

#[test]
fn entry_names_are_trimmed() {
    let grammar: Vec<String> = vec![String::from(" \tUnary \t:  Token operator \n")];
    let text = define_ast("E", &grammar).unwrap();
    assert_eq!(text, "pub struct E {\n}\npub struct Unary {\n    operator: Token,\n}\n");
}

#[test]
fn no_entries() {
    let grammar: Vec<String> = Vec::new();
    assert_eq!(define_ast("Expr", &grammar).unwrap(), "pub struct Expr {\n}\n");
}
