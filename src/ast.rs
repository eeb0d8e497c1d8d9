use vstd::prelude::*;

use crate::scanner::{LiteralType, LiteralValue, Token, TokenView};
use crate::text::append_text;

verus! {

/// An expression tree; each node owns its children.
pub enum Expr {
    Binary { left: Box<Expr>, operator: Token, right: Box<Expr> },
    Grouping { expression: Box<Expr> },
    Literal { value: LiteralType },
    Unary { operator: Token, right: Box<Expr> },
}

/// The mathematical value of an `Expr`.
pub enum ExprView {
    Binary { left: Box<ExprView>, operator: TokenView, right: Box<ExprView> },
    Grouping { expression: Box<ExprView> },
    Literal { value: LiteralValue },
    Unary { operator: TokenView, right: Box<ExprView> },
}

pub open spec fn expr_view(e: &Expr) -> ExprView
    decreases e,
{
    match e {
        Expr::Binary { left, operator, right } => ExprView::Binary {
            left: Box::new(expr_view(left)),
            operator: operator@,
            right: Box::new(expr_view(right)),
        },
        Expr::Grouping { expression } => ExprView::Grouping {
            expression: Box::new(expr_view(expression)),
        },
        Expr::Literal { value } => ExprView::Literal { value: value@ },
        Expr::Unary { operator, right } => ExprView::Unary {
            operator: operator@,
            right: Box::new(expr_view(right)),
        },
    }
}

impl View for Expr {
    type V = ExprView;

    open spec fn view(&self) -> ExprView {
        expr_view(self)
    }
}

/// The text of a literal value: strings and numerals as written,
/// booleans as `true` / `false`, the absent value as `nil`.
pub open spec fn literal_text(v: LiteralValue) -> Seq<char> {
    match v {
        LiteralValue::Str(s) => s,
        LiteralValue::Num(s) => s,
        LiteralValue::Bool(b) => if b {
            "true"@
        } else {
            "false"@
        },
        LiteralValue::Null => "nil"@,
    }
}

/// The fully parenthesised prefix form of an expression.
pub open spec fn rendered(e: ExprView) -> Seq<char>
    decreases e,
{
    match e {
        ExprView::Binary { left, operator, right } => "("@ + operator.lexeme + " "@ + rendered(*left)
            + " "@ + rendered(*right) + ")"@,
        ExprView::Grouping { expression } => "(group "@ + rendered(*expression) + ")"@,
        ExprView::Literal { value } => literal_text(value),
        ExprView::Unary { operator, right } => "("@ + operator.lexeme + " "@ + rendered(*right)
            + ")"@,
    }
}

impl LiteralType {
    /// The text of this literal value.
    pub fn render(&self) -> (r: String)
        ensures
            r@ == literal_text(self@),
    {
        match self {
            LiteralType::Str(s) => s.clone(),
            LiteralType::Num(s) => s.clone(),
            LiteralType::Bool(b) => if *b {
                "true".to_owned()
            } else {
                "false".to_owned()
            },
            LiteralType::Null => "nil".to_owned(),
        }
    }
}

impl Expr {
    /// Writes the fully parenthesised prefix form of this expression.
    pub fn render(&self) -> (r: String)
        ensures
            r@ == rendered(self@),
        decreases self,
    {
        match self {
            Expr::Binary { left, operator, right } => {
                let mut r = "(".to_owned();
                append_text(&mut r, operator.lexeme());
                r.append(" ");
                append_text(&mut r, &left.render());
                r.append(" ");
                append_text(&mut r, &right.render());
                r.append(")");
                r
            },
            Expr::Grouping { expression } => {
                let mut r = "(group ".to_owned();
                append_text(&mut r, &expression.render());
                r.append(")");
                r
            },
            Expr::Literal { value } => value.render(),
            Expr::Unary { operator, right } => {
                let mut r = "(".to_owned();
                append_text(&mut r, operator.lexeme());
                r.append(" ");
                append_text(&mut r, &right.render());
                r.append(")");
                r
            },
        }
    }
}

} // verus!
