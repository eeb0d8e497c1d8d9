use vstd::prelude::*;

verus! {

/// Lexical category of a token.
#[derive(Copy, Clone, Debug, PartialEq, Eq, Structural)]
pub enum TokenType {
    // Single-character tokens.
    LeftParen,
    RightParen,
    LeftBrace,
    RightBrace,
    Comma,
    Dot,
    Minus,
    Plus,
    Semicolon,
    Slash,
    Star,
    // One or two character tokens.
    Bang,
    BangEqual,
    Equal,
    EqualEqual,
    Greater,
    GreaterEqual,
    Less,
    LessEqual,
    // Literals.
    Identifier,
    String,
    Number,
    // Keywords.
    And,
    Class,
    Else,
    False,
    Fun,
    For,
    If,
    Nil,
    Or,
    Print,
    Return,
    Super,
    This,
    True,
    Var,
    While,
    Eof,
}

/// The reserved word spelled exactly `text`, if there is one.
pub open spec fn keyword_of(text: Seq<char>) -> Option<TokenType> {
    if text == seq!['a', 'n', 'd'] {
        Some(TokenType::And)
    } else if text == seq!['c', 'l', 'a', 's', 's'] {
        Some(TokenType::Class)
    } else if text == seq!['e', 'l', 's', 'e'] {
        Some(TokenType::Else)
    } else if text == seq!['f', 'a', 'l', 's', 'e'] {
        Some(TokenType::False)
    } else if text == seq!['f', 'o', 'r'] {
        Some(TokenType::For)
    } else if text == seq!['f', 'u', 'n'] {
        Some(TokenType::Fun)
    } else if text == seq!['i', 'f'] {
        Some(TokenType::If)
    } else if text == seq!['n', 'i', 'l'] {
        Some(TokenType::Nil)
    } else if text == seq!['o', 'r'] {
        Some(TokenType::Or)
    } else if text == seq!['p', 'r', 'i', 'n', 't'] {
        Some(TokenType::Print)
    } else if text == seq!['r', 'e', 't', 'u', 'r', 'n'] {
        Some(TokenType::Return)
    } else if text == seq!['s', 'u', 'p', 'e', 'r'] {
        Some(TokenType::Super)
    } else if text == seq!['t', 'h', 'i', 's'] {
        Some(TokenType::This)
    } else if text == seq!['t', 'r', 'u', 'e'] {
        Some(TokenType::True)
    } else if text == seq!['v', 'a', 'r'] {
        Some(TokenType::Var)
    } else if text == seq!['w', 'h', 'i', 'l', 'e'] {
        Some(TokenType::While)
    } else {
        None
    }
}

/// Whether `src[start..end]` spells `word` exactly.
fn spells(src: &Vec<char>, start: usize, end: usize, word: &[char]) -> (r: bool)
    requires
        start <= end <= src.len(),
    ensures
        r == (src@.subrange(start as int, end as int) == word@),
{
    if end - start != word.len() {
        return false;
    }
    let mut i: usize = 0;
    while i < word.len()
        invariant
            start <= end <= src.len(),
            end - start == word.len(),
            i <= word.len(),
            forall|k: int| 0 <= k < i ==> src@[start + k] == word@[k],
        decreases word.len() - i,
    {
        if src[start + i] != word[i] {
            assert(src@.subrange(start as int, end as int)[i as int] != word@[i as int]);
            return false;
        }
        i += 1;
    }
    assert(src@.subrange(start as int, end as int) =~= word@);
    true
}

/// Looks `src[start..end]` up among the reserved words.
pub fn keyword_type(src: &Vec<char>, start: usize, end: usize) -> (r: Option<TokenType>)
    requires
        start <= end <= src.len(),
    ensures
        r == keyword_of(src@.subrange(start as int, end as int)),
{
    let w: [char; 3] = ['a', 'n', 'd'];
    if spells(src, start, end, &w) {
        return Some(TokenType::And);
    }
    let w: [char; 5] = ['c', 'l', 'a', 's', 's'];
    if spells(src, start, end, &w) {
        return Some(TokenType::Class);
    }
    let w: [char; 4] = ['e', 'l', 's', 'e'];
    if spells(src, start, end, &w) {
        return Some(TokenType::Else);
    }
    let w: [char; 5] = ['f', 'a', 'l', 's', 'e'];
    if spells(src, start, end, &w) {
        return Some(TokenType::False);
    }
    let w: [char; 3] = ['f', 'o', 'r'];
    if spells(src, start, end, &w) {
        return Some(TokenType::For);
    }
    let w: [char; 3] = ['f', 'u', 'n'];
    if spells(src, start, end, &w) {
        return Some(TokenType::Fun);
    }
    let w: [char; 2] = ['i', 'f'];
    if spells(src, start, end, &w) {
        return Some(TokenType::If);
    }
    let w: [char; 3] = ['n', 'i', 'l'];
    if spells(src, start, end, &w) {
        return Some(TokenType::Nil);
    }
    let w: [char; 2] = ['o', 'r'];
    if spells(src, start, end, &w) {
        return Some(TokenType::Or);
    }
    let w: [char; 5] = ['p', 'r', 'i', 'n', 't'];
    if spells(src, start, end, &w) {
        return Some(TokenType::Print);
    }
    let w: [char; 6] = ['r', 'e', 't', 'u', 'r', 'n'];
    if spells(src, start, end, &w) {
        return Some(TokenType::Return);
    }
    let w: [char; 5] = ['s', 'u', 'p', 'e', 'r'];
    if spells(src, start, end, &w) {
        return Some(TokenType::Super);
    }
    let w: [char; 4] = ['t', 'h', 'i', 's'];
    if spells(src, start, end, &w) {
        return Some(TokenType::This);
    }
    let w: [char; 4] = ['t', 'r', 'u', 'e'];
    if spells(src, start, end, &w) {
        return Some(TokenType::True);
    }
    let w: [char; 3] = ['v', 'a', 'r'];
    if spells(src, start, end, &w) {
        return Some(TokenType::Var);
    }
    let w: [char; 5] = ['w', 'h', 'i', 'l', 'e'];
    if spells(src, start, end, &w) {
        return Some(TokenType::While);
    }
    None
}

} // verus!
