//! Tokens.
use crate::number::{call_show, show_of, show_ok};
use crate::text::{id_name, make_id_name, push_char, push_text};
use vstd::prelude::*;

verus! {

/// One lexeme. A number holds the encoding of its value; an identifier holds its
/// spelling and its index in the identifier table.
#[derive(Debug)]
pub enum Token {
    Number(u64),
    Identifier(String, usize),
    Plus,
    Minus,
    Multiply,
    Divide,
    Power,
    LParen,
    RParen,
    Sqrt,
    Assign,
}

/// The name under which a token is shown; a number shows its value beside it.
pub open spec fn token_label(t: Token) -> Seq<char> {
    match t {
        Token::Number(_) => "NUMBER"@,
        Token::Identifier(_, idx) => id_name(idx as nat),
        Token::Plus => "PLUS"@,
        Token::Minus => "MINUS"@,
        Token::Multiply => "MUL"@,
        Token::Divide => "DIV"@,
        Token::Power => "POW"@,
        Token::LParen => "LPAREN"@,
        Token::RParen => "RPAREN"@,
        Token::Sqrt => "SQRT"@,
        Token::Assign => "ASSIGN"@,
    }
}

/// How a token is shown: `NUMBER(<value>)`, `id<index>`, or its name.
pub open spec fn token_text<S: Fn(u64) -> String>(t: Token, show: S) -> Seq<char> {
    match t {
        Token::Number(b) => token_label(t) + seq!['('] + show_of(show, b) + seq![')'],
        _ => token_label(t),
    }
}

impl Token {
    /// The token's name (`PLUS`, `id3`, ...); a number gives `NUMBER`.
    pub fn label(&self) -> (r: String)
        ensures
            r@ == token_label(*self),
    {
        match self {
            Token::Number(_) => String::from_str("NUMBER"),
            Token::Identifier(_, idx) => make_id_name(*idx),
            Token::Plus => String::from_str("PLUS"),
            Token::Minus => String::from_str("MINUS"),
            Token::Multiply => String::from_str("MUL"),
            Token::Divide => String::from_str("DIV"),
            Token::Power => String::from_str("POW"),
            Token::LParen => String::from_str("LPAREN"),
            Token::RParen => String::from_str("RPAREN"),
            Token::Sqrt => String::from_str("SQRT"),
            Token::Assign => String::from_str("ASSIGN"),
        }
    }

    /// The token as it is shown to a user, numbers printed by `show`.
    pub fn to_text<S: Fn(u64) -> String>(&self, show: &S) -> (r: String)
        requires
            show_ok(*show),
        ensures
            r@ == token_text(*self, *show),
    {
        let mut r = self.label();
        if let Token::Number(b) = self {
            push_char(&mut r, '(');
            let v = call_show(show, *b);
            push_text(&mut r, &v);
            push_char(&mut r, ')');
            assert(r@ =~= token_text(*self, *show));
        }
        r
    }
}

} // verus!
