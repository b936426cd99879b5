//! Tokens produced by the lexer, with their source locations.

use vstd::prelude::*;
use crate::text::{chars_to_string, dec_str, push_str, push_string, push_usize};

verus! {

#[derive(Debug, PartialEq)]
pub enum Token {
    Identifier(String),
    Symbol(String),
    Match,
    Any,
    Let,
    In,
    LParenthesis,
    RParenthesis,
    LBraces,
    RBraces,
    Colon,
    Arrow,
    Assign,
    Optional,
    Comma,
    Pipe,
    Catch,
}

/// Mathematical model of a token: string payloads become character sequences.
#[verifier::ext_equal]
pub enum TokenV {
    Identifier(Seq<char>),
    Symbol(Seq<char>),
    Match,
    Any,
    Let,
    In,
    LParenthesis,
    RParenthesis,
    LBraces,
    RBraces,
    Colon,
    Arrow,
    Assign,
    Optional,
    Comma,
    Pipe,
    Catch,
}

impl View for Token {
    type V = TokenV;

    open spec fn view(&self) -> TokenV {
        match self {
            Token::Identifier(s) => TokenV::Identifier(s@),
            Token::Symbol(s) => TokenV::Symbol(s@),
            Token::Match => TokenV::Match,
            Token::Any => TokenV::Any,
            Token::Let => TokenV::Let,
            Token::In => TokenV::In,
            Token::LParenthesis => TokenV::LParenthesis,
            Token::RParenthesis => TokenV::RParenthesis,
            Token::LBraces => TokenV::LBraces,
            Token::RBraces => TokenV::RBraces,
            Token::Colon => TokenV::Colon,
            Token::Arrow => TokenV::Arrow,
            Token::Assign => TokenV::Assign,
            Token::Optional => TokenV::Optional,
            Token::Comma => TokenV::Comma,
            Token::Pipe => TokenV::Pipe,
            Token::Catch => TokenV::Catch,
        }
    }
}

impl Clone for Token {
    fn clone(&self) -> (r: Self)
        ensures
            r@ == self@,
    {
        match self {
            Token::Identifier(s) => Token::Identifier(s.clone()),
            Token::Symbol(s) => Token::Symbol(s.clone()),
            Token::Match => Token::Match,
            Token::Any => Token::Any,
            Token::Let => Token::Let,
            Token::In => Token::In,
            Token::LParenthesis => Token::LParenthesis,
            Token::RParenthesis => Token::RParenthesis,
            Token::LBraces => Token::LBraces,
            Token::RBraces => Token::RBraces,
            Token::Colon => Token::Colon,
            Token::Arrow => Token::Arrow,
            Token::Assign => Token::Assign,
            Token::Optional => Token::Optional,
            Token::Comma => Token::Comma,
            Token::Pipe => Token::Pipe,
            Token::Catch => Token::Catch,
        }
    }
}

/// Decides equality of two tokens.
pub fn token_eq(a: &Token, b: &Token) -> (r: bool)
    ensures
        r == (a@ == b@),
{
    match (a, b) {
        (Token::Identifier(x), Token::Identifier(y)) => *x == *y,
        (Token::Symbol(x), Token::Symbol(y)) => *x == *y,
        (Token::Match, Token::Match) => true,
        (Token::Any, Token::Any) => true,
        (Token::Let, Token::Let) => true,
        (Token::In, Token::In) => true,
        (Token::LParenthesis, Token::LParenthesis) => true,
        (Token::RParenthesis, Token::RParenthesis) => true,
        (Token::LBraces, Token::LBraces) => true,
        (Token::RBraces, Token::RBraces) => true,
        (Token::Colon, Token::Colon) => true,
        (Token::Arrow, Token::Arrow) => true,
        (Token::Assign, Token::Assign) => true,
        (Token::Optional, Token::Optional) => true,
        (Token::Comma, Token::Comma) => true,
        (Token::Pipe, Token::Pipe) => true,
        (Token::Catch, Token::Catch) => true,
        _ => false,
    }
}

/// The rendering of a token in diagnostics.
pub open spec fn token_text(t: TokenV) -> Seq<char> {
    match t {
        TokenV::Identifier(s) => s,
        TokenV::Symbol(s) => seq!['\''] + s + seq!['\''],
        TokenV::Match => "match"@,
        TokenV::Any => "any"@,
        TokenV::Let => "let"@,
        TokenV::In => "in"@,
        TokenV::LParenthesis => "("@,
        TokenV::RParenthesis => ")"@,
        TokenV::LBraces => "{"@,
        TokenV::RBraces => "}"@,
        TokenV::Colon => ":"@,
        TokenV::Arrow => ">"@,
        TokenV::Assign => "="@,
        TokenV::Optional => "?"@,
        TokenV::Comma => ","@,
        TokenV::Pipe => "|"@,
        TokenV::Catch => "@"@,
    }
}

impl Token {
    /// Appends the diagnostic rendering of the token to `out`.
    pub fn push_text(&self, out: &mut Vec<char>)
        ensures
            final(out)@ == old(out)@ + token_text(self@),
    {
        match self {
            Token::Identifier(s) => {
                push_string(out, s);
            }
            Token::Symbol(s) => {
                out.push('\'');
                push_string(out, s);
                out.push('\'');
                assert(out@ =~= old(out)@ + token_text(self@));
            }
            Token::Match => push_str(out, "match"),
            Token::Any => push_str(out, "any"),
            Token::Let => push_str(out, "let"),
            Token::In => push_str(out, "in"),
            Token::LParenthesis => push_str(out, "("),
            Token::RParenthesis => push_str(out, ")"),
            Token::LBraces => push_str(out, "{"),
            Token::RBraces => push_str(out, "}"),
            Token::Colon => push_str(out, ":"),
            Token::Arrow => push_str(out, ">"),
            Token::Assign => push_str(out, "="),
            Token::Optional => push_str(out, "?"),
            Token::Comma => push_str(out, ","),
            Token::Pipe => push_str(out, "|"),
            Token::Catch => push_str(out, "@"),
        }
    }

    /// The diagnostic rendering of the token as a fresh string.
    pub fn text(&self) -> (r: String)
        ensures
            r@ == token_text(self@),
    {
        let mut out: Vec<char> = Vec::new();
        self.push_text(&mut out);
        chars_to_string(&out)
    }
}

#[derive(Debug, PartialEq)]
pub struct TokenLoc {
    pub line: usize,
    pub col: usize,
    pub import: Option<String>,
}

/// Mathematical model of a source location.
#[verifier::ext_equal]
pub struct LocV {
    pub line: nat,
    pub col: nat,
    pub import: Option<Seq<char>>,
}

impl View for TokenLoc {
    type V = LocV;

    open spec fn view(&self) -> LocV {
        LocV {
            line: self.line as nat,
            col: self.col as nat,
            import: match self.import {
                Some(ref s) => Some(s@),
                None => None,
            },
        }
    }
}

impl Clone for TokenLoc {
    fn clone(&self) -> (r: Self)
        ensures
            r@ == self@,
    {
        TokenLoc {
            line: self.line,
            col: self.col,
            import: match &self.import {
                Some(s) => Some(s.clone()),
                None => None,
            },
        }
    }
}

/// The rendering of a location in diagnostics.
pub open spec fn loc_text(l: LocV) -> Seq<char> {
    match l.import {
        Some(name) => "line "@ + dec_str(l.line) + ", column "@ + dec_str(l.col) + ", import "@
            + name,
        None => "line "@ + dec_str(l.line) + ", column "@ + dec_str(l.col),
    }
}

impl TokenLoc {
    /// Appends the diagnostic rendering of the location to `out`.
    pub fn push_text(&self, out: &mut Vec<char>)
        ensures
            final(out)@ == old(out)@ + loc_text(self@),
    {
        push_str(out, "line ");
        push_usize(out, self.line);
        push_str(out, ", column ");
        push_usize(out, self.col);
        match &self.import {
            Some(name) => {
                push_str(out, ", import ");
                push_string(out, name);
            }
            None => {}
        }
        assert(out@ =~= old(out)@ + loc_text(self@));
    }

    /// The diagnostic rendering of the location as a fresh string.
    pub fn text(&self) -> (r: String)
        ensures
            r@ == loc_text(self@),
    {
        let mut out: Vec<char> = Vec::new();
        self.push_text(&mut out);
        chars_to_string(&out)
    }
}

} // verus!
