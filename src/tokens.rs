use vstd::prelude::*;

verus! {

/// A lexical unit of the language. A number literal keeps its source text,
/// which the scanner has checked to be a well-formed decimal numeral.
#[derive(Debug)]
pub enum Token {
    Int,
    StringType,
    Number(String),
    String(String),
    Plus,
    Minus,
    Star,
    Slash,
    Equals,
    Identifier(String),
    Print,
    LParen,
    RParen,
    Semicolon,
    EOF,
}

/// The mathematical model of a token: text payloads become character sequences.
pub enum Tok {
    Int,
    StringType,
    Number(Seq<char>),
    Str(Seq<char>),
    Plus,
    Minus,
    Star,
    Slash,
    Equals,
    Identifier(Seq<char>),
    Print,
    LParen,
    RParen,
    Semicolon,
    EOF,
}

impl View for Token {
    type V = Tok;

    open spec fn view(&self) -> Tok {
        match self {
            Token::Int => Tok::Int,
            Token::StringType => Tok::StringType,
            Token::Number(s) => Tok::Number(s@),
            Token::String(s) => Tok::Str(s@),
            Token::Plus => Tok::Plus,
            Token::Minus => Tok::Minus,
            Token::Star => Tok::Star,
            Token::Slash => Tok::Slash,
            Token::Equals => Tok::Equals,
            Token::Identifier(s) => Tok::Identifier(s@),
            Token::Print => Tok::Print,
            Token::LParen => Tok::LParen,
            Token::RParen => Tok::RParen,
            Token::Semicolon => Tok::Semicolon,
            Token::EOF => Tok::EOF,
        }
    }
}

/// The models of a sequence of tokens.
pub open spec fn toks(v: Seq<Token>) -> Seq<Tok> {
    v.map_values(|t: Token| t@)
}

/// Structural equality of tokens, payloads included.
pub fn same_token(a: &Token, b: &Token) -> (r: bool)
    ensures
        r == (a@ == b@),
{
    match (a, b) {
        (Token::Int, Token::Int) => true,
        (Token::StringType, Token::StringType) => true,
        (Token::Number(x), Token::Number(y)) => x.eq(y),
        (Token::String(x), Token::String(y)) => x.eq(y),
        (Token::Plus, Token::Plus) => true,
        (Token::Minus, Token::Minus) => true,
        (Token::Star, Token::Star) => true,
        (Token::Slash, Token::Slash) => true,
        (Token::Equals, Token::Equals) => true,
        (Token::Identifier(x), Token::Identifier(y)) => x.eq(y),
        (Token::Print, Token::Print) => true,
        (Token::LParen, Token::LParen) => true,
        (Token::RParen, Token::RParen) => true,
        (Token::Semicolon, Token::Semicolon) => true,
        (Token::EOF, Token::EOF) => true,
        _ => false,
    }
}

} // verus!
