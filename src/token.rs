use vstd::prelude::*;

verus! {

/// One lexical unit produced by the scanner.
#[allow(non_camel_case_types)]
#[derive(Debug, PartialEq, Eq)]
pub enum Token {
    LET,
    FUNCTION,
    EQUAL,
    NOT_EQUAL,
    IDENT(String),
    ASSIGN,
    PLUS,
    MINUS,
    BANG,
    ASTERISK,
    SLASH,
    LT,
    GT,
    COMMA,
    SEMICOLON,
    LPAREN,
    RPAREN,
    LBRACE,
    RBRACE,
    TRUE,
    FALSE,
    IF,
    ELSE,
    RETURN,
    INT(String),
    EOF,
    ILLEGAL,
}

/// The mathematical value of a `Token`: the same variants, with the text of
/// identifiers and integer literals as a sequence of characters.
#[allow(non_camel_case_types)]
pub enum Lexeme {
    LET,
    FUNCTION,
    EQUAL,
    NOT_EQUAL,
    IDENT(Seq<char>),
    ASSIGN,
    PLUS,
    MINUS,
    BANG,
    ASTERISK,
    SLASH,
    LT,
    GT,
    COMMA,
    SEMICOLON,
    LPAREN,
    RPAREN,
    LBRACE,
    RBRACE,
    TRUE,
    FALSE,
    IF,
    ELSE,
    RETURN,
    INT(Seq<char>),
    EOF,
    ILLEGAL,
}

impl View for Token {
    type V = Lexeme;

    open spec fn view(&self) -> Lexeme {
        match self {
            Token::LET => Lexeme::LET,
            Token::FUNCTION => Lexeme::FUNCTION,
            Token::EQUAL => Lexeme::EQUAL,
            Token::NOT_EQUAL => Lexeme::NOT_EQUAL,
            Token::IDENT(s) => Lexeme::IDENT(s@),
            Token::ASSIGN => Lexeme::ASSIGN,
            Token::PLUS => Lexeme::PLUS,
            Token::MINUS => Lexeme::MINUS,
            Token::BANG => Lexeme::BANG,
            Token::ASTERISK => Lexeme::ASTERISK,
            Token::SLASH => Lexeme::SLASH,
            Token::LT => Lexeme::LT,
            Token::GT => Lexeme::GT,
            Token::COMMA => Lexeme::COMMA,
            Token::SEMICOLON => Lexeme::SEMICOLON,
            Token::LPAREN => Lexeme::LPAREN,
            Token::RPAREN => Lexeme::RPAREN,
            Token::LBRACE => Lexeme::LBRACE,
            Token::RBRACE => Lexeme::RBRACE,
            Token::TRUE => Lexeme::TRUE,
            Token::FALSE => Lexeme::FALSE,
            Token::IF => Lexeme::IF,
            Token::ELSE => Lexeme::ELSE,
            Token::RETURN => Lexeme::RETURN,
            Token::INT(s) => Lexeme::INT(s@),
            Token::EOF => Lexeme::EOF,
            Token::ILLEGAL => Lexeme::ILLEGAL,
        }
    }
}

impl Token {
    /// Whether this is the end-of-input token.
    pub fn is_eof(&self) -> (r: bool)
        ensures
            r == (self@ is EOF),
    {
        match self {
            Token::EOF => true,
            _ => false,
        }
    }
}

} // verus!
