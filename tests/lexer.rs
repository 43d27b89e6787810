use lexer::{lex, Lexer, Token};

fn ident(s: &str) -> Token {
    Token::IDENT(s.to_string())
}

fn int_lit(s: &str) -> Token {
    Token::INT(s.to_string())
}

fn scan(input: &str) -> Vec<Token> {
    let mut lexer = Lexer::new(input.as_bytes().to_vec());
    let mut out = Vec::new();
    loop {
        let tok = lexer.next_token();
        let done = tok == Token::EOF;
        out.push(tok);
        if done {
            return out;
        }
    }
}

#[test]
fn test_lex() {
    let input = "let five = 5; 
let ten = 10;

let add = fn(x, y) {
  x + y;
};

let result = add(five, ten);
!-/*5;
5 < 10 > 5;

if (5 < 10) {
    return true;
} else {
    return false;
}

10 == 10;
10 != 9;
"
    .to_string();
    let tests = vec![
        Token::LET, Token::IDENT("five".to_string()), Token::ASSIGN, Token::INT("5".to_string()), Token::SEMICOLON,
        Token::LET, Token::IDENT("ten".to_string()), Token::ASSIGN, Token::INT("10".to_string()), Token::SEMICOLON,
        Token::LET, Token::IDENT("add".to_string()), Token::ASSIGN, Token::FUNCTION, Token::LPAREN, Token::IDENT("x".to_string()), Token::COMMA,
        Token::IDENT("y".to_string()), Token::RPAREN, Token::LBRACE, Token::IDENT("x".to_string()), Token::PLUS, Token::IDENT("y".to_string()),
        Token::SEMICOLON, Token::RBRACE, Token::SEMICOLON,
        Token::LET, Token::IDENT("result".to_string()), Token::ASSIGN, Token::IDENT("add".to_string()), Token::LPAREN, Token::IDENT("five".to_string()),
        Token::COMMA, Token::IDENT("ten".to_string()), Token::RPAREN, Token::SEMICOLON,
        Token::BANG, Token::MINUS, Token::SLASH, Token::ASTERISK, Token::INT("5".to_string()), Token::SEMICOLON,
        Token::INT("5".to_string()), Token::LT, Token::INT("10".to_string()), Token::GT, Token::INT("5".to_string()), Token::SEMICOLON,
        Token::IF, Token::LPAREN, Token::INT("5".to_string()), Token::LT, Token::INT("10".to_string()), Token::RPAREN, Token::LBRACE,
        Token::RETURN, Token::TRUE, Token::SEMICOLON,
        Token::RBRACE, Token::ELSE, Token::LBRACE,
        Token::RETURN, Token::FALSE, Token::SEMICOLON,
        Token::RBRACE,
        Token::INT("10".to_string()), Token::EQUAL, Token::INT("10".to_string()), Token::SEMICOLON,
        Token::INT("10".to_string()), Token::NOT_EQUAL, Token::INT("9".to_string()), Token::SEMICOLON,
    ];

    let mut lexer = Lexer::new(input.as_bytes().to_vec());

    for t in tests {
        let tok = lexer.next_token();
        println!("Token: {:?}", tok);
        assert_eq!(t, tok);
    }
    assert_eq!(lexer.next_token(), Token::EOF);
}

#[test]
fn main_test_lex() {
    let tokens = lex("0123!=".to_string());
    assert_eq!(tokens, vec![int_lit("0123"), Token::NOT_EQUAL, Token::EOF]);
}

#[test]
fn eof_repeats_after_end() {
    let mut lexer = Lexer::new(b"x".to_vec());
    assert_eq!(lexer.next_token(), ident("x"));
    for _ in 0..5 {
        assert_eq!(lexer.next_token(), Token::EOF);
    }
}

#[test]
fn empty_input_yields_only_eof() {
    assert_eq!(lex(String::new()), vec![Token::EOF]);
    assert_eq!(scan(""), vec![Token::EOF]);
}

#[test]
fn whitespace_only_input_yields_only_eof() {
    assert_eq!(lex(" \t\r\n  ".to_string()), vec![Token::EOF]);
}

#[test]
fn cursor_moves_forward_until_end() {
    let mut lexer = Lexer::new(b"a == 12".to_vec());
    let mut last = lexer.position;
    loop {
        let at_end = lexer.ch == 0;
        let tok = lexer.next_token();
        if at_end {
            assert_eq!(tok, Token::EOF);
            assert_eq!(lexer.position, last);
            break;
        }
        assert!(lexer.position > last);
        last = lexer.position;
    }
    assert_eq!(last, 7);
}

#[test]
fn extra_whitespace_keeps_tokens() {
    let tight = lex("let x=(1+y);".to_string());
    let loose = lex("  let \t x \n= ( 1 +\r\n y ) ;  ".to_string());
    assert_eq!(tight, loose);
    assert_eq!(
        tight,
        vec![
            Token::LET, ident("x"), Token::ASSIGN, Token::LPAREN, int_lit("1"), Token::PLUS, ident("y"),
            Token::RPAREN, Token::SEMICOLON, Token::EOF,
        ]
    );
}

#[test]
fn two_byte_operators() {
    assert_eq!(lex("==".to_string()), vec![Token::EQUAL, Token::EOF]);
    assert_eq!(lex("=".to_string()), vec![Token::ASSIGN, Token::EOF]);
    assert_eq!(lex("!=".to_string()), vec![Token::NOT_EQUAL, Token::EOF]);
    assert_eq!(lex("!".to_string()), vec![Token::BANG, Token::EOF]);
}

#[test]
fn split_two_byte_operators() {
    assert_eq!(lex("= =".to_string()), vec![Token::ASSIGN, Token::ASSIGN, Token::EOF]);
    assert_eq!(lex("===".to_string()), vec![Token::EQUAL, Token::ASSIGN, Token::EOF]);
    assert_eq!(lex("!!=".to_string()), vec![Token::BANG, Token::NOT_EQUAL, Token::EOF]);
}

#[test]
fn keyword_versus_identifier() {
    assert_eq!(lex("let".to_string()), vec![Token::LET, Token::EOF]);
    assert_eq!(lex("letx".to_string()), vec![ident("letx"), Token::EOF]);
}

#[test]
fn every_keyword() {
    assert_eq!(
        lex("fn let if else return true false".to_string()),
        vec![
            Token::FUNCTION, Token::LET, Token::IF, Token::ELSE, Token::RETURN, Token::TRUE, Token::FALSE,
            Token::EOF,
        ]
    );
    assert_eq!(lex("Let _if fn_".to_string()), vec![ident("Let"), ident("_if"), ident("fn_"), Token::EOF]);
}

#[test]
fn integer_literal_keeps_leading_zeros() {
    assert_eq!(lex("0042".to_string()), vec![int_lit("0042"), Token::EOF]);
}

#[test]
fn long_integer_literal_is_not_parsed() {
    let digits = "123456789012345678901234567890";
    assert_eq!(lex(digits.to_string()), vec![int_lit(digits), Token::EOF]);
}

#[test]
fn let_statement() {
    assert_eq!(
        lex("let five = 5;".to_string()),
        vec![Token::LET, ident("five"), Token::ASSIGN, int_lit("5"), Token::SEMICOLON, Token::EOF]
    );
}

#[test]
fn if_else_statement() {
    assert_eq!(
        lex("if (5 < 10) { return true; } else { return false; }".to_string()),
        vec![
            Token::IF, Token::LPAREN, int_lit("5"), Token::LT, int_lit("10"), Token::RPAREN, Token::LBRACE,
            Token::RETURN, Token::TRUE, Token::SEMICOLON, Token::RBRACE, Token::ELSE, Token::LBRACE,
            Token::RETURN, Token::FALSE, Token::SEMICOLON, Token::RBRACE, Token::EOF,
        ]
    );
}

#[test]
fn illegal_byte_then_scanning_goes_on() {
    assert_eq!(
        lex("a @ b".to_string()),
        vec![ident("a"), Token::ILLEGAL, ident("b"), Token::EOF]
    );
    assert_eq!(lex("x@1".to_string()), vec![ident("x"), Token::ILLEGAL, int_lit("1"), Token::EOF]);
}

#[test]
fn digits_end_an_identifier() {
    assert_eq!(lex("x1".to_string()), vec![ident("x"), int_lit("1"), Token::EOF]);
    assert_eq!(lex("12ab".to_string()), vec![int_lit("12"), ident("ab"), Token::EOF]);
}

#[test]
fn every_single_byte_operator() {
    assert_eq!(
        lex("*+-/<>,;(){}".to_string()),
        vec![
            Token::ASTERISK, Token::PLUS, Token::MINUS, Token::SLASH, Token::LT, Token::GT, Token::COMMA,
            Token::SEMICOLON, Token::LPAREN, Token::RPAREN, Token::LBRACE, Token::RBRACE, Token::EOF,
        ]
    );
}

#[test]
fn null_byte_ends_the_input() {
    let mut lexer = Lexer::new(vec![b'a', 0, b'b']);
    assert_eq!(lexer.next_token(), ident("a"));
    assert_eq!(lexer.next_token(), Token::EOF);
    assert_eq!(lexer.next_token(), Token::EOF);
}

#[test]
fn non_ascii_bytes_are_illegal() {
    assert_eq!(lex("é".to_string()), vec![Token::ILLEGAL, Token::ILLEGAL, Token::EOF]);
    assert_eq!(lex("\x0c".to_string()), vec![Token::ILLEGAL, Token::EOF]);
}

#[test]
fn read_char_and_peek() {
    let mut lexer = Lexer::new(b"ab".to_vec());
    assert_eq!((lexer.ch, lexer.position, lexer.read_pos), (b'a', 0, 1));
    assert_eq!(lexer.peek(), b'b');
    lexer.read_char();
    assert_eq!((lexer.ch, lexer.position, lexer.read_pos), (b'b', 1, 2));
    assert_eq!(lexer.peek(), 0);
    lexer.read_char();
    assert_eq!((lexer.ch, lexer.position, lexer.read_pos), (0, 2, 3));
}

#[test]
fn read_ident_digit_and_whitespace() {
    let mut lexer = Lexer::new(b"  ab_c12 x".to_vec());
    lexer.skip_whitespace();
    assert_eq!(lexer.position, 2);
    assert_eq!(lexer.read_ident(), "ab_c");
    assert_eq!(lexer.read_digit(), "12");
    assert_eq!(lexer.position, 8);
    assert_eq!(lexer.read_digit(), "");
}
