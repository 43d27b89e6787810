//! The scanner: an owned input buffer and a cursor that moves forward one
//! byte at a time.
use vstd::prelude::*;
use crate::model::{
    ascii_chars, byte_at, is_digit, keyword, lemma_next_lexeme_advances, lemma_span_end_bounds, next_lexeme,
    single_byte_lexeme, tokens, tokens_from, CLOSE_BRACE, CLOSE_PAREN, COMMA_SIGN, EQUALS_SIGN,
    EXCLAMATION, FORWARD_SLASH, GREATER_THAN, HYPHEN, LESS_THAN, OPEN_BRACE, OPEN_PAREN,
    PLUS_SIGN, SEMICOLON_SIGN, STAR, is_letter, is_whitespace, span_end, ByteClass, CARRIAGE_RETURN,
    DIGIT_NINE, DIGIT_ZERO, LOWER_A, LOWER_Z, NEWLINE, SPACE, TAB, UNDERSCORE, UPPER_A, UPPER_Z,
};
use crate::token::{Lexeme, Token};
use vstd::slice::slice_to_vec;
use vstd::utf8::encode_utf8;

verus! {

/// Relies on `String::from_utf8_lossy`: ASCII bytes are valid UTF-8, so they
/// come back unchanged, each byte as the character of the same code.
#[verifier::external_body]
fn ascii_to_string(b: &[u8]) -> (r: String)
    requires
        forall|i: int| 0 <= i < b@.len() ==> b@[i] < 128,
    ensures
        r@ == ascii_chars(b@),
{
    String::from_utf8_lossy(b).into_owned()
}

/// Whether `b` is a space, tab, newline or carriage return.
pub fn is_whitespace_byte(b: u8) -> (r: bool)
    ensures
        r == is_whitespace(b),
{
    b == SPACE || b == TAB || b == NEWLINE || b == CARRIAGE_RETURN
}

/// Whether `b` is an ASCII letter or the underscore.
pub fn is_letter_byte(b: u8) -> (r: bool)
    ensures
        r == is_letter(b),
{
    (LOWER_A <= b && b <= LOWER_Z) || (UPPER_A <= b && b <= UPPER_Z) || b == UNDERSCORE
}

/// Whether `b` is an ASCII decimal digit.
pub fn is_digit_byte(b: u8) -> (r: bool)
    ensures
        r == is_digit(b),
{
    DIGIT_ZERO <= b && b <= DIGIT_NINE
}

/// The token of a single operator or punctuation byte; `ILLEGAL` for a
/// byte that is none of them.
pub fn single_byte_token(b: u8) -> (t: Token)
    ensures
        t@ == single_byte_lexeme(b),
{
    if b == EQUALS_SIGN {
        Token::ASSIGN
    } else if b == EXCLAMATION {
        Token::BANG
    } else if b == STAR {
        Token::ASTERISK
    } else if b == PLUS_SIGN {
        Token::PLUS
    } else if b == HYPHEN {
        Token::MINUS
    } else if b == FORWARD_SLASH {
        Token::SLASH
    } else if b == LESS_THAN {
        Token::LT
    } else if b == GREATER_THAN {
        Token::GT
    } else if b == COMMA_SIGN {
        Token::COMMA
    } else if b == SEMICOLON_SIGN {
        Token::SEMICOLON
    } else if b == OPEN_PAREN {
        Token::LPAREN
    } else if b == CLOSE_PAREN {
        Token::RPAREN
    } else if b == OPEN_BRACE {
        Token::LBRACE
    } else if b == CLOSE_BRACE {
        Token::RBRACE
    } else {
        Token::ILLEGAL
    }
}

/// A scanner over one input: `ch` is the byte under examination at
/// `position` (the sentinel `0` past the end), and `read_pos` is the next
/// byte to read.
pub struct Lexer {
    pub input: Vec<u8>,
    pub ch: u8,
    pub position: usize,
    pub read_pos: usize,
}

impl Lexer {
    /// The scanner's invariant once primed.
    pub open spec fn wf(&self) -> bool {
        &&& self.input.len() < usize::MAX
        &&& self.position <= self.input.len()
        &&& self.read_pos == self.position + 1
        &&& self.ch == byte_at(self.input@, self.position as int)
    }

    /// Takes the input and primes the scanner on its first byte.
    pub fn new(input: Vec<u8>) -> (r: Self)
        requires
            input.len() < usize::MAX,
        ensures
            r.wf(),
            r.input@ == input@,
            r.position == 0,
    {
        let mut s = Lexer { input, position: 0, read_pos: 0, ch: 0 };
        s.read_char();
        s
    }

    /// Moves the cursor one byte: `ch` takes the byte at `read_pos`, or the
    /// sentinel past the end.
    pub fn read_char(&mut self)
        requires
            old(self).read_pos < usize::MAX,
        ensures
            final(self).input@ == old(self).input@,
            final(self).ch == byte_at(old(self).input@, old(self).read_pos as int),
            final(self).position == old(self).read_pos,
            final(self).read_pos == old(self).read_pos + 1,
    {
        if self.read_pos >= self.input.len() {
            self.ch = 0;
        } else {
            self.ch = self.input[self.read_pos];
        }
        self.position = self.read_pos;
        self.read_pos = self.read_pos + 1;
    }

    /// The byte after the one under examination, without moving; the
    /// sentinel past the end.
    pub fn peek(&mut self) -> (r: u8)
        ensures
            *final(self) == *old(self),
            r == byte_at(old(self).input@, old(self).read_pos as int),
    {
        if self.read_pos >= self.input.len() {
            0
        } else {
            self.input[self.read_pos]
        }
    }

    /// Moves past the whitespace under the cursor.
    pub fn skip_whitespace(&mut self)
        requires
            old(self).wf(),
        ensures
            final(self).wf(),
            final(self).input@ == old(self).input@,
            final(self).position == span_end(old(self).input@, old(self).position as int, ByteClass::Whitespace),
    {
        let ghost s = self.input@;
        let ghost start = self.position as int;
        while is_whitespace_byte(self.ch)
            invariant
                self.wf(),
                self.input@ == s,
                start <= self.position,
                span_end(s, self.position as int, ByteClass::Whitespace)
                    == span_end(s, start, ByteClass::Whitespace),
            decreases self.input.len() - self.position,
        {
            self.read_char();
        }
    }

    /// Produces the next token: skips whitespace, then reads one lexeme and
    /// moves the cursor past it. At the end of the input it yields `EOF` and
    /// stays where it is, however often it is asked.
    pub fn next_token(&mut self) -> (tok: Token)
        requires
            old(self).wf(),
        ensures
            final(self).wf(),
            final(self).input@ == old(self).input@,
            (tok@, final(self).position as int) == next_lexeme(old(self).input@, old(self).position as int),
            tok@ is EOF ==> final(self).ch == 0,
            old(self).ch == 0 ==> tok@ is EOF && final(self).position == old(self).position,
            old(self).ch != 0 ==> final(self).position > old(self).position,
    {
        proof {
            lemma_next_lexeme_advances(self.input@, self.position as int);
        }
        self.skip_whitespace();
        if self.ch == 0 {
            return Token::EOF;
        }
        if is_digit_byte(self.ch) {
            let literal = self.read_digit();
            return Token::INT(literal);
        }
        if is_letter_byte(self.ch) {
            let start = self.position;
            let literal = self.read_ident();
            proof {
                lemma_span_end_bounds(self.input@, start as int, ByteClass::Letter);
            }
            return match self.keyword_token(start, self.position) {
                Some(k) => k,
                None => Token::IDENT(literal),
            };
        }
        let tok = if self.ch == EQUALS_SIGN && self.peek() == EQUALS_SIGN {
            self.read_char();
            Token::EQUAL
        } else if self.ch == EXCLAMATION && self.peek() == EQUALS_SIGN {
            self.read_char();
            Token::NOT_EQUAL
        } else {
            single_byte_token(self.ch)
        };
        self.read_char();
        tok
    }

    /// Reads the maximal run of letters and underscores under the cursor
    /// and returns its text.
    pub fn read_ident(&mut self) -> (r: String)
        requires
            old(self).wf(),
        ensures
            final(self).wf(),
            final(self).input@ == old(self).input@,
            final(self).position == span_end(old(self).input@, old(self).position as int, ByteClass::Letter),
            r@ == ascii_chars(old(self).input@.subrange(old(self).position as int, final(self).position as int)),
    {
        let ghost s = self.input@;
        let pos = self.position;
        while is_letter_byte(self.ch)
            invariant
                self.wf(),
                self.input@ == s,
                pos <= self.position,
                forall|j: int| pos <= j < self.position ==> is_letter(#[trigger] s[j]),
                span_end(s, self.position as int, ByteClass::Letter)
                    == span_end(s, pos as int, ByteClass::Letter),
            decreases self.input.len() - self.position,
        {
            self.read_char();
        }
        ascii_to_string(&self.input[pos..self.position])
    }

    /// Reads the maximal run of digits under the cursor and returns its text.
    pub fn read_digit(&mut self) -> (r: String)
        requires
            old(self).wf(),
        ensures
            final(self).wf(),
            final(self).input@ == old(self).input@,
            final(self).position == span_end(old(self).input@, old(self).position as int, ByteClass::Digit),
            r@ == ascii_chars(old(self).input@.subrange(old(self).position as int, final(self).position as int)),
    {
        let ghost s = self.input@;
        let pos = self.position;
        while is_digit_byte(self.ch)
            invariant
                self.wf(),
                self.input@ == s,
                pos <= self.position,
                forall|j: int| pos <= j < self.position ==> is_digit(#[trigger] s[j]),
                span_end(s, self.position as int, ByteClass::Digit)
                    == span_end(s, pos as int, ByteClass::Digit),
            decreases self.input.len() - self.position,
        {
            self.read_char();
        }
        ascii_to_string(&self.input[pos..self.position])
    }

    /// Whether the bytes in `start..end` spell `word`.
    fn spells(&self, start: usize, end: usize, word: &[u8]) -> (r: bool)
        requires
            start <= end <= self.input.len(),
        ensures
            r == (self.input@.subrange(start as int, end as int) == word@),
    {
        if end - start != word.len() {
            return false;
        }
        let mut i: usize = 0;
        while i < word.len()
            invariant
                i <= word.len(),
                end - start == word@.len(),
                end <= self.input.len(),
                forall|j: int| 0 <= j < i ==> self.input@[start + j] == word@[j],
            decreases word.len() - i,
        {
            if self.input[start + i] != word[i] {
                assert(self.input@.subrange(start as int, end as int)[i as int] != word@[i as int]);
                return false;
            }
            i = i + 1;
        }
        assert(self.input@.subrange(start as int, end as int) =~= word@);
        true
    }

    /// The keyword spelled by the bytes in `start..end`, if any.
    fn keyword_token(&self, start: usize, end: usize) -> (r: Option<Token>)
        requires
            start <= end <= self.input.len(),
        ensures
            r is None <==> keyword(self.input@.subrange(start as int, end as int)) is None,
            r matches Some(t) ==> keyword(self.input@.subrange(start as int, end as int)) == Some(t@),
    {
        if self.spells(start, end, &[0x66, 0x6E]) {  // "fn"
            Some(Token::FUNCTION)
        } else if self.spells(start, end, &[0x6C, 0x65, 0x74]) {  // "let"
            Some(Token::LET)
        } else if self.spells(start, end, &[0x69, 0x66]) {  // "if"
            Some(Token::IF)
        } else if self.spells(start, end, &[0x72, 0x65, 0x74, 0x75, 0x72, 0x6E]) {  // "return"
            Some(Token::RETURN)
        } else if self.spells(start, end, &[0x65, 0x6C, 0x73, 0x65]) {  // "else"
            Some(Token::ELSE)
        } else if self.spells(start, end, &[0x74, 0x72, 0x75, 0x65]) {  // "true"
            Some(Token::TRUE)
        } else if self.spells(start, end, &[0x66, 0x61, 0x6C, 0x73, 0x65]) {  // "false"
            Some(Token::FALSE)
        } else {
            None
        }
    }
}

} // verus!

verus! {

/// Scans the whole of `input` and returns its tokens, the last one `EOF`.
pub fn lex(input: String) -> (r: Vec<Token>)
    requires
        encode_utf8(input@).len() < usize::MAX,
    ensures
        r@.map_values(|t: Token| t@) == tokens(encode_utf8(input@)),
{
    let bytes = slice_to_vec(input.as_str().as_bytes());
    let ghost s = bytes@;
    let mut lexer = Lexer::new(bytes);
    let mut out: Vec<Token> = Vec::new();
    let mut done = false;
    while !done
        invariant
            lexer.wf(),
            lexer.input@ == s,
            s == encode_utf8(input@),
            done ==> out@.map_values(|t: Token| t@) == tokens(s),
            !done ==> out@.map_values(|t: Token| t@) + tokens_from(s, lexer.position as int) == tokens(s),
        decreases lexer.input.len() - lexer.position + if done { 0int } else { 1int },
    {
        let ghost before = out@.map_values(|t: Token| t@);
        let ghost pos = lexer.position as int;
        let tok = lexer.next_token();
        proof {
            lemma_next_lexeme_advances(s, pos);
        }
        done = tok.is_eof();
        out.push(tok);
        proof {
            assert(out@.map_values(|t: Token| t@) =~= before.push(out@.last()@));
            if !done {
                assert(tokens_from(s, pos) == seq![out@.last()@] + tokens_from(s, lexer.position as int));
                assert(before.push(out@.last()@) + tokens_from(s, lexer.position as int)
                    =~= before + (seq![out@.last()@] + tokens_from(s, lexer.position as int)));
            } else {
                assert(tokens_from(s, pos) == seq![Lexeme::EOF]);
                assert(before.push(Lexeme::EOF) =~= before + seq![Lexeme::EOF]);
            }
        }
    }
    out
}

} // verus!
