//! The scanner's behaviour as mathematics: byte classes, maximal runs, the
//! lexeme that starts at a position, and the whole token sequence of an input.
use vstd::prelude::*;
use crate::token::Lexeme;

verus! {

/// The bytes that the scanner's rules name.
pub const SPACE: u8 = 0x20;
pub const TAB: u8 = 0x09;
pub const NEWLINE: u8 = 0x0A;
pub const CARRIAGE_RETURN: u8 = 0x0D;
pub const LOWER_A: u8 = 0x61;
pub const LOWER_Z: u8 = 0x7A;
pub const UPPER_A: u8 = 0x41;
pub const UPPER_Z: u8 = 0x5A;
pub const UNDERSCORE: u8 = 0x5F;
pub const DIGIT_ZERO: u8 = 0x30;
pub const DIGIT_NINE: u8 = 0x39;
pub const EQUALS_SIGN: u8 = 0x3D;
pub const EXCLAMATION: u8 = 0x21;
pub const STAR: u8 = 0x2A;
pub const PLUS_SIGN: u8 = 0x2B;
pub const HYPHEN: u8 = 0x2D;
pub const FORWARD_SLASH: u8 = 0x2F;
pub const LESS_THAN: u8 = 0x3C;
pub const GREATER_THAN: u8 = 0x3E;
pub const COMMA_SIGN: u8 = 0x2C;
pub const SEMICOLON_SIGN: u8 = 0x3B;
pub const OPEN_PAREN: u8 = 0x28;
pub const CLOSE_PAREN: u8 = 0x29;
pub const OPEN_BRACE: u8 = 0x7B;
pub const CLOSE_BRACE: u8 = 0x7D;

/// The byte at `i`, or the sentinel `0` outside the input.
pub open spec fn byte_at(s: Seq<u8>, i: int) -> u8 {
    if 0 <= i < s.len() {
        s[i]
    } else {
        0
    }
}

/// The classes of bytes that the scanner reads in maximal runs.
pub enum ByteClass {
    Whitespace,
    Letter,
    Digit,
}

/// Space, tab, newline and carriage return.
pub open spec fn is_whitespace(b: u8) -> bool {
    b == SPACE || b == TAB || b == NEWLINE || b == CARRIAGE_RETURN
}

/// An ASCII letter or the underscore.
pub open spec fn is_letter(b: u8) -> bool {
    (LOWER_A <= b && b <= LOWER_Z) || (UPPER_A <= b && b <= UPPER_Z) || b == UNDERSCORE
}

/// An ASCII decimal digit.
pub open spec fn is_digit(b: u8) -> bool {
    DIGIT_ZERO <= b && b <= DIGIT_NINE
}

impl ByteClass {
    pub open spec fn contains(self, b: u8) -> bool {
        match self {
            ByteClass::Whitespace => is_whitespace(b),
            ByteClass::Letter => is_letter(b),
            ByteClass::Digit => is_digit(b),
        }
    }
}

/// The end of the maximal run of bytes of class `c` that starts at `i`.
pub open spec fn span_end(s: Seq<u8>, i: int, c: ByteClass) -> int
    decreases s.len() - i,
{
    if 0 <= i < s.len() && c.contains(s[i]) {
        span_end(s, i + 1, c)
    } else {
        i
    }
}

/// ASCII bytes read as characters, one for one.
pub open spec fn ascii_chars(s: Seq<u8>) -> Seq<char> {
    s.map_values(|b: u8| b as char)
}

/// The keyword spelled by `w`, if any.
pub open spec fn keyword(w: Seq<u8>) -> Option<Lexeme> {
    if w == seq![0x66u8, 0x6Eu8] {  // "fn"
        Some(Lexeme::FUNCTION)
    } else if w == seq![0x6Cu8, 0x65u8, 0x74u8] {  // "let"
        Some(Lexeme::LET)
    } else if w == seq![0x69u8, 0x66u8] {  // "if"
        Some(Lexeme::IF)
    } else if w == seq![0x72u8, 0x65u8, 0x74u8, 0x75u8, 0x72u8, 0x6Eu8] {  // "return"
        Some(Lexeme::RETURN)
    } else if w == seq![0x65u8, 0x6Cu8, 0x73u8, 0x65u8] {  // "else"
        Some(Lexeme::ELSE)
    } else if w == seq![0x74u8, 0x72u8, 0x75u8, 0x65u8] {  // "true"
        Some(Lexeme::TRUE)
    } else if w == seq![0x66u8, 0x61u8, 0x6Cu8, 0x73u8, 0x65u8] {  // "false"
        Some(Lexeme::FALSE)
    } else {
        None
    }
}

/// A word is its keyword, or else an identifier carrying its text.
pub open spec fn word_lexeme(w: Seq<u8>) -> Lexeme {
    match keyword(w) {
        Some(k) => k,
        None => Lexeme::IDENT(ascii_chars(w)),
    }
}

/// The operator or punctuation of a single byte; anything else is illegal.
pub open spec fn single_byte_lexeme(b: u8) -> Lexeme {
    if b == EQUALS_SIGN {
        Lexeme::ASSIGN
    } else if b == EXCLAMATION {
        Lexeme::BANG
    } else if b == STAR {
        Lexeme::ASTERISK
    } else if b == PLUS_SIGN {
        Lexeme::PLUS
    } else if b == HYPHEN {
        Lexeme::MINUS
    } else if b == FORWARD_SLASH {
        Lexeme::SLASH
    } else if b == LESS_THAN {
        Lexeme::LT
    } else if b == GREATER_THAN {
        Lexeme::GT
    } else if b == COMMA_SIGN {
        Lexeme::COMMA
    } else if b == SEMICOLON_SIGN {
        Lexeme::SEMICOLON
    } else if b == OPEN_PAREN {
        Lexeme::LPAREN
    } else if b == CLOSE_PAREN {
        Lexeme::RPAREN
    } else if b == OPEN_BRACE {
        Lexeme::LBRACE
    } else if b == CLOSE_BRACE {
        Lexeme::RBRACE
    } else {
        Lexeme::ILLEGAL
    }
}

/// The lexeme that starts at `p` (no whitespace skipped) and the position
/// just past it. At the sentinel it is `EOF`, and nothing is consumed.
pub open spec fn lexeme_at(s: Seq<u8>, p: int) -> (Lexeme, int) {
    let b = byte_at(s, p);
    if b == 0 {
        (Lexeme::EOF, p)
    } else if is_digit(b) {
        let e = span_end(s, p, ByteClass::Digit);
        (Lexeme::INT(ascii_chars(s.subrange(p, e))), e)
    } else if is_letter(b) {
        let e = span_end(s, p, ByteClass::Letter);
        (word_lexeme(s.subrange(p, e)), e)
    } else if (b == EQUALS_SIGN || b == EXCLAMATION) && byte_at(s, p + 1) == EQUALS_SIGN {
        (if b == EQUALS_SIGN { Lexeme::EQUAL } else { Lexeme::NOT_EQUAL }, p + 2)
    } else {
        (single_byte_lexeme(b), p + 1)
    }
}

/// The next token from cursor `pos`: whitespace is skipped, then one lexeme
/// is read. Gives the lexeme and the cursor after it.
pub open spec fn next_lexeme(s: Seq<u8>, pos: int) -> (Lexeme, int) {
    lexeme_at(s, span_end(s, pos, ByteClass::Whitespace))
}

/// A run never ends before it starts, nor past the input's end when it
/// starts inside it.
pub proof fn lemma_span_end_bounds(s: Seq<u8>, i: int, c: ByteClass)
    ensures
        span_end(s, i, c) >= i,
        0 <= i <= s.len() ==> span_end(s, i, c) <= s.len(),
        forall|j: int| i <= j < span_end(s, i, c) ==> 0 <= j < s.len() && c.contains(#[trigger] s[j]),
        !c.contains(byte_at(s, span_end(s, i, c))) || span_end(s, i, c) < 0,
    decreases s.len() - i,
{
    if 0 <= i < s.len() && c.contains(s[i]) {
        lemma_span_end_bounds(s, i + 1, c);
    }
}

/// Unless the cursor rests on the sentinel, the next token moves it forward.
pub proof fn lemma_next_lexeme_advances(s: Seq<u8>, pos: int)
    requires
        0 <= pos <= s.len(),
    ensures
        next_lexeme(s, pos).1 >= pos,
        next_lexeme(s, pos).1 <= s.len(),
        byte_at(s, pos) != 0 ==> next_lexeme(s, pos).1 > pos,
        next_lexeme(s, pos).0 is EOF <==> byte_at(s, span_end(s, pos, ByteClass::Whitespace)) == 0,
        next_lexeme(s, pos).0 is EOF ==> next_lexeme(s, pos).1 == span_end(s, pos, ByteClass::Whitespace),
{
    let p = span_end(s, pos, ByteClass::Whitespace);
    lemma_span_end_bounds(s, pos, ByteClass::Whitespace);
    lemma_span_end_bounds(s, p, ByteClass::Digit);
    lemma_span_end_bounds(s, p, ByteClass::Letter);
    let b = byte_at(s, p);
    if b != 0 {
        reveal_with_fuel(span_end, 2);
    }
}

/// The tokens that repeated requests yield from cursor `pos`, up to and
/// including the first `EOF`.
pub open spec fn tokens_from(s: Seq<u8>, pos: int) -> Seq<Lexeme>
    decreases s.len() - pos,
{
    if 0 <= pos <= s.len() {
        let (lx, e) = next_lexeme(s, pos);
        if lx is EOF {
            seq![Lexeme::EOF]
        } else {
            proof {
                lemma_next_lexeme_advances(s, pos);
            }
            seq![lx] + tokens_from(s, e)
        }
    } else {
        seq![Lexeme::EOF]
    }
}

/// The whole token sequence of an input.
pub open spec fn tokens(s: Seq<u8>) -> Seq<Lexeme> {
    tokens_from(s, 0)
}

} // verus!
