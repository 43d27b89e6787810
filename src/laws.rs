//! What holds of every input: scanning ends, the end is stable, and extra
//! whitespace between tokens changes nothing.
use vstd::prelude::*;
use crate::token::Lexeme;
use crate::model::{
    byte_at, is_digit, is_letter, is_whitespace, lemma_next_lexeme_advances,
    lemma_span_end_bounds, lexeme_at, next_lexeme, single_byte_lexeme, span_end, tokens,
    tokens_from, ByteClass, EQUALS_SIGN, EXCLAMATION,
};

verus! {

/// The cursor after `n` requests for a token, starting from `pos`.
pub open spec fn cursor_after(s: Seq<u8>, pos: int, n: nat) -> int
    decreases n,
{
    if n == 0 {
        pos
    } else {
        next_lexeme(s, cursor_after(s, pos, (n - 1) as nat)).1
    }
}

/// Once a request yields `EOF`, the cursor stays put and so does the token.
proof fn lemma_eof_is_fixed(s: Seq<u8>, q: int)
    requires
        0 <= q <= s.len(),
        next_lexeme(s, q).0 is EOF,
    ensures
        next_lexeme(s, next_lexeme(s, q).1) == next_lexeme(s, q),
{
    lemma_next_lexeme_advances(s, q);
    let p = next_lexeme(s, q).1;
    lemma_span_end_bounds(s, q, ByteClass::Whitespace);
    assert(span_end(s, p, ByteClass::Whitespace) == p);
}

/// After `n` requests either the cursor has moved at least `n` bytes, or the
/// next request yields `EOF`.
proof fn lemma_cursor_progress(s: Seq<u8>, pos: int, n: nat)
    requires
        0 <= pos <= s.len(),
    ensures
        pos <= cursor_after(s, pos, n) <= s.len(),
        cursor_after(s, pos, n) >= pos + n || next_lexeme(s, cursor_after(s, pos, n)).0 is EOF,
    decreases n,
{
    if n > 0 {
        let m = (n - 1) as nat;
        lemma_cursor_progress(s, pos, m);
        let q = cursor_after(s, pos, m);
        lemma_next_lexeme_advances(s, q);
        if next_lexeme(s, q).0 is EOF {
            lemma_eof_is_fixed(s, q);
        } else {
            lemma_span_end_bounds(s, q, ByteClass::Whitespace);
            assert(byte_at(s, q) != 0);
        }
    }
}

/// Termination: from any cursor in the input, the request after at most
/// as many requests as there are bytes left yields `EOF`; and every request
/// after one that yields `EOF` yields `EOF` again.
pub proof fn law_scanning_ends(s: Seq<u8>, pos: int)
    requires
        0 <= pos <= s.len(),
    ensures
        next_lexeme(s, cursor_after(s, pos, (s.len() - pos) as nat)).0 is EOF,
        forall|n: nat, m: nat|
            #![trigger cursor_after(s, pos, n), cursor_after(s, pos, n + m)]
            next_lexeme(s, cursor_after(s, pos, n)).0 is EOF
                ==> next_lexeme(s, cursor_after(s, pos, n + m)).0 is EOF,
{
    let n0 = (s.len() - pos) as nat;
    lemma_cursor_progress(s, pos, n0);
    if !(next_lexeme(s, cursor_after(s, pos, n0)).0 is EOF) {
        let q = cursor_after(s, pos, n0);
        assert(q == s.len());
        lemma_span_end_bounds(s, q, ByteClass::Whitespace);
        assert(span_end(s, q, ByteClass::Whitespace) == q);
    }
    assert forall|n: nat, m: nat|
        #![trigger cursor_after(s, pos, n), cursor_after(s, pos, n + m)]
        next_lexeme(s, cursor_after(s, pos, n)).0 is EOF
            implies next_lexeme(s, cursor_after(s, pos, n + m)).0 is EOF by {
        lemma_eof_stays(s, pos, n, m);
    }
}

proof fn lemma_eof_stays(s: Seq<u8>, pos: int, n: nat, m: nat)
    requires
        0 <= pos <= s.len(),
        next_lexeme(s, cursor_after(s, pos, n)).0 is EOF,
    ensures
        next_lexeme(s, cursor_after(s, pos, n + m)) == next_lexeme(s, cursor_after(s, pos, n)),
    decreases m,
{
    if m > 0 {
        let m1 = (m - 1) as nat;
        lemma_eof_stays(s, pos, n, m1);
        lemma_cursor_progress(s, pos, n);
        lemma_eof_is_fixed(s, cursor_after(s, pos, n));
        assert((n + m - 1) as nat == n + m1);
        assert(cursor_after(s, pos, n + m) == next_lexeme(s, cursor_after(s, pos, n + m1)).1);
    }
}

/// Whether `k` lies in a gap between tokens of `s` when scanning from cursor
/// `c`: in the whitespace before the next token, or in a later gap.
pub open spec fn gap_from(s: Seq<u8>, c: int, k: int) -> bool
    decreases s.len() - c,
{
    if 0 <= c <= s.len() {
        let p = span_end(s, c, ByteClass::Whitespace);
        if c <= k <= p {
            true
        } else if byte_at(s, p) != 0 {
            proof {
                lemma_next_lexeme_advances(s, c);
            }
            gap_from(s, next_lexeme(s, c).1, k)
        } else {
            false
        }
    } else {
        false
    }
}

/// Whether `k` lies between two tokens of `s`, before the first or after
/// the last: a place where whitespace separates or may separate tokens.
pub open spec fn between_tokens(s: Seq<u8>, k: int) -> bool {
    gap_from(s, 0, k)
}

/// `t` from `a` on reads as `s` from `b` on.
spec fn same_from(t: Seq<u8>, a: int, s: Seq<u8>, b: int) -> bool {
    &&& 0 <= a
    &&& 0 <= b
    &&& t.len() - a == s.len() - b
    &&& forall|i: int| a <= i ==> #[trigger] byte_at(t, i) == byte_at(s, i - a + b)
}

proof fn lemma_span_same_from(t: Seq<u8>, a: int, s: Seq<u8>, b: int, i: int, c: ByteClass)
    requires
        same_from(t, a, s, b),
        a <= i,
    ensures
        span_end(t, i, c) - a == span_end(s, i - a + b, c) - b,
    decreases t.len() - i,
{
    assert(byte_at(t, i) == byte_at(s, i - a + b));
    if 0 <= i < t.len() && c.contains(t[i]) {
        lemma_span_same_from(t, a, s, b, i + 1, c);
    }
}

proof fn lemma_lexeme_same_from(t: Seq<u8>, a: int, s: Seq<u8>, b: int, i: int)
    requires
        same_from(t, a, s, b),
        a <= i,
    ensures
        lexeme_at(t, i).0 == lexeme_at(s, i - a + b).0,
        lexeme_at(t, i).1 - a == lexeme_at(s, i - a + b).1 - b,
{
    let j = i - a + b;
    assert(byte_at(t, i) == byte_at(s, j));
    assert(byte_at(t, i + 1) == byte_at(s, j + 1));
    if i < t.len() {
        lemma_span_same_from(t, a, s, b, i, ByteClass::Digit);
        lemma_span_same_from(t, a, s, b, i, ByteClass::Letter);
        lemma_span_end_bounds(t, i, ByteClass::Digit);
        lemma_span_end_bounds(t, i, ByteClass::Letter);
        let ed = span_end(t, i, ByteClass::Digit);
        let el = span_end(t, i, ByteClass::Letter);
        assert forall|x: int| i <= x < ed implies t[x] == s[x - a + b] by {
            assert(byte_at(t, x) == byte_at(s, x - a + b));
        }
        assert forall|x: int| i <= x < el implies t[x] == s[x - a + b] by {
            assert(byte_at(t, x) == byte_at(s, x - a + b));
        }
        assert(t.subrange(i, ed) =~= s.subrange(j, ed - a + b));
        assert(t.subrange(i, el) =~= s.subrange(j, el - a + b));
    }
}

proof fn lemma_tokens_same_from(t: Seq<u8>, a: int, s: Seq<u8>, b: int, i: int)
    requires
        same_from(t, a, s, b),
        a <= i <= t.len(),
    ensures
        tokens_from(t, i) == tokens_from(s, i - a + b),
    decreases t.len() - i,
{
    let j = i - a + b;
    lemma_span_same_from(t, a, s, b, i, ByteClass::Whitespace);
    lemma_span_end_bounds(t, i, ByteClass::Whitespace);
    let p = span_end(t, i, ByteClass::Whitespace);
    lemma_lexeme_same_from(t, a, s, b, p);
    lemma_next_lexeme_advances(t, i);
    if !(next_lexeme(t, i).0 is EOF) {
        lemma_tokens_same_from(t, a, s, b, next_lexeme(t, i).1);
    }
}

/// A run of class `c` over `[i, e)` that stops at `e` ends there.
proof fn lemma_span_end_at(t: Seq<u8>, i: int, e: int, c: ByteClass)
    requires
        0 <= i <= e,
        forall|x: int| i <= x < e ==> c.contains(#[trigger] byte_at(t, x)),
        !c.contains(byte_at(t, e)),
    ensures
        span_end(t, i, c) == e,
    decreases e - i,
{
    assert(byte_at(t, i) == 0 ==> !c.contains(byte_at(t, i)));
    if i < e {
        assert(c.contains(byte_at(t, i)));
        lemma_span_end_at(t, i + 1, e, c);
    }
}

/// Skipping from `x` or from a later `y` gives the same next token when the
/// bytes between are whitespace.
proof fn lemma_skip_whitespace_run(s: Seq<u8>, x: int, y: int)
    requires
        0 <= x <= y <= s.len(),
        forall|j: int| x <= j < y ==> is_whitespace(#[trigger] byte_at(s, j)),
    ensures
        tokens_from(s, x) == tokens_from(s, y),
        next_lexeme(s, x) == next_lexeme(s, y),
    decreases y - x,
{
    if x < y {
        assert(is_whitespace(byte_at(s, x)));
        lemma_skip_whitespace_run(s, x + 1, y);
        assert(span_end(s, x, ByteClass::Whitespace) == span_end(s, x + 1, ByteClass::Whitespace));
    }
}

/// The lexeme at `p` reads the bytes up to its end and, at its end, only
/// that the byte there does not continue it: whitespace does not.
proof fn lemma_lexeme_local(s: Seq<u8>, t: Seq<u8>, p: int)
    requires
        0 <= p,
        byte_at(s, p) != 0,
        forall|j: int| p <= j < lexeme_at(s, p).1 ==> #[trigger] byte_at(t, j) == byte_at(s, j),
        byte_at(t, lexeme_at(s, p).1) == byte_at(s, lexeme_at(s, p).1)
            || is_whitespace(byte_at(t, lexeme_at(s, p).1)),
    ensures
        lexeme_at(t, p) == lexeme_at(s, p),
{
    let e = lexeme_at(s, p).1;
    lemma_span_end_bounds(s, p, ByteClass::Digit);
    lemma_span_end_bounds(s, p, ByteClass::Letter);
    reveal_with_fuel(span_end, 2);
    assert(e > p);
    assert(byte_at(t, p) == byte_at(s, p));
    let b = byte_at(s, p);
    if ByteClass::Digit.contains(b) || ByteClass::Letter.contains(b) {
        let c = if ByteClass::Digit.contains(b) { ByteClass::Digit } else { ByteClass::Letter };
        assert forall|x: int| p <= x < e implies c.contains(#[trigger] byte_at(t, x)) by {
            assert(byte_at(t, x) == byte_at(s, x));
        }
        lemma_span_end_at(t, p, e, c);
        assert(byte_at(t, e - 1) != 0);
        assert forall|x: int| p <= x < e implies t[x] == s[x] by {
            assert(byte_at(t, x) == byte_at(s, x));
        }
        assert(t.subrange(p, e) =~= s.subrange(p, e));
    } else if (b == EQUALS_SIGN || b == EXCLAMATION) && byte_at(s, p + 1) == EQUALS_SIGN {
        assert(byte_at(t, p + 1) == byte_at(s, p + 1));
    }
}

/// Inserting whitespace at `k`, in a gap reachable from cursor `c`, leaves
/// the tokens from `c` unchanged.
proof fn lemma_insert_in_gap(s: Seq<u8>, c: int, k: int, w: u8)
    requires
        0 <= c <= s.len(),
        is_whitespace(w),
        gap_from(s, c, k),
    ensures
        tokens_from(s.insert(k, w), c) == tokens_from(s, c),
    decreases s.len() - c,
{
    let t = s.insert(k, w);
    let p = span_end(s, c, ByteClass::Whitespace);
    lemma_span_end_bounds(s, c, ByteClass::Whitespace);
    lemma_gap_bounds(s, c, k);
    assert(t.len() == s.len() + 1);
    assert forall|j: int| j < k implies #[trigger] byte_at(t, j) == byte_at(s, j) by {}
    assert(byte_at(t, k) == w);
    if c <= k <= p {
        assert forall|j: int| c <= j < k implies is_whitespace(#[trigger] byte_at(s, j)) by {}
        lemma_skip_whitespace_run(s, c, k);
        assert forall|j: int| c <= j < k + 1 implies is_whitespace(#[trigger] byte_at(t, j)) by {
            if j < k {
                assert(byte_at(t, j) == byte_at(s, j));
            }
        }
        lemma_skip_whitespace_run(t, c, k + 1);
        assert forall|i: int| k + 1 <= i implies #[trigger] byte_at(t, i) == byte_at(s, i - (k + 1) + k) by {}
        lemma_tokens_same_from(t, k + 1, s, k, k + 1);
    } else {
        lemma_next_lexeme_advances(s, c);
        let e = next_lexeme(s, c).1;
        lemma_gap_bounds(s, e, k);
        assert(e <= k);
        assert forall|x: int| c <= x < p implies ByteClass::Whitespace.contains(#[trigger] byte_at(t, x)) by {
            assert(byte_at(t, x) == byte_at(s, x));
        }
        assert(byte_at(t, p) == byte_at(s, p));
        lemma_span_end_at(t, c, p, ByteClass::Whitespace);
        assert forall|j: int| p <= j < e implies #[trigger] byte_at(t, j) == byte_at(s, j) by {}
        if e < k {
            assert(byte_at(t, e) == byte_at(s, e));
        }
        lemma_lexeme_local(s, t, p);
        assert(next_lexeme(t, c) == next_lexeme(s, c));
        lemma_insert_in_gap(s, e, k, w);
    }
}

/// A gap reachable from cursor `c` lies at or after `c`, within the input.
proof fn lemma_gap_bounds(s: Seq<u8>, c: int, k: int)
    requires
        gap_from(s, c, k),
    ensures
        c <= k <= s.len(),
    decreases s.len() - c,
{
    lemma_span_end_bounds(s, c, ByteClass::Whitespace);
    let p = span_end(s, c, ByteClass::Whitespace);
    if !(c <= k <= p) {
        lemma_next_lexeme_advances(s, c);
        lemma_gap_bounds(s, next_lexeme(s, c).1, k);
    }
}

/// Whitespace invariance: inserting a space, tab, newline or carriage
/// return between two tokens, before the first or after the last, leaves
/// the token sequence unchanged.
pub proof fn law_whitespace_insertion(s: Seq<u8>, k: int, w: u8)
    requires
        is_whitespace(w),
        between_tokens(s, k),
    ensures
        tokens(s.insert(k, w)) == tokens(s),
{
    lemma_insert_in_gap(s, 0, k, w);
}

/// Illegal-byte resilience: a byte that starts no token yields `ILLEGAL`,
/// and scanning goes on with the byte after it.
pub proof fn law_illegal_byte_skipped(s: Seq<u8>, c: int)
    requires
        0 <= c <= s.len(),
        byte_at(s, span_end(s, c, ByteClass::Whitespace)) != 0,
        !is_digit(byte_at(s, span_end(s, c, ByteClass::Whitespace))),
        !is_letter(byte_at(s, span_end(s, c, ByteClass::Whitespace))),
        single_byte_lexeme(byte_at(s, span_end(s, c, ByteClass::Whitespace))) is ILLEGAL,
    ensures
        tokens_from(s, c) == seq![Lexeme::ILLEGAL] + tokens_from(s, span_end(s, c, ByteClass::Whitespace) + 1),
{
}

} // verus!
