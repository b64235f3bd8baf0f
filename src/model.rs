use vstd::prelude::*;

use crate::token::{LexError, TokenKind};

verus! {

/// Space, tab, newline or carriage return.
pub open spec fn is_space(b: u8) -> bool {
    b == 32 || b == 9 || b == 10 || b == 13
}

/// An ASCII letter or an underscore: the bytes that may start a word.
pub open spec fn is_letter(b: u8) -> bool {
    (97 <= b && b <= 122) || (65 <= b && b <= 90) || b == 95
}

pub open spec fn is_digit(b: u8) -> bool {
    48 <= b && b <= 57
}

/// The bytes that may continue a word.
pub open spec fn is_word(b: u8) -> bool {
    is_letter(b) || is_digit(b)
}

/// The first position at or after `i` that does not hold a space.
pub open spec fn skip_spaces(s: Seq<u8>, i: int) -> int
    decreases s.len() - i,
{
    if 0 <= i < s.len() && is_space(s[i]) {
        skip_spaces(s, i + 1)
    } else {
        i
    }
}

/// The end of the maximal run of word bytes that starts at `i`.
pub open spec fn word_end(s: Seq<u8>, i: int) -> int
    decreases s.len() - i,
{
    if 0 <= i < s.len() && is_word(s[i]) {
        word_end(s, i + 1)
    } else {
        i
    }
}

/// The end of the maximal run of digits that starts at `i`.
pub open spec fn digits_end(s: Seq<u8>, i: int) -> int
    decreases s.len() - i,
{
    if 0 <= i < s.len() && is_digit(s[i]) {
        digits_end(s, i + 1)
    } else {
        i
    }
}

/// Where a string literal whose body starts at `i` ends, just past its closing
/// quote; `None` where the input ends first. A backslash escapes the next byte.
pub open spec fn string_end(s: Seq<u8>, i: int) -> Option<int>
    decreases s.len() - i,
{
    if i < 0 || i >= s.len() {
        None
    } else if s[i] == 34 {
        Some(i + 1)
    } else if s[i] == 92 {
        if i + 1 < s.len() {
            string_end(s, i + 2)
        } else {
            None
        }
    } else {
        string_end(s, i + 1)
    }
}

pub open spec fn word_is2(w: Seq<u8>, a: u8, b: u8) -> bool {
    w.len() == 2 && w[0] == a && w[1] == b
}

pub open spec fn word_is3(w: Seq<u8>, a: u8, b: u8, c: u8) -> bool {
    w.len() == 3 && w[0] == a && w[1] == b && w[2] == c
}

/// The kind of a word: a keyword where it spells one exactly, else an identifier.
pub open spec fn keyword(w: Seq<u8>) -> TokenKind {
    if word_is2(w, 102, 110) {
        TokenKind::Fn
    } else if word_is3(w, 108, 101, 116) {
        TokenKind::Let
    } else if word_is3(w, 114, 101, 116) {
        TokenKind::Ret
    } else if word_is2(w, 105, 56) {
        TokenKind::I8
    } else if word_is3(w, 105, 49, 54) {
        TokenKind::I16
    } else if word_is3(w, 105, 51, 50) {
        TokenKind::I32
    } else if word_is3(w, 105, 54, 52) {
        TokenKind::I64
    } else {
        TokenKind::Identifier
    }
}

/// The kind of a byte that is a token by itself, and never starts a longer one.
pub open spec fn punct(b: u8) -> Option<TokenKind> {
    if b == 40 {
        Some(TokenKind::Lparen)
    } else if b == 41 {
        Some(TokenKind::Rparen)
    } else if b == 123 {
        Some(TokenKind::Lbrace)
    } else if b == 125 {
        Some(TokenKind::Rbrace)
    } else if b == 58 {
        Some(TokenKind::Colon)
    } else if b == 44 {
        Some(TokenKind::Comma)
    } else if b == 59 {
        Some(TokenKind::Semicolon)
    } else if b == 43 {
        Some(TokenKind::Plus)
    } else if b == 42 {
        Some(TokenKind::Star)
    } else if b == 61 {
        Some(TokenKind::Eq)
    } else {
        None
    }
}

/// The lexeme that starts at `p`, a position that holds no space: its kind and
/// where it ends, or the error found there.
pub open spec fn lex_at(s: Seq<u8>, p: int) -> Result<(TokenKind, int), LexError>
    recommends
        0 <= p < s.len(),
{
    let b = s[p];
    if is_letter(b) {
        let e = word_end(s, p);
        Ok((keyword(s.subrange(p, e)), e))
    } else if is_digit(b) {
        let e = digits_end(s, p);
        if e < s.len() && s[e] == 46 {
            if e + 1 < s.len() && is_digit(s[e + 1]) {
                Ok((TokenKind::Float, digits_end(s, e + 1)))
            } else {
                Err(LexError::MalformedNumber { start_offset: p as usize })
            }
        } else {
            Ok((TokenKind::Integer, e))
        }
    } else if b == 34 {
        match string_end(s, p + 1) {
            Some(e) => Ok((TokenKind::String, e)),
            None => Err(LexError::UnterminatedString { start_offset: p as usize }),
        }
    } else if b == 45 {
        if p + 1 < s.len() && s[p + 1] == 62 {
            Ok((TokenKind::Arrow, p + 2))
        } else {
            Ok((TokenKind::Minus, p + 1))
        }
    } else if b == 46 {
        if p + 2 < s.len() && s[p + 1] == 46 && s[p + 2] == 46 {
            Ok((TokenKind::Ellipsis, p + 3))
        } else {
            Ok((TokenKind::Dot, p + 1))
        }
    } else {
        match punct(b) {
            Some(k) => Ok((k, p + 1)),
            None => Err(LexError::UnrecognizedCharacter { offset: p as usize, byte: b }),
        }
    }
}

/// What one scan from cursor `c` yields: the kind of the next token with its
/// span `[start, end)`, or the error found where the token would start. Spaces
/// before the token are skipped; at the end of the input the token is
/// `EndOfInput`, with an empty span at the end.
pub open spec fn next(s: Seq<u8>, c: int) -> Result<(TokenKind, int, int), LexError> {
    let p = skip_spaces(s, c);
    if p >= s.len() {
        Ok((TokenKind::EndOfInput, s.len() as int, s.len() as int))
    } else {
        match lex_at(s, p) {
            Ok((k, e)) => Ok((k, p, e)),
            Err(x) => Err(x),
        }
    }
}

pub proof fn lemma_skip_spaces_bounds(s: Seq<u8>, i: int)
    requires
        0 <= i <= s.len(),
    ensures
        i <= skip_spaces(s, i) <= s.len(),
        forall|j: int| i <= j < skip_spaces(s, i) ==> is_space(#[trigger] s[j]),
        skip_spaces(s, i) < s.len() ==> !is_space(s[skip_spaces(s, i)]),
    decreases s.len() - i,
{
    if i < s.len() && is_space(s[i]) {
        lemma_skip_spaces_bounds(s, i + 1);
    }
}

pub proof fn lemma_word_end_bounds(s: Seq<u8>, i: int)
    requires
        0 <= i <= s.len(),
    ensures
        i <= word_end(s, i) <= s.len(),
    decreases s.len() - i,
{
    if i < s.len() && is_word(s[i]) {
        lemma_word_end_bounds(s, i + 1);
    }
}

pub proof fn lemma_digits_end_bounds(s: Seq<u8>, i: int)
    requires
        0 <= i <= s.len(),
    ensures
        i <= digits_end(s, i) <= s.len(),
    decreases s.len() - i,
{
    if i < s.len() && is_digit(s[i]) {
        lemma_digits_end_bounds(s, i + 1);
    }
}

pub proof fn lemma_string_end_bounds(s: Seq<u8>, i: int)
    requires
        0 <= i,
    ensures
        string_end(s, i) matches Some(e) ==> i < e <= s.len(),
    decreases s.len() - i,
{
    if 0 <= i < s.len() && s[i] != 34 {
        if s[i] == 92 {
            if i + 1 < s.len() {
                lemma_string_end_bounds(s, i + 2);
            }
        } else {
            lemma_string_end_bounds(s, i + 1);
        }
    }
}

/// A lexeme is never empty, never runs past the input, and is never the end
/// of input.
pub proof fn lemma_lex_at_bounds(s: Seq<u8>, p: int)
    requires
        0 <= p < s.len(),
    ensures
        lex_at(s, p) matches Ok((k, e)) ==> p < e <= s.len() && k != TokenKind::EndOfInput,
{
    lemma_word_end_bounds(s, p + 1);
    lemma_digits_end_bounds(s, p + 1);
    lemma_digits_end_bounds(s, p);
    let e = digits_end(s, p);
    if e + 1 < s.len() {
        lemma_digits_end_bounds(s, e + 1);
    }
    lemma_string_end_bounds(s, p + 1);
}

/// One scan from a cursor within the input stays within it: the skipped bytes
/// are spaces, the span starts at or after the cursor, and it is empty exactly
/// for the end of input, which lies at the end of the input.
pub proof fn lemma_next_bounds(s: Seq<u8>, c: int)
    requires
        0 <= c <= s.len(),
    ensures
        next(s, c) matches Ok((k, a, b)) ==> {
            &&& c <= a <= b <= s.len()
            &&& (forall|j: int| c <= j < a ==> is_space(#[trigger] s[j]))
            &&& (k == TokenKind::EndOfInput <==> a == b)
            &&& (k == TokenKind::EndOfInput ==> b == s.len())
        },
        next(s, c) is Err ==> skip_spaces(s, c) < s.len(),
{
    lemma_skip_spaces_bounds(s, c);
    let p = skip_spaces(s, c);
    if p < s.len() {
        lemma_lex_at_bounds(s, p);
    }
}

} // verus!
