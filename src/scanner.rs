use vstd::prelude::*;

use crate::model::{lemma_lex_at_bounds, lemma_next_bounds, lemma_skip_spaces_bounds, next, skip_spaces, digits_end, is_digit, is_letter, is_space, keyword, lex_at, punct, string_end, word_end};
use crate::token::{LexError, Token, TokenKind};

verus! {

fn space_byte(b: u8) -> (r: bool)
    ensures
        r == is_space(b),
{
    b == 32 || b == 9 || b == 10 || b == 13
}

fn letter_byte(b: u8) -> (r: bool)
    ensures
        r == is_letter(b),
{
    (97 <= b && b <= 122) || (65 <= b && b <= 90) || b == 95
}

fn digit_byte(b: u8) -> (r: bool)
    ensures
        r == is_digit(b),
{
    48 <= b && b <= 57
}

fn punct_kind(b: u8) -> (r: Option<TokenKind>)
    ensures
        r == punct(b),
{
    if b == 40 {
        Some(TokenKind::Lparen)
    } else if b == 41 {
        Some(TokenKind::Rparen)
    } else if b == 123 {
        Some(TokenKind::Lbrace)
    } else if b == 125 {
        Some(TokenKind::Rbrace)
    } else if b == 58 {
        Some(TokenKind::Colon)
    } else if b == 44 {
        Some(TokenKind::Comma)
    } else if b == 59 {
        Some(TokenKind::Semicolon)
    } else if b == 43 {
        Some(TokenKind::Plus)
    } else if b == 42 {
        Some(TokenKind::Star)
    } else if b == 61 {
        Some(TokenKind::Eq)
    } else {
        None
    }
}

/// The kind of the word `s[p..e]`.
fn keyword_kind(s: &[u8], p: usize, e: usize) -> (r: TokenKind)
    requires
        p <= e <= s@.len(),
    ensures
        r == keyword(s@.subrange(p as int, e as int)),
{
    let n = e - p;
    if n == 2 {
        let (a, b) = (s[p], s[p + 1]);
        if a == 102 && b == 110 {
            TokenKind::Fn
        } else if a == 105 && b == 56 {
            TokenKind::I8
        } else {
            TokenKind::Identifier
        }
    } else if n == 3 {
        let (a, b, c) = (s[p], s[p + 1], s[p + 2]);
        if a == 108 && b == 101 && c == 116 {
            TokenKind::Let
        } else if a == 114 && b == 101 && c == 116 {
            TokenKind::Ret
        } else if a == 105 && b == 49 && c == 54 {
            TokenKind::I16
        } else if a == 105 && b == 51 && c == 50 {
            TokenKind::I32
        } else if a == 105 && b == 54 && c == 52 {
            TokenKind::I64
        } else {
            TokenKind::Identifier
        }
    } else {
        TokenKind::Identifier
    }
}

/// The end of the run of digits in `s` that starts at `i`.
fn scan_digits(s: &[u8], i: usize) -> (r: usize)
    requires
        i <= s@.len(),
    ensures
        r == digits_end(s@, i as int),
        i <= r <= s@.len(),
{
    let mut j = i;
    while j < s.len() && digit_byte(s[j])
        invariant
            i <= j <= s@.len(),
            digits_end(s@, j as int) == digits_end(s@, i as int),
        decreases s@.len() - j,
    {
        j = j + 1;
    }
    j
}

/// `r` is the outcome `l` of a scan at `p`, with the lexeme's length in place
/// of its end.
pub open spec fn lexed(l: Result<(TokenKind, int), LexError>, r: Result<(TokenKind, usize), LexError>, p: int) -> bool {
    match l {
        Ok((k, e)) => r is Ok && r->Ok_0.0 == k && p + r->Ok_0.1 == e,
        Err(x) => r is Err && r->Err_0 == x,
    }
}

/// A scanner over borrowed source bytes. `end` is the cursor; after a call of
/// `parse_token`, `[start, end)` is the span of the token `token`.
pub struct Parser<'a> {
    pub text: &'a [u8],
    pub start: usize,
    pub end: usize,
    pub token: TokenKind,
}

impl<'a> Parser<'a> {
    pub open spec fn wf(&self) -> bool {
        self.start <= self.end <= self.text@.len()
    }

    /// A scanner at the start of `text`.
    pub fn new(text: &'a [u8]) -> (r: Self)
        ensures
            r.text@ == text@,
            r.start == 0,
            r.end == 0,
            r.token == TokenKind::EndOfInput,
            r.wf(),
    {
        Parser { text: text, start: 0, end: 0, token: TokenKind::EndOfInput }
    }

    /// Scans the word at the cursor: its kind and its length.
    pub fn parse_ident(&self) -> (r: (TokenKind, usize))
        requires
            self.end < self.text@.len(),
            is_letter(self.text@[self.end as int]),
        ensures
            lexed(lex_at(self.text@, self.end as int), Ok(r), self.end as int),
    {
        let s = self.text;
        let p = self.end;
        let mut j = p + 1;
        while j < s.len() && (letter_byte(s[j]) || digit_byte(s[j]))
            invariant
                p < j <= s@.len(),
                word_end(s@, j as int) == word_end(s@, p as int),
            decreases s@.len() - j,
        {
            j = j + 1;
        }
        (keyword_kind(s, p, j), j - p)
    }

    /// Scans the number at the cursor: an integer, or a float where a `.` and a
    /// digit follow the integer part. A `.` with no digit after it is an error.
    pub fn parse_integer(&self) -> (r: Result<(TokenKind, usize), LexError>)
        requires
            self.end < self.text@.len(),
            is_digit(self.text@[self.end as int]),
        ensures
            lexed(lex_at(self.text@, self.end as int), r, self.end as int),
    {
        let s = self.text;
        let p = self.end;
        let e = scan_digits(s, p);
        if e < s.len() && s[e] == 46 {
            if e + 1 < s.len() && digit_byte(s[e + 1]) {
                let f = scan_digits(s, e + 1);
                Ok((TokenKind::Float, f - p))
            } else {
                Err(LexError::MalformedNumber { start_offset: p })
            }
        } else {
            Ok((TokenKind::Integer, e - p))
        }
    }

    /// Scans the string literal at the cursor, up to its closing quote.
    pub fn parse_string(&self) -> (r: Result<(TokenKind, usize), LexError>)
        requires
            self.end < self.text@.len(),
            self.text@[self.end as int] == 34,
        ensures
            lexed(lex_at(self.text@, self.end as int), r, self.end as int),
    {
        let s = self.text;
        let p = self.end;
        let n = s.len();
        let mut j = p + 1;
        while j < n
            invariant
                p < j <= n + 1,
                n == s@.len(),
                s@ == self.text@,
                p == self.end,
                s@[p as int] == 34,
                string_end(s@, j as int) == string_end(s@, p + 1),
            decreases s@.len() + 1 - j,
        {
            if s[j] == 34 {
                return Ok((TokenKind::String, j + 1 - p));
            } else if s[j] == 92 {
                if j + 1 < n {
                    j = j + 2;
                } else {
                    return Err(LexError::UnterminatedString { start_offset: p });
                }
            } else {
                j = j + 1;
            }
        }
        Err(LexError::UnterminatedString { start_offset: p })
    }

    /// Scans the lexeme at the cursor, which holds no space.
    fn parse_lexeme(&self) -> (r: Result<(TokenKind, usize), LexError>)
        requires
            self.end < self.text@.len(),
            !is_space(self.text@[self.end as int]),
        ensures
            lexed(lex_at(self.text@, self.end as int), r, self.end as int),
    {
        let s = self.text;
        let p = self.end;
        let n = s.len();
        let b = s[p];
        if letter_byte(b) {
            Ok(self.parse_ident())
        } else if digit_byte(b) {
            self.parse_integer()
        } else if b == 34 {
            self.parse_string()
        } else if b == 45 {
            if p + 1 < n && s[p + 1] == 62 {
                Ok((TokenKind::Arrow, 2))
            } else {
                Ok((TokenKind::Minus, 1))
            }
        } else if b == 46 {
            if n - p > 2 && s[p + 1] == 46 && s[p + 2] == 46 {
                Ok((TokenKind::Ellipsis, 3))
            } else {
                Ok((TokenKind::Dot, 1))
            }
        } else {
            match punct_kind(b) {
                Some(k) => Ok((k, 1)),
                None => Err(LexError::UnrecognizedCharacter { offset: p, byte: b }),
            }
        }
    }

    /// Skips spaces, then scans one token: its kind goes to `token` and its
    /// span to `[start, end)`. At the end of the input the token is
    /// `EndOfInput`, with an empty span at the end, however often it is asked
    /// for. On an error, `start` and `end` stand where the token would have
    /// started and `token` is kept.
    pub fn parse_token(&mut self) -> (r: Result<(), LexError>)
        requires
            old(self).wf(),
        ensures
            final(self).wf(),
            final(self).text@ == old(self).text@,
            old(self).end <= final(self).start,
            match next(old(self).text@, old(self).end as int) {
                Ok((k, a, b)) => {
                    &&& r is Ok
                    &&& final(self).token == k
                    &&& final(self).start == a
                    &&& final(self).end == b
                },
                Err(x) => {
                    &&& r == Err::<(), LexError>(x)
                    &&& final(self).token == old(self).token
                    &&& final(self).start == skip_spaces(old(self).text@, old(self).end as int)
                    &&& final(self).end == final(self).start
                },
            },
    {
        let s = self.text;
        let n = s.len();
        let c = self.end;
        let mut j = c;
        while j < n && space_byte(s[j])
            invariant
                c <= j <= n,
                n == s@.len(),
                skip_spaces(s@, j as int) == skip_spaces(s@, c as int),
            decreases n - j,
        {
            j = j + 1;
        }
        proof {
            lemma_skip_spaces_bounds(s@, c as int);
            lemma_next_bounds(s@, c as int);
        }
        if j >= n {
            self.token = TokenKind::EndOfInput;
            self.start = n;
            self.end = n;
            return Ok(());
        }
        self.start = j;
        self.end = j;
        proof {
            lemma_lex_at_bounds(s@, j as int);
        }
        match self.parse_lexeme() {
            Ok((k, len)) => {
                self.token = k;
                self.end = j + len;
                Ok(())
            },
            Err(x) => Err(x),
        }
    }

    /// Scans one token as `parse_token` does, and returns it with its span.
    pub fn next_token(&mut self) -> (r: Result<Token, LexError>)
        requires
            old(self).wf(),
        ensures
            final(self).wf(),
            final(self).text@ == old(self).text@,
            old(self).end <= final(self).start,
            match next(old(self).text@, old(self).end as int) {
                Ok((k, a, b)) => {
                    &&& r == Ok::<Token, LexError>(Token { kind: k, start: a as usize, end: b as usize })
                    &&& final(self).start == a
                    &&& final(self).end == b
                },
                Err(x) => {
                    &&& r == Err::<Token, LexError>(x)
                    &&& final(self).start == skip_spaces(old(self).text@, old(self).end as int)
                    &&& final(self).end == final(self).start
                },
            },
    {
        match self.parse_token() {
            Ok(()) => Ok(Token { kind: self.token, start: self.start, end: self.end }),
            Err(x) => Err(x),
        }
    }

    /// Moves the cursor one byte on, if the input has one left: how a caller
    /// resumes after an error.
    pub fn skip_byte(&mut self)
        requires
            old(self).wf(),
        ensures
            final(self).wf(),
            final(self).text@ == old(self).text@,
            final(self).token == old(self).token,
            final(self).end == (if old(self).end < old(self).text@.len() {
                old(self).end + 1
            } else {
                old(self).end as int
            }),
            final(self).start == final(self).end,
    {
        if self.end < self.text.len() {
            self.end = self.end + 1;
        }
        self.start = self.end;
    }
}

} // verus!
