use vstd::prelude::*;

use crate::model::{
    digits_end, is_digit, is_letter, is_space, is_word, lemma_digits_end_bounds, lemma_string_end_bounds, lemma_lex_at_bounds, lemma_next_bounds,
    lemma_skip_spaces_bounds, lemma_word_end_bounds, lex_at, next, skip_spaces, string_end,
    word_end,
};
use crate::token::TokenKind;

verus! {

/// The tokens that repeated scans from cursor `c` yield, each with its span: up
/// to and including `EndOfInput`, or up to the first error.
pub open spec fn tokens(s: Seq<u8>, c: int) -> Seq<(TokenKind, int, int)>
    decreases s.len() - c,
{
    match next(s, c) {
        Ok((k, a, b)) => {
            if k != TokenKind::EndOfInput && c < b <= s.len() {
                seq![(k, a, b)] + tokens(s, b)
            } else {
                seq![(k, a, b)]
            }
        },
        Err(_) => seq![],
    }
}

/// The kinds of a sequence of tokens.
pub open spec fn kinds(t: Seq<(TokenKind, int, int)>) -> Seq<TokenKind> {
    t.map_values(|x: (TokenKind, int, int)| x.0)
}

/// The spans of the tokens scanned from cursor `c` lie within `[c, len)`, in
/// order, each ending at or before the next one starts: they never overlap.
pub proof fn lemma_spans_ordered(s: Seq<u8>, c: int)
    requires
        0 <= c <= s.len(),
    ensures
        forall|i: int|
            0 <= i < tokens(s, c).len() ==> c <= #[trigger] tokens(s, c)[i].1 <= tokens(s, c)[i].2
                <= s.len(),
        forall|i: int, j: int|
            0 <= i < j < tokens(s, c).len() ==> #[trigger] tokens(s, c)[i].2 <= #[trigger] tokens(
                s,
                c,
            )[j].1,
    decreases s.len() - c,
{
    lemma_next_bounds(s, c);
    if let Ok((k, a, b)) = next(s, c) {
        if k != TokenKind::EndOfInput && c < b <= s.len() {
            lemma_spans_ordered(s, b);
            let t = tokens(s, c);
            let rest = tokens(s, b);
            assert(t == seq![(k, a, b)] + rest);
            assert forall|i: int| 0 <= i < t.len() implies c <= #[trigger] t[i].1 <= t[i].2
                <= s.len() by {
                if i > 0 {
                    assert(t[i] == rest[i - 1]);
                }
            }
            assert forall|i: int, j: int| 0 <= i < j < t.len() implies #[trigger] t[i].2
                <= #[trigger] t[j].1 by {
                assert(t[j] == rest[j - 1]);
                if i > 0 {
                    assert(t[i] == rest[i - 1]);
                }
            }
        }
    }
}

/// Once the end of input is reached it stays reached: the token is
/// `EndOfInput` with the empty span at the end, and a scan from there yields
/// the same again.
pub proof fn lemma_end_is_terminal(s: Seq<u8>, c: int)
    requires
        0 <= c <= s.len(),
        next(s, c) matches Ok((k, _, _)) && k == TokenKind::EndOfInput,
    ensures
        next(s, c) == Ok::<(TokenKind, int, int), crate::token::LexError>(
            (TokenKind::EndOfInput, s.len() as int, s.len() as int),
        ),
        next(s, s.len() as int) == Ok::<(TokenKind, int, int), crate::token::LexError>(
            (TokenKind::EndOfInput, s.len() as int, s.len() as int),
        ),
{
    lemma_next_bounds(s, c);
    lemma_skip_spaces_bounds(s, c);
    if skip_spaces(s, c) < s.len() {
        lemma_lex_at_bounds(s, skip_spaces(s, c));
    }
}

/// `s` from `i` on and `t` from `j` on hold the same bytes.
pub open spec fn same_from(s: Seq<u8>, i: int, t: Seq<u8>, j: int) -> bool {
    &&& 0 <= i <= s.len()
    &&& 0 <= j <= t.len()
    &&& s.len() - i == t.len() - j
    &&& forall|k: int| 0 <= k < s.len() - i ==> #[trigger] s[i + k] == t[j + k]
}

proof fn lemma_same_from_step(s: Seq<u8>, i: int, t: Seq<u8>, j: int, d: int)
    requires
        same_from(s, i, t, j),
        0 <= d <= s.len() - i,
    ensures
        same_from(s, i + d, t, j + d),
        d < s.len() - i ==> s[i + d] == t[j + d],
{
    assert forall|k: int| 0 <= k < s.len() - (i + d) implies #[trigger] s[i + d + k] == t[j + d + k] by {
        assert(s[i + (d + k)] == t[j + (d + k)]);
    }
    if d < s.len() - i {
        assert(s[i + d] == t[j + d]);
    }
}

proof fn lemma_skip_spaces_shift(s: Seq<u8>, i: int, t: Seq<u8>, j: int)
    requires
        same_from(s, i, t, j),
    ensures
        skip_spaces(s, i) - i == skip_spaces(t, j) - j,
    decreases s.len() - i,
{
    if i < s.len() {
        lemma_same_from_step(s, i, t, j, 1);
        lemma_same_from_step(s, i, t, j, 0);
        lemma_skip_spaces_shift(s, i + 1, t, j + 1);
    }
}

proof fn lemma_word_end_shift(s: Seq<u8>, i: int, t: Seq<u8>, j: int)
    requires
        same_from(s, i, t, j),
    ensures
        word_end(s, i) - i == word_end(t, j) - j,
    decreases s.len() - i,
{
    if i < s.len() {
        lemma_same_from_step(s, i, t, j, 1);
        lemma_same_from_step(s, i, t, j, 0);
        lemma_word_end_shift(s, i + 1, t, j + 1);
    }
}

proof fn lemma_digits_end_shift(s: Seq<u8>, i: int, t: Seq<u8>, j: int)
    requires
        same_from(s, i, t, j),
    ensures
        digits_end(s, i) - i == digits_end(t, j) - j,
    decreases s.len() - i,
{
    if i < s.len() {
        lemma_same_from_step(s, i, t, j, 1);
        lemma_same_from_step(s, i, t, j, 0);
        lemma_digits_end_shift(s, i + 1, t, j + 1);
    }
}

proof fn lemma_string_end_shift(s: Seq<u8>, i: int, t: Seq<u8>, j: int)
    requires
        same_from(s, i, t, j),
    ensures
        string_end(s, i) is Some <==> string_end(t, j) is Some,
        string_end(s, i) is Some ==> string_end(s, i)->Some_0 - i == string_end(t, j)->Some_0
            - j,
    decreases s.len() - i,
{
    if i < s.len() {
        lemma_same_from_step(s, i, t, j, 0);
        if s[i] != 34 {
            if s[i] == 92 {
                if i + 1 < s.len() {
                    lemma_same_from_step(s, i, t, j, 2);
                    lemma_string_end_shift(s, i + 2, t, j + 2);
                }
            } else {
                lemma_same_from_step(s, i, t, j, 1);
                lemma_string_end_shift(s, i + 1, t, j + 1);
            }
        }
    }
}

proof fn lemma_lex_at_shift(s: Seq<u8>, p: int, t: Seq<u8>, q: int)
    requires
        same_from(s, p, t, q),
        p < s.len(),
    ensures
        lex_at(s, p) is Ok <==> lex_at(t, q) is Ok,
        lex_at(s, p) is Ok ==> lex_at(s, p)->Ok_0.0 == lex_at(t, q)->Ok_0.0 && lex_at(s, p)->Ok_0.1
            - p == lex_at(t, q)->Ok_0.1 - q,
{
    lemma_same_from_step(s, p, t, q, 0);
    lemma_same_from_step(s, p, t, q, 1);
    if p + 2 < s.len() {
        lemma_same_from_step(s, p, t, q, 2);
    }
    lemma_word_end_shift(s, p, t, q);
    lemma_digits_end_shift(s, p, t, q);
    lemma_string_end_shift(s, p + 1, t, q + 1);
    let b = s[p];
    if is_letter(b) {
        let e = word_end(s, p);
        let f = word_end(t, q);
        lemma_word_end_bounds(s, p);
        assert forall|k: int| 0 <= k < e - p implies s.subrange(p, e)[k] == t.subrange(q, f)[k] by {
            lemma_same_from_step(s, p, t, q, k);
        }
        assert(s.subrange(p, e) =~= t.subrange(q, f));
    }
    let e = digits_end(s, p);
    lemma_digits_end_bounds(s, p);
    let d = e - p;
    if e < s.len() {
        lemma_same_from_step(s, p, t, q, d);
        if e + 1 < s.len() {
            lemma_same_from_step(s, p, t, q, d + 1);
            lemma_digits_end_shift(s, e + 1, t, q + d + 1);
        }
    }
}

proof fn lemma_next_shift(s: Seq<u8>, c: int, t: Seq<u8>, d: int)
    requires
        same_from(s, c, t, d),
    ensures
        next(s, c) is Ok <==> next(t, d) is Ok,
        next(s, c) is Ok ==> {
            let (k, a, b) = next(s, c)->Ok_0;
            let (k2, a2, b2) = next(t, d)->Ok_0;
            k == k2 && a - c == a2 - d && b - c == b2 - d
        },
{
    lemma_skip_spaces_bounds(s, c);
    lemma_skip_spaces_bounds(t, d);
    lemma_skip_spaces_shift(s, c, t, d);
    let p = skip_spaces(s, c);
    if p < s.len() {
        lemma_same_from_step(s, c, t, d, p - c);
        lemma_lex_at_shift(s, p, t, d + (p - c));
    }
}

/// What is scanned from a cursor depends on the bytes from the cursor on
/// alone: where two inputs agree from two cursors on, the tokens scanned from
/// there have the same kinds.
pub proof fn lemma_tokens_depend_on_rest(s: Seq<u8>, c: int, t: Seq<u8>, d: int)
    requires
        same_from(s, c, t, d),
    ensures
        kinds(tokens(s, c)) == kinds(tokens(t, d)),
    decreases s.len() - c,
{
    lemma_next_shift(s, c, t, d);
    lemma_next_bounds(s, c);
    lemma_next_bounds(t, d);
    if let Ok((k, a, b)) = next(s, c) {
        let (k2, a2, b2) = next(t, d)->Ok_0;
        if k != TokenKind::EndOfInput && c < b <= s.len() {
            lemma_same_from_step(s, c, t, d, b - c);
            lemma_tokens_depend_on_rest(s, b, t, b2);
            assert(kinds(tokens(s, c)) =~= seq![k] + kinds(tokens(s, b)));
            assert(kinds(tokens(t, d)) =~= seq![k2] + kinds(tokens(t, b2)));
        } else {
            assert(kinds(tokens(s, c)) =~= seq![k]);
            assert(kinds(tokens(t, d)) =~= seq![k2]);
        }
    } else {
        assert(kinds(tokens(s, c)) =~= kinds(tokens(t, d)));
    }
}

proof fn lemma_skip_over_spaces(s: Seq<u8>, i: int, m: int)
    requires
        0 <= i <= m <= s.len(),
        forall|k: int| i <= k < m ==> is_space(#[trigger] s[k]),
    ensures
        skip_spaces(s, i) == skip_spaces(s, m),
    decreases m - i,
{
    if i < m {
        lemma_skip_over_spaces(s, i + 1, m);
    }
}

/// Spaces, tabs and newlines inserted at a cursor leave the kinds of the
/// tokens scanned from that cursor as they were; only the spans move.
pub proof fn lemma_spaces_transparent(s: Seq<u8>, c: int, w: Seq<u8>)
    requires
        0 <= c <= s.len(),
        forall|i: int| 0 <= i < w.len() ==> is_space(#[trigger] w[i]),
    ensures
        kinds(tokens(s.subrange(0, c) + w + s.subrange(c, s.len() as int), c)) == kinds(
            tokens(s, c),
        ),
{
    let s2 = s.subrange(0, c) + w + s.subrange(c, s.len() as int);
    let m = c + w.len();
    assert(s2.len() == s.len() + w.len());
    assert forall|k: int| c <= k < m implies is_space(#[trigger] s2[k]) by {
        assert(s2[k] == w[k - c]);
    }
    assert forall|k: int| 0 <= k < s2.len() - m implies #[trigger] s2[m + k] == s[c + k] by {
        assert(s2[m + k] == s.subrange(c, s.len() as int)[k]);
    }
    assert(same_from(s2, m, s, c));
    lemma_skip_over_spaces(s2, c, m);
    lemma_next_bounds(s2, m);
    assert(next(s2, c) == next(s2, m));
    assert(tokens(s2, c) == tokens(s2, m));
    lemma_tokens_depend_on_rest(s2, m, s, c);
}

/// `s` and `t` hold the same bytes on `[lo, hi)`.
pub open spec fn agree(s: Seq<u8>, t: Seq<u8>, lo: int, hi: int) -> bool {
    &&& 0 <= lo <= hi
    &&& hi <= s.len()
    &&& hi <= t.len()
    &&& forall|k: int| lo <= k < hi ==> #[trigger] s[k] == t[k]
}

/// What `t` holds at `i` could follow a lexeme of `s` ending there as well as
/// what `s` holds: the same byte, a space, or the end of `t`.
pub open spec fn follows_alike(s: Seq<u8>, t: Seq<u8>, i: int) -> bool {
    ||| i == t.len()
    ||| (i < t.len() && is_space(t[i]))
    ||| (i < t.len() && i < s.len() && t[i] == s[i])
}

/// `t` ends a lexeme that ends at `e` in `s` just as `s` does: the two bytes
/// that a scan may look at past the lexeme follow alike.
pub open spec fn ends_alike(s: Seq<u8>, t: Seq<u8>, e: int) -> bool {
    &&& follows_alike(s, t, e)
    &&& (e < t.len() && e < s.len() && t[e] == s[e] && !is_space(t[e])) ==> follows_alike(
        s,
        t,
        e + 1,
    )
}

proof fn lemma_word_end_agree(s: Seq<u8>, t: Seq<u8>, i: int)
    requires
        0 <= i <= word_end(s, i),
        agree(s, t, i, word_end(s, i)),
        ends_alike(s, t, word_end(s, i)),
    ensures
        word_end(t, i) == word_end(s, i),
    decreases word_end(s, i) - i,
{
    if i < word_end(s, i) {
        assert(i < s.len() && is_word(s[i]));
        assert(s[i] == t[i]);
        lemma_word_end_agree(s, t, i + 1);
    } else {
        if i < s.len() {
            lemma_word_end_bounds(s, i + 1);
        }
        assert(i < s.len() ==> !is_word(s[i]));
        if i < t.len() {
            assert(!is_word(t[i]));
        }
    }
}

proof fn lemma_digits_end_agree(s: Seq<u8>, t: Seq<u8>, i: int)
    requires
        0 <= i <= digits_end(s, i),
        agree(s, t, i, digits_end(s, i)),
        ends_alike(s, t, digits_end(s, i)),
    ensures
        digits_end(t, i) == digits_end(s, i),
    decreases digits_end(s, i) - i,
{
    if i < digits_end(s, i) {
        assert(i < s.len() && is_digit(s[i]));
        assert(s[i] == t[i]);
        lemma_digits_end_agree(s, t, i + 1);
    } else {
        if i < s.len() {
            lemma_digits_end_bounds(s, i + 1);
        }
        assert(i < s.len() ==> !is_digit(s[i]));
        if i < t.len() {
            assert(!is_digit(t[i]));
        }
    }
}

proof fn lemma_string_end_agree(s: Seq<u8>, t: Seq<u8>, i: int, e: int)
    requires
        0 <= i,
        string_end(s, i) == Some(e),
        agree(s, t, i, e),
    ensures
        string_end(t, i) == Some(e),
    decreases s.len() - i,
{
    lemma_string_end_bounds(s, i);
    assert(s[i] == t[i]);
    if s[i] != 34 {
        if s[i] == 92 {
            lemma_string_end_bounds(s, i + 2);
            lemma_string_end_agree(s, t, i + 2, e);
        } else {
            lemma_string_end_bounds(s, i + 1);
            lemma_string_end_agree(s, t, i + 1, e);
        }
    }
}

proof fn lemma_lex_at_agree(s: Seq<u8>, t: Seq<u8>, p: int)
    requires
        0 <= p < s.len(),
        lex_at(s, p) is Ok,
        agree(s, t, p, lex_at(s, p)->Ok_0.1),
        ends_alike(s, t, lex_at(s, p)->Ok_0.1),
    ensures
        lex_at(t, p) == lex_at(s, p),
{
    lemma_lex_at_bounds(s, p);
    let e = lex_at(s, p)->Ok_0.1;
    let b = s[p];
    assert(t[p] == b);
    if is_letter(b) {
        lemma_word_end_bounds(s, p);
        lemma_word_end_agree(s, t, p);
        assert(s.subrange(p, e) =~= t.subrange(p, e));
    } else if is_digit(b) {
        let d = digits_end(s, p);
        lemma_digits_end_bounds(s, p);
        if d < s.len() && s[d] == 46 {
            assert(d + 1 < s.len() && is_digit(s[d + 1]));
            lemma_digits_end_bounds(s, d + 2);
            assert(t[d] == s[d] && t[d + 1] == s[d + 1]);
            lemma_digits_end_agree(s, t, p);
            lemma_digits_end_agree(s, t, d + 1);
        } else {
            lemma_digits_end_agree(s, t, p);
        }
    } else if b == 34 {
        lemma_string_end_agree(s, t, p + 1, e);
    } else if b == 45 {
        if p + 1 < s.len() && s[p + 1] == 62 {
            assert(t[p + 1] == s[p + 1]);
        }
    } else if b == 46 {
        if p + 2 < s.len() && s[p + 1] == 46 && s[p + 2] == 46 {
            assert(t[p + 1] == s[p + 1] && t[p + 2] == s[p + 2]);
        }
    }
}

proof fn lemma_skip_spaces_agree(s: Seq<u8>, t: Seq<u8>, i: int)
    requires
        0 <= i <= skip_spaces(s, i) < s.len(),
        agree(s, t, i, skip_spaces(s, i) + 1),
    ensures
        skip_spaces(t, i) == skip_spaces(s, i),
    decreases skip_spaces(s, i) - i,
{
    assert(s[i] == t[i]);
    if i < skip_spaces(s, i) {
        lemma_skip_spaces_agree(s, t, i + 1);
    } else {
        lemma_skip_spaces_bounds(s, i + 1);
    }
}

proof fn lemma_next_agree(s: Seq<u8>, t: Seq<u8>, c: int)
    requires
        0 <= c <= s.len(),
        next(s, c) matches Ok((k, _, e)) && k != TokenKind::EndOfInput && agree(s, t, c, e)
            && ends_alike(s, t, e),
    ensures
        next(t, c) == next(s, c),
{
    lemma_next_bounds(s, c);
    lemma_skip_spaces_bounds(s, c);
    let a = skip_spaces(s, c);
    lemma_lex_at_bounds(s, a);
    lemma_skip_spaces_agree(s, t, c);
    lemma_lex_at_agree(s, t, a);
}

/// Spaces, tabs and newlines inserted between two tokens, just past the end of
/// any token other than `EndOfInput`, leave the kinds of the tokens scanned as
/// they were; only the spans after the insertion move.
pub proof fn lemma_spaces_between_tokens(s: Seq<u8>, c: int, i: int, w: Seq<u8>)
    requires
        0 <= c <= s.len(),
        0 <= i < tokens(s, c).len(),
        tokens(s, c)[i].0 != TokenKind::EndOfInput,
        forall|j: int| 0 <= j < w.len() ==> is_space(#[trigger] w[j]),
    ensures
        kinds(
            tokens(
                s.subrange(0, tokens(s, c)[i].2) + w + s.subrange(tokens(s, c)[i].2, s.len() as int),
                c,
            ),
        ) == kinds(tokens(s, c)),
    decreases i,
{
    let ts = tokens(s, c);
    let b = ts[i].2;
    lemma_next_bounds(s, c);
    lemma_spans_ordered(s, c);
    let (k, a, e) = next(s, c)->Ok_0;
    assert(k != TokenKind::EndOfInput && c < e <= s.len());
    assert(ts == seq![(k, a, e)] + tokens(s, e));
    assert(e <= b <= s.len()) by {
        if i > 0 {
            assert(ts[0].2 <= ts[i].1);
        }
    }
    let s2 = s.subrange(0, b) + w + s.subrange(b, s.len() as int);
    assert(s2.len() == s.len() + w.len());
    assert(agree(s, s2, c, e)) by {
        assert forall|j: int| c <= j < e implies #[trigger] s[j] == s2[j] by {
            assert(s2[j] == s.subrange(0, b)[j]);
        }
    }
    assert(ends_alike(s, s2, e)) by {
        if w.len() == 0 {
            assert(s2 =~= s);
        } else {
            assert(s2[b] == w[0]);
            if e < b {
                assert(s2[e] == s[e]);
                if e + 1 < b {
                    assert(s2[e + 1] == s[e + 1]);
                }
            }
        }
    }
    lemma_next_agree(s, s2, c);
    if i == 0 {
        lemma_spaces_transparent(s, e, w);
    } else {
        assert(tokens(s, e)[i - 1] == ts[i]);
        lemma_spaces_between_tokens(s, e, i - 1, w);
    }
    assert(kinds(tokens(s2, c)) =~= seq![k] + kinds(tokens(s2, e)));
    assert(kinds(ts) =~= seq![k] + kinds(tokens(s, e)));
}

} // verus!
