//! The laws the tokenizer obeys, stated over the token sequence
//! `spec_tokens` that `tokenize` and `Tokenizer::next` are proved to
//! produce.

use vstd::prelude::*;

use crate::token::{char_class, is_break_char, is_digit_char, is_punct_kind, Token, TokenKind};
use crate::tokenizer::{
    byte_offset, col_at, cursor_step, lemma_byte_offset_monotone, lemma_position_bounds,
    lemma_token_len_in_range, line_at, offsets_fit, run_len, spec_token_at, spec_tokens,
    spec_tokens_from, splits_crlf, starts_break, token_len,
};

verus! {

/// `p` begins a token whenever the tokenizer's cursor ever stands there:
/// at the text's start, next to a punctuation character, or where the
/// character class changes.
pub open spec fn token_boundary(s: Seq<char>, p: int) -> bool {
    p == 0 || is_punct_kind(char_class(s[p - 1])) || is_punct_kind(char_class(s[p]))
        || char_class(s[p - 1]) != char_class(s[p])
}

/// Every character of the run of class `k` starting at `p` has class `k`.
proof fn lemma_run_chars(s: Seq<char>, p: int, k: TokenKind, j: int)
    requires
        0 <= p <= j < p + run_len(s, p, k),
    ensures
        char_class(s[j]) == k,
    decreases j - p,
{
    if j > p {
        lemma_run_chars(s, p + 1, k, j);
    }
}

/// A run of characters of class `k` that ends where the class changes (or
/// at the end of the text) has exactly that length.
proof fn lemma_run_len_exact(s: Seq<char>, p: int, k: TokenKind, q: int)
    requires
        0 <= p <= q <= s.len(),
        forall|j: int| p <= j < q ==> char_class(#[trigger] s[j]) == k,
        q == s.len() || char_class(s[q]) != k,
    ensures
        run_len(s, p, k) == q - p,
    decreases q - p,
{
    if p < q {
        lemma_run_len_exact(s, p + 1, k, q);
    }
}

/// Every character covered by the token starting at `p` has the class of
/// the token's first character.
proof fn lemma_token_chars(s: Seq<char>, p: int, j: int)
    requires
        0 <= p < s.len(),
        p <= j < p + token_len(s, p),
    ensures
        char_class(s[j]) == char_class(s[p]),
{
    if j > p {
        lemma_run_chars(s, p + 1, char_class(s[p]), j);
    }
}

/// The tokens `toks` chain from byte `from` to byte `to`: the first
/// starts at `from`, each token ends where the next one starts, the last
/// ends at `to`, and no token is empty.
pub open spec fn chained(toks: Seq<Token>, from: int, to: int) -> bool {
    &&& toks.len() == 0 ==> from == to
    &&& toks.len() > 0 ==> toks[0].span.start == from
    &&& toks.len() > 0 ==> toks.last().span.end == to
    &&& forall|i: int|
        0 <= i < toks.len() ==> (#[trigger] toks[i]).span.start < toks[i].span.end
    &&& forall|i: int|
        0 <= i < toks.len() - 1 ==> (#[trigger] toks[i]).span.end == toks[i + 1].span.start
}

#[verifier::rlimit(60)]
proof fn lemma_chained_cons(t: Token, rest: Seq<Token>, to: int)
    requires
        t.span.start < t.span.end,
        chained(rest, t.span.end as int, to),
    ensures
        chained(seq![t] + rest, t.span.start as int, to),
{
    let toks = seq![t] + rest;
    assert(toks[0] == t);
    assert forall|i: int| 0 <= i < toks.len() implies (#[trigger] toks[i]).span.start
        < toks[i].span.end by {
        if i > 0 {
            assert(toks[i] == rest[i - 1]);
        }
    }
    assert forall|i: int| 0 <= i < toks.len() - 1 implies (#[trigger] toks[i]).span.end == toks[i
        + 1].span.start by {
        if i > 0 {
            assert(toks[i] == rest[i - 1]);
            assert(toks[i + 1] == rest[i]);
        } else {
            assert(toks[1] == rest[0]);
        }
    }
    if rest.len() > 0 {
        assert(toks.last() == rest.last());
    }
}

/// Partition law, generalized to the tokens from position `p` on: they
/// chain without gaps or overlaps from `byte_offset(s, p)` to the byte
/// length of the text.
#[verifier::rlimit(100)]
proof fn lemma_partition_from(s: Seq<char>, p: int)
    requires
        0 <= p <= s.len(),
        offsets_fit(s),
    ensures
        chained(
            spec_tokens_from(s, p),
            byte_offset(s, p) as int,
            byte_offset(s, s.len() as int) as int,
        ),
        spec_tokens_from(s, p).len() > 0 <==> p < s.len(),
    decreases s.len() - p,
{
    if p < s.len() {
        lemma_token_len_in_range(s, p);
        let q = p + token_len(s, p);
        lemma_byte_offset_monotone(s, p, q);
        lemma_byte_offset_monotone(s, q, s.len() as int);
        lemma_partition_from(s, q);
        lemma_chained_cons(
            spec_token_at(s, p),
            spec_tokens_from(s, q),
            byte_offset(s, s.len() as int) as int,
        );
    }
}

/// Partition law: the produced tokens cover the input's bytes exactly and
/// in order — the first token starts at byte 0, each token ends where the
/// next one starts, the last token ends at the input's byte length, and
/// no token is empty. Concatenating the byte ranges `[start, end)` of all
/// tokens therefore reconstructs the input text.
#[verifier::rlimit(100)]
pub proof fn lemma_tokens_partition(s: Seq<char>)
    requires
        offsets_fit(s),
    ensures
        chained(spec_tokens(s), 0, byte_offset(s, s.len() as int) as int),
        spec_tokens(s).len() > 0 <==> s.len() > 0,
{
    lemma_partition_from(s, 0);
}

proof fn lemma_chained_increase(toks: Seq<Token>, from: int, to: int, i: int, j: int)
    requires
        chained(toks, from, to),
        0 <= i < j < toks.len(),
    ensures
        toks[i].span.start < toks[j].span.start,
        toks[i].span.end <= toks[j].span.end,
    decreases j - i,
{
    if j > i + 1 {
        lemma_chained_increase(toks, from, to, i, j - 1);
    }
}

/// Monotonicity law, offsets: token byte offsets are strictly increasing
/// across the sequence.
pub proof fn lemma_offsets_increase(s: Seq<char>, i: int, j: int)
    requires
        offsets_fit(s),
        0 <= i < j < spec_tokens(s).len(),
    ensures
        spec_tokens(s)[i].span.start < spec_tokens(s)[j].span.start,
        spec_tokens(s)[i].span.end <= spec_tokens(s)[j].span.end,
{
    lemma_tokens_partition(s);
    lemma_chained_increase(spec_tokens(s), 0, byte_offset(s, s.len() as int) as int, i, j);
}

/// The tokens `toks` all lie at line `lo` or below it, in never-decreasing
/// line order.
pub open spec fn lines_ordered(toks: Seq<Token>, lo: int) -> bool {
    &&& forall|i: int| 0 <= i < toks.len() ==> (#[trigger] toks[i]).span.line >= lo
    &&& forall|i: int, j: int|
        0 <= i < j < toks.len() ==> (#[trigger] toks[i]).span.line <= (#[trigger] toks[j]).span.line
}

proof fn lemma_lines_cons(t: Token, rest: Seq<Token>, lo: int)
    requires
        t.span.line >= lo,
        lines_ordered(rest, t.span.line as int),
    ensures
        lines_ordered(seq![t] + rest, lo),
{
    let toks = seq![t] + rest;
    assert(toks[0] == t);
    assert forall|i: int| 0 <= i < toks.len() implies (#[trigger] toks[i]).span.line >= lo by {
        if i > 0 {
            assert(toks[i] == rest[i - 1]);
        }
    }
    assert forall|i: int, j: int| 0 <= i < j < toks.len() implies (#[trigger] toks[i]).span.line
        <= (#[trigger] toks[j]).span.line by {
        assert(toks[j] == rest[j - 1]);
        if i > 0 {
            assert(toks[i] == rest[i - 1]);
        }
    }
}

proof fn lemma_lines_from(s: Seq<char>, p: int)
    requires
        0 <= p <= s.len(),
        offsets_fit(s),
    ensures
        lines_ordered(spec_tokens_from(s, p), line_at(s, p) as int),
    decreases s.len() - p,
{
    if p < s.len() {
        lemma_token_len_in_range(s, p);
        let q = p + token_len(s, p);
        lemma_lines_from(s, q);
        lemma_line_monotone(s, p, q);
        lemma_position_bounds(s, q);
        lemma_byte_offset_monotone(s, 0, s.len() as int);
        lemma_lines_cons(spec_token_at(s, p), spec_tokens_from(s, q), line_at(s, p) as int);
    }
}

/// Monotonicity law, lines: token line numbers never decrease across the
/// sequence.
pub proof fn lemma_token_lines_monotone(s: Seq<char>, i: int, j: int)
    requires
        offsets_fit(s),
        0 <= i < j < spec_tokens(s).len(),
    ensures
        spec_tokens(s)[i].span.line <= spec_tokens(s)[j].span.line,
{
    lemma_lines_from(s, 0);
}

/// The line number never decreases as the cursor moves forward.
pub proof fn lemma_line_monotone(s: Seq<char>, p: int, q: int)
    requires
        0 <= p <= q,
    ensures
        line_at(s, p) <= line_at(s, q),
    decreases q - p,
{
    if p < q {
        lemma_line_monotone(s, p, q - 1);
    }
}

/// Monotonicity and line-break normalization law, positions: one cursor
/// advance from a position `p` the cursor can rest on either stays on the
/// same line and moves one column right, or — on a line break — starts
/// exactly one new line and resets the column to 0. A carriage return
/// directly followed by a line feed is one advance and one break, and a
/// lone carriage return is a complete break by itself.
pub proof fn lemma_position_step(s: Seq<char>, p: int)
    requires
        0 <= p < s.len(),
        !splits_crlf(s, p),
    ensures
        !is_break_char(s[p]) ==> cursor_step(s, p) == 1 && line_at(s, p + 1) == line_at(s, p)
            && col_at(s, p + 1) == col_at(s, p) + 1,
        is_break_char(s[p]) ==> line_at(s, p + cursor_step(s, p)) == line_at(s, p) + 1 && col_at(
            s,
            p + cursor_step(s, p),
        ) == 0,
{
    if is_break_char(s[p]) {
        assert(starts_break(s, p));
        if cursor_step(s, p) == 2 {
            assert(line_at(s, p + 1) == line_at(s, p) + 1);
            assert(!starts_break(s, p + 1));
        }
    }
}

/// A token never starts between the two characters of a carriage-return /
/// line-feed pair, so `lemma_position_step` applies along every token.
pub proof fn lemma_boundary_not_in_crlf(s: Seq<char>, p: int)
    requires
        0 <= p < s.len(),
        token_boundary(s, p),
    ensures
        !splits_crlf(s, p),
{
    if 0 < p && s[p - 1] == '\r' && s[p] == '\n' {
        assert(char_class(s[p - 1]) == TokenKind::Spaces);
        assert(char_class(s[p]) == TokenKind::Spaces);
    }
}

/// Every class boundary is the start of one of the produced tokens.
proof fn lemma_boundary_token(s: Seq<char>, p: int, a: int)
    requires
        0 <= p <= a < s.len(),
        token_boundary(s, a),
    ensures
        spec_tokens_from(s, p).contains(spec_token_at(s, a)),
    decreases a - p,
{
    lemma_token_len_in_range(s, p);
    let tl = token_len(s, p);
    let toks = spec_tokens_from(s, p);
    if p == a {
        assert(toks[0] == spec_token_at(s, a));
    } else {
        if p + tl > a {
            // the token starting at p would cover both a - 1 and a, so
            // their classes would agree and be non-punctuation, against
            // the boundary at a
            assert(!is_punct_kind(char_class(s[p])));
            lemma_token_chars(s, p, a - 1);
            lemma_token_chars(s, p, a);
            assert(false);
        }
        lemma_boundary_token(s, p + tl, a);
        let rest = spec_tokens_from(s, p + tl);
        let k = choose|i: int| 0 <= i < rest.len() && rest[i] == spec_token_at(s, a);
        assert(toks[k + 1] == spec_token_at(s, a));
    }
}

/// Classification stability law: a maximal run of decimal digits is
/// always one single `Digits` token, covering exactly the run's bytes.
pub proof fn lemma_digit_run_single_token(s: Seq<char>, a: int, b: int)
    requires
        0 <= a < b <= s.len(),
        forall|j: int| a <= j < b ==> is_digit_char(#[trigger] s[j]),
        a == 0 || !is_digit_char(s[a - 1]),
        b == s.len() || !is_digit_char(s[b]),
    ensures
        spec_tokens(s).contains(spec_token_at(s, a)),
        spec_token_at(s, a).kind == TokenKind::Digits,
        spec_token_at(s, a).span.start == byte_offset(s, a) as usize,
        spec_token_at(s, a).span.end == byte_offset(s, b) as usize,
{
    assert(char_class(s[a]) == TokenKind::Digits);
    assert forall|j: int| a + 1 <= j < b implies char_class(#[trigger] s[j])
        == TokenKind::Digits by {}
    lemma_run_len_exact(s, a + 1, TokenKind::Digits, b);
    lemma_boundary_token(s, 0, a);
}

/// Punctuation atomicity law: each `:`, `*` or `.` in the input yields
/// its own token of the corresponding kind, covering exactly that one
/// character, whatever stands next to it.
pub proof fn lemma_punct_atomic(s: Seq<char>, j: int)
    requires
        0 <= j < s.len(),
        is_punct_kind(char_class(s[j])),
    ensures
        spec_tokens(s).contains(spec_token_at(s, j)),
        spec_token_at(s, j).kind == char_class(s[j]),
        spec_token_at(s, j).span.start == byte_offset(s, j) as usize,
        spec_token_at(s, j).span.end == byte_offset(s, j + 1) as usize,
        token_len(s, j) == 1,
{
    lemma_boundary_token(s, 0, j);
}

} // verus!
