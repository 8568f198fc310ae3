use vstd::prelude::*;
use vstd::string::StrSliceExecFns;

use crate::token::{
    char_class, class_of, is_break_char, is_punct_kind, Span, Token, TokenKind,
};

verus! {

/// Number of bytes of the UTF-8 encoding of `c`.
pub open spec fn char_width(c: char) -> nat {
    let u = c as u32;
    if u < 0x80 {
        1
    } else if u < 0x800 {
        2
    } else if u < 0x10000 {
        3
    } else {
        4
    }
}

/// Byte offset of the `p`-th character of `s`: the UTF-8 width of the
/// first `p` characters.
pub open spec fn byte_offset(s: Seq<char>, p: int) -> nat
    decreases p,
{
    if p <= 0 {
        0
    } else {
        byte_offset(s, p - 1) + char_width(s[p - 1])
    }
}

/// Whether the character at `j` begins a logical line break. A line feed
/// directly after a carriage return belongs to the carriage return's
/// break and does not begin one of its own.
pub open spec fn starts_break(s: Seq<char>, j: int) -> bool {
    is_break_char(s[j]) && !(s[j] == '\n' && j > 0 && s[j - 1] == '\r')
}

/// Line number at character position `p`: the number of logical line
/// breaks begun before `p`.
pub open spec fn line_at(s: Seq<char>, p: int) -> nat
    decreases p,
{
    if p <= 0 {
        0
    } else if starts_break(s, p - 1) {
        line_at(s, p - 1) + 1
    } else {
        line_at(s, p - 1)
    }
}

/// Column at character position `p`: the number of characters since the
/// last break character before `p`.
pub open spec fn col_at(s: Seq<char>, p: int) -> nat
    decreases p,
{
    if p <= 0 {
        0
    } else if is_break_char(s[p - 1]) {
        0
    } else {
        col_at(s, p - 1) + 1
    }
}

/// How many characters the cursor consumes in one advance from `p`: a
/// carriage return directly followed by a line feed is consumed as a
/// single step.
pub open spec fn cursor_step(s: Seq<char>, p: int) -> nat {
    if s[p] == '\r' && p + 1 < s.len() && s[p + 1] == '\n' {
        2
    } else {
        1
    }
}

/// Whether `p` falls between the two characters of a carriage-return /
/// line-feed pair. The cursor never rests on such a position.
pub open spec fn splits_crlf(s: Seq<char>, p: int) -> bool {
    0 < p < s.len() && s[p - 1] == '\r' && s[p] == '\n'
}

/// Length of the run of characters of class `k` starting at `p`.
pub open spec fn run_len(s: Seq<char>, p: int, k: TokenKind) -> nat
    decreases s.len() - p,
{
    if 0 <= p < s.len() && char_class(s[p]) == k {
        1 + run_len(s, p + 1, k)
    } else {
        0
    }
}

/// Number of characters of the token starting at `p`: one for
/// punctuation, the maximal run of the first character's class otherwise.
pub open spec fn token_len(s: Seq<char>, p: int) -> nat
    recommends
        0 <= p < s.len(),
{
    if is_punct_kind(char_class(s[p])) {
        1
    } else {
        1 + run_len(s, p + 1, char_class(s[p]))
    }
}

/// The token starting at character position `p` of `s`.
pub open spec fn spec_token_at(s: Seq<char>, p: int) -> Token {
    Token {
        kind: char_class(s[p]),
        span: Span {
            line: line_at(s, p) as usize,
            column: col_at(s, p) as usize,
            start: byte_offset(s, p) as usize,
            end: byte_offset(s, p + token_len(s, p)) as usize,
        },
    }
}

pub proof fn lemma_run_len_bound(s: Seq<char>, p: int, k: TokenKind)
    requires
        0 <= p <= s.len(),
    ensures
        run_len(s, p, k) <= s.len() - p,
    decreases s.len() - p,
{
    if p < s.len() && char_class(s[p]) == k {
        lemma_run_len_bound(s, p + 1, k);
    }
}

pub proof fn lemma_token_len_in_range(s: Seq<char>, p: int)
    requires
        0 <= p < s.len(),
    ensures
        1 <= token_len(s, p) <= s.len() - p,
{
    lemma_run_len_bound(s, p + 1, char_class(s[p]));
}

/// The sequence of tokens of `s` from character position `p` on.
pub open spec fn spec_tokens_from(s: Seq<char>, p: int) -> Seq<Token>
    decreases s.len() - p,
        via spec_tokens_from_decreases
{
    if 0 <= p < s.len() {
        seq![spec_token_at(s, p)] + spec_tokens_from(s, p + token_len(s, p))
    } else {
        Seq::empty()
    }
}

#[via_fn]
proof fn spec_tokens_from_decreases(s: Seq<char>, p: int) {
    if 0 <= p < s.len() {
        lemma_token_len_in_range(s, p);
    }
}

/// The token sequence of the whole text `s`.
pub open spec fn spec_tokens(s: Seq<char>) -> Seq<Token> {
    spec_tokens_from(s, 0)
}

/// All byte offsets of `s` fit in `usize`; true of every text that is
/// held in memory.
pub open spec fn offsets_fit(s: Seq<char>) -> bool {
    byte_offset(s, s.len() as int) <= usize::MAX
}

/// Byte offsets grow by at least one byte per character.
pub proof fn lemma_byte_offset_monotone(s: Seq<char>, p: int, q: int)
    requires
        0 <= p <= q,
    ensures
        byte_offset(s, p) + (q - p) <= byte_offset(s, q),
    decreases q - p,
{
    if p < q {
        lemma_byte_offset_monotone(s, p, q - 1);
    }
}

/// Line and column numbers never exceed the character position.
pub proof fn lemma_position_bounds(s: Seq<char>, p: int)
    requires
        0 <= p,
    ensures
        line_at(s, p) <= p,
        col_at(s, p) <= p,
    decreases p,
{
    if p > 0 {
        lemma_position_bounds(s, p - 1);
    }
}

/// Relies on `str::len`: the byte length of UTF-8 text is the sum of the
/// encoded widths of its characters.
#[verifier::external_body]
fn byte_length(s: &str) -> (n: usize)
    ensures
        n == byte_offset(s@, s@.len() as int),
{
    s.len()
}

/// A cursor-driven, pull-based tokenizer over a borrowed text. `pos` is
/// the index of the next character, `offset` its byte offset, and
/// `line`/`column` the position the next character would be reported at.
pub struct Tokenizer<'s> {
    pub source: &'s str,
    pub pos: usize,
    pub offset: usize,
    pub line: usize,
    pub column: usize,
}

impl<'s> Tokenizer<'s> {
    /// The cursor bookkeeping agrees with the consumed prefix of the
    /// text, every byte offset of the text fits in `usize`, and the
    /// cursor does not rest inside a carriage-return / line-feed pair.
    pub open spec fn wf(self) -> bool {
        &&& self.pos <= self.source@.len()
        &&& offsets_fit(self.source@)
        &&& self.offset == byte_offset(self.source@, self.pos as int)
        &&& self.line == line_at(self.source@, self.pos as int)
        &&& self.column == col_at(self.source@, self.pos as int)
        &&& !splits_crlf(self.source@, self.pos as int)
    }

    pub fn new(source: &'s str) -> (t: Tokenizer<'s>)
        ensures
            t.wf(),
            t.source == source,
            t.pos == 0,
            t.offset == 0,
            t.line == 0,
            t.column == 0,
    {
        let _total = byte_length(source);
        Tokenizer { source, pos: 0, offset: 0, line: 0, column: 0 }
    }

    /// The next character, without consuming it.
    pub fn peek(&self) -> (r: Option<char>)
        ensures
            r == (if self.pos < self.source@.len() {
                Some(self.source@[self.pos as int])
            } else {
                None::<char>
            }),
    {
        if self.pos < self.source.unicode_len() {
            Some(self.source.get_char(self.pos))
        } else {
            None
        }
    }

    /// Whether `c` terminates a line.
    pub fn is_break(c: char) -> (b: bool)
        ensures
            b == is_break_char(c),
    {
        c == '\n' || c == '\r' || c == '\u{2028}' || c == '\u{2029}'
    }

    /// Number of bytes of the UTF-8 encoding of `c`.
    pub fn utf8_width(c: char) -> (w: usize)
        ensures
            w == char_width(c),
    {
        let u = c as u32;
        if u < 0x80 {
            1
        } else if u < 0x800 {
            2
        } else if u < 0x10000 {
            3
        } else {
            4
        }
    }

    /// Consumes and returns the next character, keeping the position
    /// bookkeeping exact. A carriage return directly followed by a line
    /// feed is consumed together with it as a single logical break; a
    /// lone carriage return is a complete break by itself.
    pub fn bump(&mut self) -> (r: Option<char>)
        requires
            old(self).wf(),
        ensures
            final(self).wf(),
            final(self).source == old(self).source,
            old(self).pos == old(self).source@.len() ==> r is None && *final(self) == *old(self),
            old(self).pos < old(self).source@.len() ==> {
                let s = old(self).source@;
                let p = old(self).pos as int;
                r == Some(s[p]) && final(self).pos == p + cursor_step(s, p)
            },
    {
        let c = match self.peek() {
            Some(c) => c,
            None => {
                return None;
            },
        };
        let ghost s = self.source@;
        let ghost p0 = self.pos as int;
        proof {
            lemma_byte_offset_monotone(s, p0 + 1, s.len() as int);
            lemma_byte_offset_monotone(s, 0, p0 + 1);
            lemma_position_bounds(s, p0);
        }
        let w = Self::utf8_width(c);
        self.pos = self.pos + 1;
        self.offset = self.offset + w;
        if Self::is_break(c) {
            if c == '\r' {
                // a line feed directly after a carriage return belongs
                // to the same logical break
                if let Some(n) = self.peek() {
                    if n == '\n' {
                        proof {
                            lemma_byte_offset_monotone(s, p0 + 2, s.len() as int);
                        }
                        let w2 = Self::utf8_width(n);
                        self.pos = self.pos + 1;
                        self.offset = self.offset + w2;
                        proof {
                            assert(starts_break(s, p0));
                            assert(line_at(s, p0 + 1) == line_at(s, p0) + 1);
                            assert(!starts_break(s, p0 + 1));
                            assert(line_at(s, p0 + 2) == line_at(s, p0) + 1);
                        }
                    }
                }
            }
            proof {
                assert(starts_break(s, p0));
            }
            self.line = self.line + 1;
            self.column = 0;
        } else {
            self.column = self.column + 1;
        }
        Some(c)
    }

    /// Whether the next character exists and belongs to class `kind`.
    pub fn continues(&self, kind: TokenKind) -> (b: bool)
        ensures
            b == (self.pos < self.source@.len() && char_class(
                self.source@[self.pos as int],
            ) == kind),
    {
        match self.peek() {
            Some(c) => class_of(c) == kind,
            None => false,
        }
    }

    /// Advances the cursor past the run of characters of class `kind`
    /// under it.
    pub fn scan_until(&mut self, kind: TokenKind)
        requires
            old(self).wf(),
        ensures
            final(self).wf(),
            final(self).source == old(self).source,
            final(self).pos == old(self).pos + run_len(
                old(self).source@,
                old(self).pos as int,
                kind,
            ),
    {
        let ghost init = *self;
        let ghost s = self.source@;
        while self.continues(kind)
            invariant
                self.wf(),
                self.source == init.source,
                s == self.source@,
                init.pos <= self.pos,
                run_len(s, init.pos as int, kind) == (self.pos - init.pos) + run_len(
                    s,
                    self.pos as int,
                    kind,
                ),
            decreases self.source@.len() - self.pos,
        {
            let ghost p = self.pos as int;
            proof {
                assert(run_len(s, p, kind) == 1 + run_len(s, p + 1, kind));
                if cursor_step(s, p) == 2 {
                    assert(char_class(s[p + 1]) == kind);
                    assert(run_len(s, p + 1, kind) == 1 + run_len(s, p + 2, kind));
                }
            }
            self.bump();
        }
    }

    /// Builds the token that started at byte offset `start`, line `line`
    /// and column `column` and ends at the cursor's current byte offset.
    pub fn make_token(&self, start: usize, line: usize, column: usize, kind: TokenKind) -> (t:
        Token)
        ensures
            t == (Token { kind, span: Span { line, column, start, end: self.offset } }),
    {
        Token { kind, span: Span { line, column, start, end: self.offset } }
    }

    /// Scans the white-space run under the cursor into a `Spaces` token.
    pub fn scan_spaces(&mut self, start: usize) -> (t: Token)
        requires
            old(self).wf(),
            start == old(self).offset,
            old(self).pos < old(self).source@.len(),
            char_class(old(self).source@[old(self).pos as int]) == TokenKind::Spaces,
        ensures
            final(self).wf(),
            final(self).source == old(self).source,
            t == spec_token_at(old(self).source@, old(self).pos as int),
            final(self).pos == old(self).pos + token_len(old(self).source@, old(self).pos as int),
    {
        let line = self.line;
        let column = self.column;
        self.scan_until(TokenKind::Spaces);
        self.make_token(start, line, column, TokenKind::Spaces)
    }

    /// Scans the identifier run under the cursor into an `Identifier`
    /// token.
    pub fn scan_ident(&mut self, start: usize) -> (t: Token)
        requires
            old(self).wf(),
            start == old(self).offset,
            old(self).pos < old(self).source@.len(),
            char_class(old(self).source@[old(self).pos as int]) == TokenKind::Identifier,
        ensures
            final(self).wf(),
            final(self).source == old(self).source,
            t == spec_token_at(old(self).source@, old(self).pos as int),
            final(self).pos == old(self).pos + token_len(old(self).source@, old(self).pos as int),
    {
        let line = self.line;
        let column = self.column;
        self.scan_until(TokenKind::Identifier);
        self.make_token(start, line, column, TokenKind::Identifier)
    }

    /// Scans the digit run under the cursor into a `Digits` token.
    pub fn scan_digits(&mut self, start: usize) -> (t: Token)
        requires
            old(self).wf(),
            start == old(self).offset,
            old(self).pos < old(self).source@.len(),
            char_class(old(self).source@[old(self).pos as int]) == TokenKind::Digits,
        ensures
            final(self).wf(),
            final(self).source == old(self).source,
            t == spec_token_at(old(self).source@, old(self).pos as int),
            final(self).pos == old(self).pos + token_len(old(self).source@, old(self).pos as int),
    {
        let line = self.line;
        let column = self.column;
        self.scan_until(TokenKind::Digits);
        self.make_token(start, line, column, TokenKind::Digits)
    }

    /// Produces the next token, or `None` once the input is exhausted.
    /// Pulling again after exhaustion keeps returning `None` and leaves
    /// the tokenizer unchanged.
    pub fn next(&mut self) -> (r: Option<Token>)
        requires
            old(self).wf(),
        ensures
            final(self).wf(),
            final(self).source == old(self).source,
            (r is None) <==> old(self).pos == old(self).source@.len(),
            old(self).pos == old(self).source@.len() ==> *final(self) == *old(self),
            old(self).pos < old(self).source@.len() ==> r == Some(
                spec_token_at(old(self).source@, old(self).pos as int),
            ) && final(self).pos == old(self).pos + token_len(
                old(self).source@,
                old(self).pos as int,
            ),
    {
        let c = match self.peek() {
            Some(c) => c,
            None => {
                return None;
            },
        };
        let ghost s = self.source@;
        let ghost p0 = self.pos as int;
        let start = self.offset;
        let line = self.line;
        let column = self.column;
        let kind = class_of(c);
        let t = match kind {
            TokenKind::Colon | TokenKind::Star | TokenKind::Dot => {
                self.bump();
                self.make_token(start, line, column, kind)
            },
            TokenKind::Spaces => self.scan_spaces(start),
            TokenKind::Digits => self.scan_digits(start),
            TokenKind::Identifier => self.scan_ident(start),
        };
        Some(t)
    }
}

/// Tokenizes the whole text: the result is exactly the token sequence of
/// the text.
pub fn tokenize(source: &str) -> (tokens: Vec<Token>)
    ensures
        tokens@ == spec_tokens(source@),
{
    let mut tz = Tokenizer::new(source);
    let mut tokens: Vec<Token> = Vec::new();
    loop
        invariant
            tz.wf(),
            tz.source == source,
            spec_tokens(source@) == tokens@ + spec_tokens_from(source@, tz.pos as int),
        ensures
            tokens@ == spec_tokens(source@),
        decreases tz.source@.len() - tz.pos,
    {
        let ghost p = tz.pos as int;
        match tz.next() {
            Some(t) => {
                proof {
                    assert(spec_tokens_from(source@, p) == seq![t] + spec_tokens_from(
                        source@,
                        p + token_len(source@, p),
                    ));
                    assert((tokens@ + seq![t]) + spec_tokens_from(source@, tz.pos as int)
                        =~= tokens@ + spec_tokens_from(source@, p));
                }
                tokens.push(t);
            },
            None => {
                proof {
                    assert(spec_tokens_from(source@, tz.pos as int) =~= Seq::<Token>::empty());
                    assert(tokens@ + Seq::<Token>::empty() =~= tokens@);
                }
                break ;
            },
        }
    }
    tokens
}

} // verus!
