use vstd::prelude::*;

verus! {

/// The classification of a token. Punctuation kinds (`Colon`, `Star`,
/// `Dot`) always cover exactly one character; every other kind covers a
/// maximal run of characters of the same class.
#[derive(Copy, Clone, Debug, PartialEq, Eq, Structural)]
pub enum TokenKind {
    Identifier,
    Digits,
    Colon,
    Star,
    Dot,
    Spaces,
}

/// The source position of a token. `line` counts the logical line breaks
/// seen before the token, `column` counts the characters since the last
/// line break, both measured at the token's first character. `start` and
/// `end` are byte offsets into the input text, `end` exclusive.
#[derive(Copy, Clone, Debug, PartialEq, Eq, Structural)]
pub struct Span {
    pub line: usize,
    pub column: usize,
    pub start: usize,
    pub end: usize,
}

/// A classified, positioned slice of the input text.
#[derive(Copy, Clone, Debug, PartialEq, Eq, Structural)]
pub struct Token {
    pub kind: TokenKind,
    pub span: Span,
}

/// The Unicode white-space characters.
pub open spec fn is_space_char(c: char) -> bool {
    let u = c as u32;
    (0x09 <= u && u <= 0x0D) || u == 0x20 || u == 0x85 || u == 0xA0 || u == 0x1680 || (0x2000
        <= u && u <= 0x200A) || u == 0x2028 || u == 0x2029 || u == 0x202F || u == 0x205F || u
        == 0x3000
}

/// The decimal digits.
pub open spec fn is_digit_char(c: char) -> bool {
    0x30 <= c as u32 && c as u32 <= 0x39
}

/// The line-break characters: line feed, carriage return, and the Unicode
/// line and paragraph separators.
pub open spec fn is_break_char(c: char) -> bool {
    c == '\n' || c == '\r' || c == '\u{2028}' || c == '\u{2029}'
}

/// Whether tokens of kind `k` are single punctuation characters.
pub open spec fn is_punct_kind(k: TokenKind) -> bool {
    k == TokenKind::Colon || k == TokenKind::Star || k == TokenKind::Dot
}

/// The class of a single character. Every character belongs to exactly one
/// class; anything that is neither punctuation, white space nor a digit
/// counts as an identifier constituent.
pub open spec fn char_class(c: char) -> TokenKind {
    if c == ':' {
        TokenKind::Colon
    } else if c == '*' {
        TokenKind::Star
    } else if c == '.' {
        TokenKind::Dot
    } else if is_space_char(c) {
        TokenKind::Spaces
    } else if is_digit_char(c) {
        TokenKind::Digits
    } else {
        TokenKind::Identifier
    }
}

/// Every line-break character is white space, so a break never interrupts
/// a `Spaces` run.
pub proof fn lemma_break_is_space(c: char)
    ensures
        is_break_char(c) ==> is_space_char(c),
{
}

pub fn is_space(c: char) -> (b: bool)
    ensures
        b == is_space_char(c),
{
    let u = c as u32;
    (0x09 <= u && u <= 0x0D) || u == 0x20 || u == 0x85 || u == 0xA0 || u == 0x1680 || (0x2000
        <= u && u <= 0x200A) || u == 0x2028 || u == 0x2029 || u == 0x202F || u == 0x205F || u
        == 0x3000
}

pub fn is_digit(c: char) -> (b: bool)
    ensures
        b == is_digit_char(c),
{
    let u = c as u32;
    0x30 <= u && u <= 0x39
}

/// The class of `c`, as an executable decision.
pub fn class_of(c: char) -> (k: TokenKind)
    ensures
        k == char_class(c),
{
    if c == ':' {
        TokenKind::Colon
    } else if c == '*' {
        TokenKind::Star
    } else if c == '.' {
        TokenKind::Dot
    } else if is_space(c) {
        TokenKind::Spaces
    } else if is_digit(c) {
        TokenKind::Digits
    } else {
        TokenKind::Identifier
    }
}

} // verus!
