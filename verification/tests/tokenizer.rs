use diurne::{class_of, is_digit, is_space, tokenize, Token, TokenKind, Tokenizer};

fn collect(input: &str) -> Vec<Token> {
    tokenize(input)
}

fn kind_range(t: &Token) -> (TokenKind, usize, usize) {
    (t.kind, t.span.start, t.span.end)
}

fn reconstruct(input: &str) -> String {
    let mut out = String::new();
    for t in collect(input) {
        out.push_str(&input[t.span.start..t.span.end]);
    }
    out
}

#[test]
fn filter_expression_example() {
    let toks = collect("food:restaurant.*");
    let got: Vec<(TokenKind, usize, usize)> = toks.iter().map(kind_range).collect();
    assert_eq!(
        got,
        vec![
            (TokenKind::Identifier, 0, 4),
            (TokenKind::Colon, 4, 5),
            (TokenKind::Identifier, 5, 15),
            (TokenKind::Dot, 15, 16),
            (TokenKind::Star, 16, 17),
        ]
    );
}

#[test]
fn spaces_digits_example() {
    let toks = collect("  12:ab");
    let got: Vec<(TokenKind, usize, usize)> = toks.iter().map(kind_range).collect();
    assert_eq!(
        got,
        vec![
            (TokenKind::Spaces, 0, 2),
            (TokenKind::Digits, 2, 4),
            (TokenKind::Colon, 4, 5),
            (TokenKind::Identifier, 5, 7),
        ]
    );
}

#[test]
fn crlf_is_one_break() {
    let toks = collect("a\r\nb");
    assert_eq!(toks.len(), 3);
    assert_eq!(toks[0].kind, TokenKind::Identifier);
    assert_eq!(toks[1].kind, TokenKind::Spaces);
    assert_eq!((toks[1].span.start, toks[1].span.end), (1, 3));
    assert_eq!(toks[2].kind, TokenKind::Identifier);
    assert_eq!(toks[2].span.line, 1);
    assert_eq!(toks[2].span.column, 0);
}

#[test]
fn lone_cr_is_a_break() {
    let toks = collect("a\rb");
    assert_eq!(toks.len(), 3);
    assert_eq!(toks[2].kind, TokenKind::Identifier);
    assert_eq!((toks[2].span.start, toks[2].span.end), (2, 3));
    assert_eq!(toks[2].span.line, 1);
    assert_eq!(toks[2].span.column, 0);
}

#[test]
fn cr_at_end_of_input() {
    let toks = collect("a\r");
    assert_eq!(toks.len(), 2);
    assert_eq!(toks[1].kind, TokenKind::Spaces);
    assert_eq!((toks[1].span.start, toks[1].span.end), (1, 2));
}

#[test]
fn unicode_line_separator_breaks() {
    let toks = collect("a\u{2028}b");
    assert_eq!(toks.len(), 3);
    assert_eq!(toks[1].kind, TokenKind::Spaces);
    assert_eq!(toks[2].span.line, 1);
    assert_eq!(toks[2].span.column, 0);
}

#[test]
fn adjacent_punctuation_stays_atomic() {
    let toks = collect("**");
    let got: Vec<(TokenKind, usize, usize)> = toks.iter().map(kind_range).collect();
    assert_eq!(
        got,
        vec![(TokenKind::Star, 0, 1), (TokenKind::Star, 1, 2)]
    );
    let toks = collect(":.*");
    let got: Vec<(TokenKind, usize, usize)> = toks.iter().map(kind_range).collect();
    assert_eq!(
        got,
        vec![
            (TokenKind::Colon, 0, 1),
            (TokenKind::Dot, 1, 2),
            (TokenKind::Star, 2, 3),
        ]
    );
}

#[test]
fn digit_runs_are_never_split() {
    let toks = collect("ab12");
    let got: Vec<(TokenKind, usize, usize)> = toks.iter().map(kind_range).collect();
    assert_eq!(
        got,
        vec![(TokenKind::Identifier, 0, 2), (TokenKind::Digits, 2, 4)]
    );
    let toks = collect("12.50");
    let got: Vec<(TokenKind, usize, usize)> = toks.iter().map(kind_range).collect();
    assert_eq!(
        got,
        vec![
            (TokenKind::Digits, 0, 2),
            (TokenKind::Dot, 2, 3),
            (TokenKind::Digits, 3, 5),
        ]
    );
}

#[test]
fn exhaustion_is_idempotent() {
    let mut tz = Tokenizer::new("x");
    assert!(tz.next().is_some());
    assert!(tz.next().is_none());
    assert!(tz.next().is_none());
    assert!(tz.next().is_none());
}

#[test]
fn empty_input_yields_nothing() {
    assert!(collect("").is_empty());
    let mut tz = Tokenizer::new("");
    assert!(tz.next().is_none());
}

#[test]
fn tokens_partition_the_input() {
    let samples = [
        "food:restaurant.*",
        "  12:ab",
        "a\r\nb",
        "store:*.coffee",
        "tag:123",
        "caf\u{e9}:\u{2603} 42 . * :",
        "\u{1f600}:ok",
        "\u{2028}\u{2029}\r\n\r",
        "",
        "...",
    ];
    for input in samples {
        assert_eq!(reconstruct(input), *input);
    }
}

#[test]
fn offsets_strictly_increase() {
    let samples = ["food:restaurant.*", "  12:ab", "a\r\nb", "caf\u{e9} 12"];
    for input in samples {
        let toks = collect(input);
        for w in toks.windows(2) {
            assert!(w[0].span.start < w[1].span.start);
            assert_eq!(w[0].span.end, w[1].span.start);
        }
        for t in &toks {
            assert!(t.span.start < t.span.end);
        }
    }
}

#[test]
fn multibyte_characters_count_by_bytes() {
    // 'é' is two bytes; the column is still counted in characters
    let toks = collect("\u{e9}:1");
    let got: Vec<(TokenKind, usize, usize)> = toks.iter().map(kind_range).collect();
    assert_eq!(
        got,
        vec![
            (TokenKind::Identifier, 0, 2),
            (TokenKind::Colon, 2, 3),
            (TokenKind::Digits, 3, 4),
        ]
    );
    assert_eq!(toks[1].span.column, 1);
}

#[test]
fn classification_is_total() {
    assert_eq!(class_of(':'), TokenKind::Colon);
    assert_eq!(class_of('*'), TokenKind::Star);
    assert_eq!(class_of('.'), TokenKind::Dot);
    assert_eq!(class_of(' '), TokenKind::Spaces);
    assert_eq!(class_of('\t'), TokenKind::Spaces);
    assert_eq!(class_of('7'), TokenKind::Digits);
    assert_eq!(class_of('a'), TokenKind::Identifier);
    assert_eq!(class_of('-'), TokenKind::Identifier);
    assert_eq!(class_of('\u{e9}'), TokenKind::Identifier);
    assert!(is_space('\u{a0}'));
    assert!(is_digit('0') && is_digit('9'));
    assert!(!is_digit('a'));
}

#[test]
fn cursor_bump_tracks_positions() {
    let mut tz = Tokenizer::new("a\r\nb");
    assert_eq!(tz.peek(), Some('a'));
    assert_eq!(tz.bump(), Some('a'));
    assert_eq!((tz.line, tz.column, tz.offset), (0, 1, 1));
    // the carriage return and the following line feed are one advance
    assert_eq!(tz.bump(), Some('\r'));
    assert_eq!((tz.line, tz.column, tz.offset), (1, 0, 3));
    assert_eq!(tz.peek(), Some('b'));
    assert_eq!(tz.bump(), Some('b'));
    assert_eq!(tz.bump(), None);
    assert_eq!(tz.peek(), None);
}

#[test]
fn positions_at_token_starts() {
    let toks = collect("ab\ncd ef");
    // Identifier "ab" @ line 0 col 0, Spaces "\n", Identifier "cd" @ line 1
    // col 0, Spaces " ", Identifier "ef" @ line 1 col 3
    assert_eq!(toks.len(), 5);
    assert_eq!((toks[0].span.line, toks[0].span.column), (0, 0));
    assert_eq!((toks[1].span.line, toks[1].span.column), (0, 2));
    assert_eq!((toks[2].span.line, toks[2].span.column), (1, 0));
    assert_eq!((toks[3].span.line, toks[3].span.column), (1, 2));
    assert_eq!((toks[4].span.line, toks[4].span.column), (1, 3));
}
