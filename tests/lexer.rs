use bb::{tokenize, Spanned, Token, TokenKind};

fn text_of(tok: &Token) -> String {
    tok.text()
}

fn lex(input: &str) -> Vec<Spanned> {
    tokenize(input).unwrap()
}

fn kinds(toks: &[Spanned]) -> Vec<TokenKind> {
    toks.iter().map(|t| t.token.kind()).collect()
}

fn non_blank(toks: &[Spanned]) -> Vec<String> {
    toks.iter()
        .filter(|t| !matches!(t.token, Token::WhiteSpace(_) | Token::LineBreak))
        .map(|t| text_of(&t.token))
        .collect()
}

#[test]
fn simple() {
    let input = "sdf \"asd0duj19~\" saen.lk \"\"x\"\" \\/ |- : ;; @(w [dw wea (x 10.0)])@lck@@a \n    \n\n#ew(\n@end\n\n";
    let toks = lex(input);
    assert_eq!(
        non_blank(&toks),
        vec![
            "sdf", "\"asd0duj19~\"", "saen.lk", "\"\"", "x", "\"\"", "\\/", "|-", ":", ";;", "@", "(",
            "w", "[", "dw", "wea", "(", "x", "10.0", ")", "]", ")", "@", "lck", "@@", "a", "#", "ew",
            "(", "@end",
        ]
    );
    let all: String = toks.iter().map(|t| text_of(&t.token)).collect();
    assert_eq!(all, input);
}

#[test]
fn escape() {
    let toks = lex("@code{\\@\\@atom}\n");
    assert_eq!(
        kinds(&toks),
        vec![
            TokenKind::At,
            TokenKind::Atom,
            TokenKind::BraceOpen,
            TokenKind::Atom,
            TokenKind::Atom,
            TokenKind::BraceClose,
            TokenKind::LineBreak,
        ]
    );
    assert_eq!(text_of(&toks[3].token), "\\@");
    assert_eq!(text_of(&toks[4].token), "\\@atom");
}

#[test]
fn spans_are_contiguous_and_cover_input() {
    let input = "ab  @@(x)\u{e9}\n@@@@ \"q\\\"\"";
    let toks = lex(input);
    assert_eq!(toks[0].start, 0);
    assert_eq!(toks.last().unwrap().end, input.len());
    for w in toks.windows(2) {
        assert_eq!(w[0].end, w[1].start);
    }
    for t in &toks {
        assert_eq!(&input[t.start..t.end], text_of(&t.token));
    }
}

#[test]
fn empty_input_has_no_tokens() {
    assert!(lex("").is_empty());
}

#[test]
fn at_runs() {
    let toks = lex("@ @@ @@@ @@@@@ @end @endx");
    assert_eq!(
        kinds(&toks),
        vec![
            TokenKind::At,
            TokenKind::WhiteSpace,
            TokenKind::AtAt,
            TokenKind::WhiteSpace,
            TokenKind::AtAtAt,
            TokenKind::WhiteSpace,
            TokenKind::AtAtAt,
            TokenKind::WhiteSpace,
            TokenKind::AtEnd,
            TokenKind::WhiteSpace,
            TokenKind::AtEnd,
            TokenKind::Atom,
        ]
    );
    assert!(matches!(toks[4].token, Token::AtAtAt(3)));
    assert!(matches!(toks[6].token, Token::AtAtAt(5)));
}

#[test]
fn backslash_escapes_any_character() {
    for input in ["\\@x", "\\(", "\\#a", "\\ ", "\\\"", "\\\u{e9}b"] {
        let toks = lex(input);
        assert_eq!(toks.len(), 1, "{}", input);
        assert_eq!(text_of(&toks[0].token), input);
        assert_eq!(toks[0].token.kind(), TokenKind::Atom);
    }
}

#[test]
fn unterminated_quote_and_lone_backslash_fall_back() {
    let toks = lex("\"ab");
    assert!(matches!(toks[0].token, Token::Unknown('"')));
    assert_eq!(text_of(&toks[1].token), "ab");
    let toks = lex("\\");
    assert!(matches!(toks[0].token, Token::Unknown('\\')));
}

#[test]
fn whitespace_kinds() {
    let toks = lex("\t\u{a0}\n\r");
    assert!(matches!(toks[0].token, Token::WhiteSpace('\t')));
    assert!(matches!(toks[1].token, Token::WhiteSpace('\u{a0}')));
    assert!(matches!(toks[2].token, Token::LineBreak));
    assert!(matches!(toks[3].token, Token::WhiteSpace('\r')));
}

#[test]
fn token_text_round_trips() {
    assert_eq!(Token::AtAtAt(4).text(), "@@@@");
    assert_eq!(Token::AtEnd.text(), "@end");
    assert_eq!(Token::BraceOpen.text(), "{");
    assert_eq!(Token::Atom("x\\y".to_string()).text(), "x\\y");
    assert_eq!(Token::WhiteSpace('\t').text(), "\t");
    assert_eq!(Token::LineBreak.text(), "\n");
}

#[test]
fn spans_count_bytes() {
    let toks = lex("\u{e9}");
    assert_eq!(toks.len(), 1);
    assert_eq!(toks[0].token, Token::Unknown('\u{e9}'));
    assert_eq!((toks[0].start, toks[0].end), (0, 2));
    let toks = lex("a\u{1F600}bc \u{4e2d}");
    let spans: Vec<(usize, usize)> = toks.iter().map(|t| (t.start, t.end)).collect();
    assert_eq!(spans, vec![(0, 1), (1, 5), (5, 7), (7, 8), (8, 11)]);
    assert_eq!(toks[2].token, Token::Atom("bc".to_string()));
}

#[test]
fn token_equality() {
    assert_eq!(Token::AtAtAt(3), Token::AtAtAt(3));
    assert_ne!(Token::AtAtAt(3), Token::AtAtAt(4));
    assert_ne!(Token::At, Token::AtAt);
    assert_eq!(Token::Atom("x".to_string()), Token::Atom("x".to_string()));
    assert_ne!(Token::Atom("x".to_string()), Token::Atom("y".to_string()));
    assert_ne!(Token::WhiteSpace(' '), Token::Unknown(' '));
}
