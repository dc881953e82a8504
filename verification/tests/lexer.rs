use yu_core::keywords::Keyword::{And, False, If, Not, True};
use yu_core::lexer::lex;
use yu_core::token::TokenKind;
use yu_core::token::TokenKindOf::{
    Assign, Colon, Comma, Dedent, Eof, EqEq, Greater, GreaterEq, Indent, Kw, LBracket, LParen,
    Less, LessEq, Minus, Newline, NotEq, Percent, Plus, RBracket, RParen, Slash, Star, Text,
};
use yu_core::{ErrorKind, Span};

fn kinds(src: &str) -> Vec<TokenKind> {
    lex(src).unwrap().into_iter().map(|t| t.kind).collect()
}

fn name(s: &str) -> TokenKind {
    TokenKind::Name(s.into())
}

/// A number token as its digits are printed.
fn num(x: f64) -> TokenKind {
    TokenKind::Number(format!("{x}"))
}

#[test]
fn numbers_and_assignment() {
    assert_eq!(kinds("x = 1_000.5\n"), vec![name("x"), Assign, num(1000.5), Newline, Eof]);
}

#[test]
fn apostrophe_joins_a_name_and_is_normalised() {
    assert_eq!(
        kinds("ім’я = \"Юрій\""),
        vec![name("ім'я"), Assign, Text("Юрій".into()), Newline, Eof]
    );
}

#[test]
fn keywords_in_both_languages() {
    let uk = kinds("якщо так і не ні");
    assert_eq!(uk, vec![Kw(If), Kw(True), Kw(And), Kw(Not), Kw(False), Newline, Eof]);
    assert_eq!(kinds("if true and not false"), uk);
}

#[test]
fn operators() {
    assert_eq!(
        kinds("a == b != c <= d >= e < f > g + h - i * j / k % l"),
        vec![
            name("a"),
            EqEq,
            name("b"),
            NotEq,
            name("c"),
            LessEq,
            name("d"),
            GreaterEq,
            name("e"),
            Less,
            name("f"),
            Greater,
            name("g"),
            Plus,
            name("h"),
            Minus,
            name("i"),
            Star,
            name("j"),
            Slash,
            name("k"),
            Percent,
            name("l"),
            Newline,
            Eof,
        ]
    );
}

#[test]
fn text_escapes_and_errors() {
    assert_eq!(kinds(r#""a\n\"b""#), vec![Text("a\n\"b".into()), Newline, Eof]);
    assert_eq!(lex("\"abc").unwrap_err().kind, ErrorKind::UnterminatedText);
    assert_eq!(lex(r#""a\q""#).unwrap_err().kind, ErrorKind::BadEscape('q'));
    let err = lex("x = 1 @ 2").unwrap_err();
    assert_eq!(err.kind, ErrorKind::UnexpectedChar('@'));
    assert_eq!(err.span, Span::new(6, 7));
}

#[test]
fn comments_and_blank_lines_are_skipped() {
    assert_eq!(
        kinds("x = 1 # коментар\n\n# лише коментар\ny = 2"),
        vec![name("x"), Assign, num(1.0), Newline, name("y"), Assign, num(2.0), Newline, Eof]
    );
}

#[test]
fn indentation_blocks() {
    let src = "якщо x:\n    скажи(1)\n\n    скажи(2)\nскажи(3)\n";
    assert_eq!(
        kinds(src),
        vec![
            Kw(If),
            name("x"),
            Colon,
            Newline,
            Indent,
            name("скажи"),
            LParen,
            num(1.0),
            RParen,
            Newline,
            name("скажи"),
            LParen,
            num(2.0),
            RParen,
            Newline,
            Dedent,
            name("скажи"),
            LParen,
            num(3.0),
            RParen,
            Newline,
            Eof,
        ]
    );
}

#[test]
fn nested_blocks_close_at_end_of_file() {
    assert_eq!(
        kinds("a:\n  b:\n    c"),
        vec![
            name("a"),
            Colon,
            Newline,
            Indent,
            name("b"),
            Colon,
            Newline,
            Indent,
            name("c"),
            Newline,
            Dedent,
            Dedent,
            Eof
        ]
    );
}

#[test]
fn newlines_inside_brackets_are_ignored() {
    assert_eq!(
        kinds("x = [1,\n  2]\n"),
        vec![name("x"), Assign, LBracket, num(1.0), Comma, num(2.0), RBracket, Newline, Eof]
    );
}

#[test]
fn indentation_errors() {
    assert_eq!(lex("a:\n\tb\n    c").unwrap_err().kind, ErrorKind::MixedIndent);
    assert_eq!(lex("a:\n    b\n  c").unwrap_err().kind, ErrorKind::BadDedent);
}

#[test]
fn bom_and_crlf() {
    assert_eq!(kinds("\u{feff}x"), vec![name("x"), Newline, Eof]);
    assert_eq!(
        kinds("a:\r\n  b\r\n"),
        vec![name("a"), Colon, Newline, Indent, name("b"), Newline, Dedent, Eof]
    );
}

#[test]
fn every_token_list_ends_with_eof_and_closes_its_blocks() {
    for src in ["", "x", "a:\n  b:\n    c\n", "якщо x:\n    y = [1,\n 2]\n", "# лише коментар\n"] {
        let tokens = lex(src).unwrap();
        assert_eq!(tokens.last().unwrap().kind, Eof, "{src:?}");
        assert_eq!(tokens.iter().filter(|t| t.kind == Eof).count(), 1, "{src:?}");
        let opened = tokens.iter().filter(|t| t.kind == Indent).count();
        let closed = tokens.iter().filter(|t| t.kind == Dedent).count();
        assert_eq!(opened, closed, "{src:?}");
        assert_ne!(tokens[0].kind, Newline, "{src:?}");
        for pair in tokens.windows(2) {
            assert!(!(pair[0].kind == Newline && pair[1].kind == Newline), "{src:?}");
        }
        for t in &tokens {
            assert!(t.span.start <= t.span.end && t.span.end <= src.len(), "{src:?}");
        }
    }
}

#[test]
fn spans_cover_the_token_text() {
    let src = "ціна = 12\n";
    let tokens = lex(src).unwrap();
    assert_eq!(&src[tokens[0].span.start..tokens[0].span.end], "ціна");
    assert_eq!(&src[tokens[2].span.start..tokens[2].span.end], "12");
    assert_eq!(tokens[3].span, Span::new(src.len() - 1, src.len()));
}

#[test]
fn an_unterminated_text_points_from_its_quote() {
    let err = lex("x = \"ab\ny").unwrap_err();
    assert_eq!(err.kind, ErrorKind::UnterminatedText);
    assert_eq!(err.span, Span::new(4, 7));
}
