use yu_core::builtins::Builtin;
use yu_core::draw::{parse_color, ColorSpec};
use yu_core::lexer::lex;
use yu_core::studio::{json_str, utf16_offset};
use yu_core::suggest::distance;
use yu_core::text::{is_whitespace, trim};
use yu_core::token::TokenKind;
use yu_core::token::TokenKindOf::{Colon, Dedent, Eof, Indent, Newline};
use yu_core::{ErrorKind, Options, Rgb};

#[test]
fn trim_drops_unicode_white_space_at_both_ends_only() {
    assert_eq!(trim(" \t a b \u{3000}\n"), "a b");
    assert_eq!(trim("\u{a0}\u{2009} "), "");
    assert_eq!(trim("x"), "x");
    assert!(is_whitespace('\u{85}'));
    assert!(is_whitespace('\u{202f}'));
    assert!(!is_whitespace('\u{200b}'));
    assert!(!is_whitespace('a'));
}

#[test]
fn outer_spaces_and_case_do_not_change_a_colour() {
    assert_eq!(parse_color("  Червона\t"), parse_color("червона"));
    assert_eq!(parse_color("\u{3000}#FF8800 "), Ok(ColorSpec::Exact(Rgb(0xff, 0x88, 0x00))));
}

#[test]
fn a_colours_hex_text_reads_back_as_that_colour() {
    for rgb in [Rgb(0, 0, 0), Rgb(255, 255, 255), Rgb(0x12, 0xab, 0x9f)] {
        assert_eq!(parse_color(&rgb.hex()), Ok(ColorSpec::Exact(rgb)));
    }
}

#[test]
fn distance_is_symmetric_and_obeys_the_triangle_law() {
    assert_eq!(distance("кіт", "кит"), distance("кит", "кіт"));
    assert_eq!(distance("kitten", "sitting"), distance("sitting", "kitten"));
    assert!(distance("kitten", "sitting") <= distance("kitten", "mitten") + distance("mitten", "sitting"));
    assert_eq!(distance("слово", "слово"), 0);
    assert!(distance("abc", "abcdef") >= 3);
}

#[test]
fn a_json_string_decodes_to_its_text_and_plain_text_stays_as_it_is() {
    assert_eq!(json_str("привіт, world"), "\"привіт, world\"");
    let s = json_str("\u{0}\u{1f}\t\"");
    assert!(s.starts_with('"') && s.ends_with('"'));
    assert!(s.chars().all(|c| c as u32 >= 0x20));
    assert_eq!(s, "\"\\u0000\\u001f\\t\\\"\"");
}

#[test]
fn a_later_byte_never_has_an_earlier_utf16_position() {
    let src = "a😀б";
    let mut last = 0;
    for b in 0..=src.len() {
        let u = utf16_offset(src, b);
        assert!(u >= last);
        last = u;
    }
    assert_eq!(utf16_offset(src, src.len()), 4);
}

#[test]
fn lookup_finds_each_builtin_by_its_names_and_nothing_else() {
    assert_eq!(Builtin::lookup("коло"), Some(Builtin::Circle));
    assert_eq!(Builtin::lookup("circle"), Some(Builtin::Circle));
    assert_eq!(Builtin::lookup("скаж"), None);
}

#[test]
fn nested_blocks_close_before_eof_and_newlines_never_follow_block_tokens() {
    let kinds: Vec<TokenKind> = lex("a:\n  b:\n    c").unwrap().into_iter().map(|t| t.kind).collect();
    let name = |s: &str| TokenKind::Name(s.into());
    assert_eq!(
        kinds,
        vec![
            name("a"), Colon, Newline, Indent, name("b"), Colon, Newline, Indent, name("c"),
            Newline, Dedent, Dedent, Eof
        ]
    );
}

#[test]
fn the_step_budget_and_the_depth_limit_stop_a_run() {
    let mut opts = Options::default();
    opts.step_budget = Some(2);
    opts.max_depth = 3;
    let mut steps = 0;
    assert_eq!(opts.tick(&mut steps), Ok(()));
    assert_eq!(opts.tick(&mut steps), Ok(()));
    assert_eq!(opts.tick(&mut steps), Err(ErrorKind::TooLong));
    assert_eq!(steps, 3);
    assert_eq!(opts.enter_call(2), Ok(()));
    assert_eq!(opts.enter_call(3), Err(ErrorKind::RecursionTooDeep));
    let unlimited = Options::default();
    let mut many = 1_000_000;
    assert_eq!(unlimited.tick(&mut many), Ok(()));
}

#[test]
fn every_palette_name_reads_back_as_its_colour() {
    for c in yu_core::draw::palette() {
        for lang in [yu_core::Lang::Uk, yu_core::Lang::En] {
            assert_eq!(parse_color(&c.name(lang)), Ok(ColorSpec::Exact(c.rgb)));
        }
    }
}

#[test]
fn every_builtin_name_looks_up_its_builtin() {
    for (b, uk, en) in yu_core::builtins::NAMES {
        assert_eq!(Builtin::lookup(uk), Some(b));
        assert_eq!(Builtin::lookup(en), Some(b));
        assert_eq!(Builtin::lookup(b.name(yu_core::Lang::En)), Some(b));
    }
}

#[test]
fn every_keyword_spelling_reads_as_its_keyword() {
    for (w, k) in yu_core::keywords::SPELLINGS {
        assert_eq!(yu_core::keywords::keyword(w), Some(k));
    }
    assert_eq!(yu_core::keywords::keyword("скажи"), None);
}
