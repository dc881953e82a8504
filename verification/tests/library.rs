use yu_core::builtins::{Builtin, NAMES};
use yu_core::keywords::SPELLINGS;
use yu_core::lexer::lex;
use yu_core::library::{entries, Section, Word, ENTRY_COUNT};
use yu_core::token::TokenKind;
use yu_core::Lang;

const LANGS: [Lang; 2] = [Lang::Uk, Lang::En];

#[test]
fn every_word_of_yu_has_an_entry() {
    let all = entries();
    for (b, uk, _) in NAMES {
        let found = all
            .iter()
            .filter(|e| matches!(e.word, Word::Builtin(x) if x == b))
            .count();
        assert_eq!(found, 1, "{uk}");
    }
    for (spelling, k) in SPELLINGS {
        let covered = all
            .iter()
            .any(|e| matches!(e.word, Word::Keywords { words, .. } if words.contains(&k)));
        assert!(covered, "{spelling}");
    }
}

#[test]
fn entries_come_section_by_section() {
    let all = entries();
    let order: Vec<usize> = all
        .iter()
        .map(|e| Section::ALL.iter().position(|s| *s == e.section).unwrap())
        .collect();
    assert!(order.windows(2).all(|pair| pair[0] <= pair[1]));
    for section in Section::ALL {
        assert!(all.iter().any(|e| e.section == section), "{section:?}");
    }
}

#[test]
fn entries_read_well() {
    let all = entries();
    let circle = all
        .iter()
        .find(|e| matches!(e.word, Word::Builtin(Builtin::Circle)))
        .unwrap();
    assert_eq!(circle.name(Lang::Uk), "коло");
    assert_eq!(circle.form(Lang::En), "circle(x, y, r)");
    assert_eq!(circle.example(Lang::Uk), "колір(\"червоний\")\nколо(300, 200, 80)");
    let repeat = all.iter().find(|e| e.name(Lang::En) == "repeat … times").unwrap();
    assert_eq!(repeat.form(Lang::Uk), "повтори N разів:");
    assert_eq!(repeat.section.title(Lang::Uk), "Цикли");
    assert_eq!(repeat.section.id(), "loops");
    for entry in &all {
        for lang in LANGS {
            let lines = entry.example(lang).lines().count();
            assert!((2..=7).contains(&lines), "{}: {lines} lines", entry.name(lang));
            assert!(!entry.text(lang).is_empty(), "{}", entry.name(lang));
        }
    }
}

#[test]
fn every_example_uses_its_words_and_speaks_one_language() {
    for entry in &entries() {
        for lang in LANGS {
            let example = entry.example(lang);
            let tokens = lex(example).expect("an example lexes");
            for token in &tokens {
                match &token.kind {
                    TokenKind::Kw(_) => {
                        let spelled = &example[token.span.start..token.span.end];
                        assert_eq!(
                            spelled.is_ascii(),
                            lang == Lang::En,
                            "{} uses «{spelled}»",
                            entry.name(lang)
                        );
                    }
                    TokenKind::Name(name) => {
                        if let Some(b) = Builtin::lookup(name) {
                            assert_eq!(b.name(lang), name.as_str(), "{}", entry.name(lang));
                        }
                    }
                    _ => {}
                }
            }
            match entry.word {
                Word::Builtin(b) => {
                    let called = TokenKind::Name(b.name(lang).to_string());
                    assert!(tokens.iter().any(|t| t.kind == called), "{}", entry.name(lang));
                }
                Word::Keywords { words, .. } => {
                    for k in words {
                        assert!(
                            tokens.iter().any(|t| t.kind == TokenKind::Kw(*k)),
                            "{} lacks {k:?}",
                            entry.name(lang)
                        );
                    }
                }
            }
        }
    }
}

#[test]
fn the_library_has_every_entry_once() {
    assert_eq!(entries().len(), ENTRY_COUNT);
    assert_eq!(Section::ALL.len(), 7);
    assert_eq!(Section::Drawing.title(Lang::En), "Drawing");
}
