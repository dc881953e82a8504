use yu_core::keywords::{keyword, Keyword, SPELLINGS};

#[test]
fn both_languages_give_the_same_keyword() {
    for (uk, en) in [
        ("якщо", "if"),
        ("поки", "while"),
        ("функція", "function"),
        ("поверни", "return"),
        ("нічого", "nothing"),
    ] {
        assert_eq!(keyword(uk), keyword(en));
        assert!(keyword(uk).is_some());
    }
    assert_eq!(keyword("разів"), Some(Keyword::Times));
    assert_eq!(keyword("в"), Some(Keyword::In));
    assert_eq!(keyword("скажи"), None);
}

#[test]
fn every_spelling_is_listed_once() {
    let mut words: Vec<&str> = SPELLINGS.iter().map(|(w, _)| *w).collect();
    words.sort_unstable();
    words.dedup();
    assert_eq!(words.len(), SPELLINGS.len());
    assert_eq!(SPELLINGS.len(), 43);
    for (word, kind) in SPELLINGS {
        assert_eq!(keyword(word), Some(kind), "{word}");
    }
}
