//! Keywords in both languages.
use vstd::prelude::*;
use crate::text::{str_eq, word_key};

verus! {

/// Every keyword, whichever language it was written in.
#[derive(Debug, Clone, Copy, PartialEq, Eq, Structural)]
pub enum Keyword {
    If,
    Else,
    While,
    Repeat,
    Times,
    For,
    From,
    To,
    Step,
    In,
    Function,
    Return,
    Break,
    Continue,
    And,
    Or,
    Not,
    True,
    False,
    Nothing,
}

/// Every spelling of every keyword; the lexer and the Studio's highlighter both read it.
pub const SPELLINGS: [(&'static str, Keyword); 43] = [
    ("якщо", Keyword::If),
    ("if", Keyword::If),
    ("інакше", Keyword::Else),
    ("else", Keyword::Else),
    ("поки", Keyword::While),
    ("while", Keyword::While),
    ("повтори", Keyword::Repeat),
    ("repeat", Keyword::Repeat),
    ("раз", Keyword::Times),
    ("рази", Keyword::Times),
    ("разів", Keyword::Times),
    ("times", Keyword::Times),
    ("для", Keyword::For),
    ("for", Keyword::For),
    ("від", Keyword::From),
    ("from", Keyword::From),
    ("до", Keyword::To),
    ("to", Keyword::To),
    ("крок", Keyword::Step),
    ("step", Keyword::Step),
    ("у", Keyword::In),
    ("в", Keyword::In),
    ("in", Keyword::In),
    ("функція", Keyword::Function),
    ("function", Keyword::Function),
    ("поверни", Keyword::Return),
    ("return", Keyword::Return),
    ("стоп", Keyword::Break),
    ("break", Keyword::Break),
    ("далі", Keyword::Continue),
    ("continue", Keyword::Continue),
    ("і", Keyword::And),
    ("and", Keyword::And),
    ("або", Keyword::Or),
    ("or", Keyword::Or),
    ("не", Keyword::Not),
    ("not", Keyword::Not),
    ("так", Keyword::True),
    ("true", Keyword::True),
    ("ні", Keyword::False),
    ("false", Keyword::False),
    ("нічого", Keyword::Nothing),
    ("nothing", Keyword::Nothing),
];

/// The first spelling at or after `from` that reads `word`.
pub open spec fn find_spelling(word: Seq<char>, from: int) -> Option<Keyword>
    decreases 43 - from,
{
    if from < 0 || from >= 43 {
        None
    } else if SPELLINGS[from].0@ == word {
        Some(SPELLINGS[from].1)
    } else {
        find_spelling(word, from + 1)
    }
}

/// The keyword spelled `word`, in either language.
pub fn keyword(word: &str) -> (r: Option<Keyword>)
    ensures
        r == find_spelling(word@, 0),
{
    let mut i: usize = 0;
    while i < 43
        invariant
            i <= 43,
            find_spelling(word@, 0) == find_spelling(word@, i as int),
        decreases 43 - i,
    {
        let (w, k) = SPELLINGS[i];
        if str_eq(w, word) {
            return Some(k);
        }
        i += 1;
    }
    None
}

/// A word finds a keyword only through a spelling of it, and finds none exactly when no
/// listed spelling reads so.
pub proof fn lemma_find_spelling(word: Seq<char>, from: int)
    requires
        0 <= from <= 43,
    ensures
        find_spelling(word, from) matches Some(k) ==> exists|r: int|
            from <= r < 43 && #[trigger] SPELLINGS[r].1 == k && SPELLINGS[r].0@ == word,
        find_spelling(word, from) is None <==> forall|r: int|
            from <= r < 43 ==> #[trigger] SPELLINGS[r].0@ != word,
    decreases 43 - from,
{
    if from < 43 {
        lemma_find_spelling(word, from + 1);
        if find_spelling(word, from) is None {
            assert forall|r: int| from <= r < 43 implies #[trigger] SPELLINGS[r].0@ != word by {
                if r > from {
                    assert(SPELLINGS[r].0@ != word);
                }
            }
        }
    }
}

/// Every listed spelling reads as its own keyword: no spelling is listed twice.
pub proof fn lemma_every_spelling_reads_as_its_keyword(i: int)
    requires
        0 <= i < 43,
    ensures
        find_spelling(SPELLINGS[i].0@, 0) == Some(SPELLINGS[i].1),
{
    assert(word_key("якщо"@) == (4nat, 'я', 'щ', 'о')) by {
        reveal_strlit("якщо");
    }
    assert(word_key("if"@) == (2nat, 'i', 'f', 'f')) by {
        reveal_strlit("if");
    }
    assert(word_key("інакше"@) == (6nat, 'і', 'к', 'е')) by {
        reveal_strlit("інакше");
    }
    assert(word_key("else"@) == (4nat, 'e', 's', 'e')) by {
        reveal_strlit("else");
    }
    assert(word_key("поки"@) == (4nat, 'п', 'к', 'и')) by {
        reveal_strlit("поки");
    }
    assert(word_key("while"@) == (5nat, 'w', 'i', 'e')) by {
        reveal_strlit("while");
    }
    assert(word_key("повтори"@) == (7nat, 'п', 'т', 'и')) by {
        reveal_strlit("повтори");
    }
    assert(word_key("repeat"@) == (6nat, 'r', 'e', 't')) by {
        reveal_strlit("repeat");
    }
    assert(word_key("раз"@) == (3nat, 'р', 'а', 'з')) by {
        reveal_strlit("раз");
    }
    assert(word_key("рази"@) == (4nat, 'р', 'з', 'и')) by {
        reveal_strlit("рази");
    }
    assert(word_key("разів"@) == (5nat, 'р', 'з', 'в')) by {
        reveal_strlit("разів");
    }
    assert(word_key("times"@) == (5nat, 't', 'm', 's')) by {
        reveal_strlit("times");
    }
    assert(word_key("для"@) == (3nat, 'д', 'л', 'я')) by {
        reveal_strlit("для");
    }
    assert(word_key("for"@) == (3nat, 'f', 'o', 'r')) by {
        reveal_strlit("for");
    }
    assert(word_key("від"@) == (3nat, 'в', 'і', 'д')) by {
        reveal_strlit("від");
    }
    assert(word_key("from"@) == (4nat, 'f', 'o', 'm')) by {
        reveal_strlit("from");
    }
    assert(word_key("до"@) == (2nat, 'д', 'о', 'о')) by {
        reveal_strlit("до");
    }
    assert(word_key("to"@) == (2nat, 't', 'o', 'o')) by {
        reveal_strlit("to");
    }
    assert(word_key("крок"@) == (4nat, 'к', 'о', 'к')) by {
        reveal_strlit("крок");
    }
    assert(word_key("step"@) == (4nat, 's', 'e', 'p')) by {
        reveal_strlit("step");
    }
    assert(word_key("у"@) == (1nat, 'у', 'у', 'у')) by {
        reveal_strlit("у");
    }
    assert(word_key("в"@) == (1nat, 'в', 'в', 'в')) by {
        reveal_strlit("в");
    }
    assert(word_key("in"@) == (2nat, 'i', 'n', 'n')) by {
        reveal_strlit("in");
    }
    assert(word_key("функція"@) == (7nat, 'ф', 'к', 'я')) by {
        reveal_strlit("функція");
    }
    assert(word_key("function"@) == (8nat, 'f', 't', 'n')) by {
        reveal_strlit("function");
    }
    assert(word_key("поверни"@) == (7nat, 'п', 'е', 'и')) by {
        reveal_strlit("поверни");
    }
    assert(word_key("return"@) == (6nat, 'r', 'u', 'n')) by {
        reveal_strlit("return");
    }
    assert(word_key("стоп"@) == (4nat, 'с', 'о', 'п')) by {
        reveal_strlit("стоп");
    }
    assert(word_key("break"@) == (5nat, 'b', 'e', 'k')) by {
        reveal_strlit("break");
    }
    assert(word_key("далі"@) == (4nat, 'д', 'л', 'і')) by {
        reveal_strlit("далі");
    }
    assert(word_key("continue"@) == (8nat, 'c', 'i', 'e')) by {
        reveal_strlit("continue");
    }
    assert(word_key("і"@) == (1nat, 'і', 'і', 'і')) by {
        reveal_strlit("і");
    }
    assert(word_key("and"@) == (3nat, 'a', 'n', 'd')) by {
        reveal_strlit("and");
    }
    assert(word_key("або"@) == (3nat, 'а', 'б', 'о')) by {
        reveal_strlit("або");
    }
    assert(word_key("or"@) == (2nat, 'o', 'r', 'r')) by {
        reveal_strlit("or");
    }
    assert(word_key("не"@) == (2nat, 'н', 'е', 'е')) by {
        reveal_strlit("не");
    }
    assert(word_key("not"@) == (3nat, 'n', 'o', 't')) by {
        reveal_strlit("not");
    }
    assert(word_key("так"@) == (3nat, 'т', 'а', 'к')) by {
        reveal_strlit("так");
    }
    assert(word_key("true"@) == (4nat, 't', 'u', 'e')) by {
        reveal_strlit("true");
    }
    assert(word_key("ні"@) == (2nat, 'н', 'і', 'і')) by {
        reveal_strlit("ні");
    }
    assert(word_key("false"@) == (5nat, 'f', 'l', 'e')) by {
        reveal_strlit("false");
    }
    assert(word_key("нічого"@) == (6nat, 'н', 'о', 'о')) by {
        reveal_strlit("нічого");
    }
    assert(word_key("nothing"@) == (7nat, 'n', 'h', 'g')) by {
        reveal_strlit("nothing");
    }
    if i == 0 {
        assert(find_spelling("якщо"@, 0) == Some(Keyword::If)) by {
            reveal_with_fuel(find_spelling, 1);
        }
    } else if i == 1 {
        assert(find_spelling("if"@, 0) == Some(Keyword::If)) by {
            reveal_with_fuel(find_spelling, 2);
        }
    } else if i == 2 {
        assert(find_spelling("інакше"@, 0) == Some(Keyword::Else)) by {
            reveal_with_fuel(find_spelling, 3);
        }
    } else if i == 3 {
        assert(find_spelling("else"@, 0) == Some(Keyword::Else)) by {
            reveal_with_fuel(find_spelling, 4);
        }
    } else if i == 4 {
        assert(find_spelling("поки"@, 0) == Some(Keyword::While)) by {
            reveal_with_fuel(find_spelling, 5);
        }
    } else if i == 5 {
        assert(find_spelling("while"@, 0) == Some(Keyword::While)) by {
            reveal_with_fuel(find_spelling, 6);
        }
    } else if i == 6 {
        assert(find_spelling("повтори"@, 0) == Some(Keyword::Repeat)) by {
            reveal_with_fuel(find_spelling, 7);
        }
    } else if i == 7 {
        assert(find_spelling("repeat"@, 0) == Some(Keyword::Repeat)) by {
            reveal_with_fuel(find_spelling, 8);
        }
    } else if i == 8 {
        assert(find_spelling("раз"@, 0) == Some(Keyword::Times)) by {
            reveal_with_fuel(find_spelling, 9);
        }
    } else if i == 9 {
        assert(find_spelling("рази"@, 0) == Some(Keyword::Times)) by {
            reveal_with_fuel(find_spelling, 10);
        }
    } else if i == 10 {
        assert(find_spelling("разів"@, 0) == Some(Keyword::Times)) by {
            reveal_with_fuel(find_spelling, 11);
        }
    } else if i == 11 {
        assert(find_spelling("times"@, 0) == Some(Keyword::Times)) by {
            reveal_with_fuel(find_spelling, 12);
        }
    } else if i == 12 {
        assert(find_spelling("для"@, 0) == Some(Keyword::For)) by {
            reveal_with_fuel(find_spelling, 13);
        }
    } else if i == 13 {
        assert(find_spelling("for"@, 0) == Some(Keyword::For)) by {
            reveal_with_fuel(find_spelling, 14);
        }
    } else if i == 14 {
        assert(find_spelling("від"@, 0) == Some(Keyword::From)) by {
            reveal_with_fuel(find_spelling, 15);
        }
    } else if i == 15 {
        assert(find_spelling("from"@, 0) == Some(Keyword::From)) by {
            reveal_with_fuel(find_spelling, 16);
        }
    } else if i == 16 {
        assert(find_spelling("до"@, 0) == Some(Keyword::To)) by {
            reveal_with_fuel(find_spelling, 17);
        }
    } else if i == 17 {
        assert(find_spelling("to"@, 0) == Some(Keyword::To)) by {
            reveal_with_fuel(find_spelling, 18);
        }
    } else if i == 18 {
        assert(find_spelling("крок"@, 0) == Some(Keyword::Step)) by {
            reveal_with_fuel(find_spelling, 19);
        }
    } else if i == 19 {
        assert(find_spelling("step"@, 0) == Some(Keyword::Step)) by {
            reveal_with_fuel(find_spelling, 20);
        }
    } else if i == 20 {
        assert(find_spelling("у"@, 0) == Some(Keyword::In)) by {
            reveal_with_fuel(find_spelling, 21);
        }
    } else if i == 21 {
        assert(find_spelling("в"@, 0) == Some(Keyword::In)) by {
            reveal_with_fuel(find_spelling, 22);
        }
    } else if i == 22 {
        assert(find_spelling("in"@, 0) == Some(Keyword::In)) by {
            reveal_with_fuel(find_spelling, 23);
        }
    } else if i == 23 {
        assert(find_spelling("функція"@, 0) == Some(Keyword::Function)) by {
            reveal_with_fuel(find_spelling, 24);
        }
    } else if i == 24 {
        assert(find_spelling("function"@, 0) == Some(Keyword::Function)) by {
            reveal_with_fuel(find_spelling, 25);
        }
    } else if i == 25 {
        assert(find_spelling("поверни"@, 0) == Some(Keyword::Return)) by {
            reveal_with_fuel(find_spelling, 26);
        }
    } else if i == 26 {
        assert(find_spelling("return"@, 0) == Some(Keyword::Return)) by {
            reveal_with_fuel(find_spelling, 27);
        }
    } else if i == 27 {
        assert(find_spelling("стоп"@, 0) == Some(Keyword::Break)) by {
            reveal_with_fuel(find_spelling, 28);
        }
    } else if i == 28 {
        assert(find_spelling("break"@, 0) == Some(Keyword::Break)) by {
            reveal_with_fuel(find_spelling, 29);
        }
    } else if i == 29 {
        assert(find_spelling("далі"@, 0) == Some(Keyword::Continue)) by {
            reveal_with_fuel(find_spelling, 30);
        }
    } else if i == 30 {
        assert(find_spelling("continue"@, 0) == Some(Keyword::Continue)) by {
            reveal_with_fuel(find_spelling, 31);
        }
    } else if i == 31 {
        assert(find_spelling("і"@, 0) == Some(Keyword::And)) by {
            reveal_with_fuel(find_spelling, 32);
        }
    } else if i == 32 {
        assert(find_spelling("and"@, 0) == Some(Keyword::And)) by {
            reveal_with_fuel(find_spelling, 33);
        }
    } else if i == 33 {
        assert(find_spelling("або"@, 0) == Some(Keyword::Or)) by {
            reveal_with_fuel(find_spelling, 34);
        }
    } else if i == 34 {
        assert(find_spelling("or"@, 0) == Some(Keyword::Or)) by {
            reveal_with_fuel(find_spelling, 35);
        }
    } else if i == 35 {
        assert(find_spelling("не"@, 0) == Some(Keyword::Not)) by {
            reveal_with_fuel(find_spelling, 36);
        }
    } else if i == 36 {
        assert(find_spelling("not"@, 0) == Some(Keyword::Not)) by {
            reveal_with_fuel(find_spelling, 37);
        }
    } else if i == 37 {
        assert(find_spelling("так"@, 0) == Some(Keyword::True)) by {
            reveal_with_fuel(find_spelling, 38);
        }
    } else if i == 38 {
        assert(find_spelling("true"@, 0) == Some(Keyword::True)) by {
            reveal_with_fuel(find_spelling, 39);
        }
    } else if i == 39 {
        assert(find_spelling("ні"@, 0) == Some(Keyword::False)) by {
            reveal_with_fuel(find_spelling, 40);
        }
    } else if i == 40 {
        assert(find_spelling("false"@, 0) == Some(Keyword::False)) by {
            reveal_with_fuel(find_spelling, 41);
        }
    } else if i == 41 {
        assert(find_spelling("нічого"@, 0) == Some(Keyword::Nothing)) by {
            reveal_with_fuel(find_spelling, 42);
        }
    } else if i == 42 {
        assert(find_spelling("nothing"@, 0) == Some(Keyword::Nothing)) by {
            reveal_with_fuel(find_spelling, 43);
        }
    }
}

} // verus!
