//! The built-in commands: their names in both languages, how many arguments they take,
//! how to write them and the random sequence they share.
use vstd::prelude::*;
use crate::lang::Lang;
use crate::diagnostic::ErrorKind;
use crate::text::{owned, str_eq, word_key};

verus! {

#[derive(Debug, Clone, Copy, PartialEq, Eq, Structural)]
pub enum Builtin {
    Say,
    Ask,
    Length,
    Number,
    Text,
    Random,
    Round,
    Append,
    Canvas,
    Background,
    Color,
    Thickness,
    Circle,
    Rect,
    Line,
    Label,
    Forward,
    Back,
    Right,
    Left,
    PenUp,
    PenDown,
    BeginFill,
    EndFill,
}

/// Ukrainian and English name of every built-in.
pub const NAMES: [(Builtin, &'static str, &'static str); 24] = [
    (Builtin::Say, "скажи", "say"),
    (Builtin::Ask, "запитай", "ask"),
    (Builtin::Length, "довжина", "length"),
    (Builtin::Number, "число", "number"),
    (Builtin::Text, "текст", "text"),
    (Builtin::Random, "випадкове", "random"),
    (Builtin::Round, "округли", "round"),
    (Builtin::Append, "додай", "append"),
    (Builtin::Canvas, "полотно", "canvas"),
    (Builtin::Background, "фон", "background"),
    (Builtin::Color, "колір", "color"),
    (Builtin::Thickness, "товщина", "thickness"),
    (Builtin::Circle, "коло", "circle"),
    (Builtin::Rect, "прямокутник", "rect"),
    (Builtin::Line, "лінія", "line"),
    (Builtin::Label, "напис", "label"),
    (Builtin::Forward, "вперед", "forward"),
    (Builtin::Back, "назад", "back"),
    (Builtin::Right, "праворуч", "right"),
    (Builtin::Left, "ліворуч", "left"),
    (Builtin::PenUp, "підніми_перо", "pen_up"),
    (Builtin::PenDown, "опусти_перо", "pen_down"),
    (Builtin::BeginFill, "почни_заливку", "begin_fill"),
    (Builtin::EndFill, "заверши_заливку", "end_fill"),
];

/// The first built-in at or after row `from` of [`NAMES`] spelled `word` in either language.
pub open spec fn find_builtin(word: Seq<char>, from: int) -> Option<Builtin>
    decreases 24 - from,
{
    if from < 0 || from >= 24 {
        None
    } else if NAMES[from].1@ == word || NAMES[from].2@ == word {
        Some(NAMES[from].0)
    } else {
        find_builtin(word, from + 1)
    }
}

/// A word finds a built-in only through a row of [`NAMES`] that spells it, and finds none
/// exactly when no row spells it.
pub proof fn lemma_find_builtin(word: Seq<char>, from: int)
    requires
        0 <= from <= 24,
    ensures
        find_builtin(word, from) matches Some(b) ==> exists|r: int|
            from <= r < 24 && #[trigger] NAMES[r].0 == b && (NAMES[r].1@ == word || NAMES[r].2@
                == word),
        find_builtin(word, from) is None <==> forall|r: int|
            from <= r < 24 ==> #[trigger] NAMES[r].1@ != word && NAMES[r].2@ != word,
    decreases 24 - from,
{
    if from < 24 {
        lemma_find_builtin(word, from + 1);
        if find_builtin(word, from) is None {
            assert forall|r: int| from <= r < 24 implies #[trigger] NAMES[r].1@ != word
                && NAMES[r].2@ != word by {
                if r > from {
                    assert(NAMES[r].1@ != word);
                }
            }
        }
    }
}

/// Every built-in is found by its name in either language: no name is listed twice.
pub proof fn lemma_every_name_finds_its_builtin(b: Builtin, lang: Lang)
    ensures
        find_builtin(b.spec_name(lang), 0) == Some(b),
{
    assert(word_key("скажи"@) == (5nat, 'с', 'а', 'и')) by {
        reveal_strlit("скажи");
    }
    assert(word_key("say"@) == (3nat, 's', 'a', 'y')) by {
        reveal_strlit("say");
    }
    assert(word_key("запитай"@) == (7nat, 'з', 'и', 'й')) by {
        reveal_strlit("запитай");
    }
    assert(word_key("ask"@) == (3nat, 'a', 's', 'k')) by {
        reveal_strlit("ask");
    }
    assert(word_key("довжина"@) == (7nat, 'д', 'ж', 'а')) by {
        reveal_strlit("довжина");
    }
    assert(word_key("length"@) == (6nat, 'l', 'g', 'h')) by {
        reveal_strlit("length");
    }
    assert(word_key("число"@) == (5nat, 'ч', 'с', 'о')) by {
        reveal_strlit("число");
    }
    assert(word_key("number"@) == (6nat, 'n', 'b', 'r')) by {
        reveal_strlit("number");
    }
    assert(word_key("текст"@) == (5nat, 'т', 'к', 'т')) by {
        reveal_strlit("текст");
    }
    assert(word_key("text"@) == (4nat, 't', 'x', 't')) by {
        reveal_strlit("text");
    }
    assert(word_key("випадкове"@) == (9nat, 'в', 'д', 'е')) by {
        reveal_strlit("випадкове");
    }
    assert(word_key("random"@) == (6nat, 'r', 'd', 'm')) by {
        reveal_strlit("random");
    }
    assert(word_key("округли"@) == (7nat, 'о', 'у', 'и')) by {
        reveal_strlit("округли");
    }
    assert(word_key("round"@) == (5nat, 'r', 'u', 'd')) by {
        reveal_strlit("round");
    }
    assert(word_key("додай"@) == (5nat, 'д', 'д', 'й')) by {
        reveal_strlit("додай");
    }
    assert(word_key("append"@) == (6nat, 'a', 'e', 'd')) by {
        reveal_strlit("append");
    }
    assert(word_key("полотно"@) == (7nat, 'п', 'о', 'о')) by {
        reveal_strlit("полотно");
    }
    assert(word_key("canvas"@) == (6nat, 'c', 'v', 's')) by {
        reveal_strlit("canvas");
    }
    assert(word_key("фон"@) == (3nat, 'ф', 'о', 'н')) by {
        reveal_strlit("фон");
    }
    assert(word_key("background"@) == (10nat, 'b', 'r', 'd')) by {
        reveal_strlit("background");
    }
    assert(word_key("колір"@) == (5nat, 'к', 'л', 'р')) by {
        reveal_strlit("колір");
    }
    assert(word_key("color"@) == (5nat, 'c', 'l', 'r')) by {
        reveal_strlit("color");
    }
    assert(word_key("товщина"@) == (7nat, 'т', 'щ', 'а')) by {
        reveal_strlit("товщина");
    }
    assert(word_key("thickness"@) == (9nat, 't', 'k', 's')) by {
        reveal_strlit("thickness");
    }
    assert(word_key("коло"@) == (4nat, 'к', 'л', 'о')) by {
        reveal_strlit("коло");
    }
    assert(word_key("circle"@) == (6nat, 'c', 'c', 'e')) by {
        reveal_strlit("circle");
    }
    assert(word_key("прямокутник"@) == (11nat, 'п', 'к', 'к')) by {
        reveal_strlit("прямокутник");
    }
    assert(word_key("rect"@) == (4nat, 'r', 'c', 't')) by {
        reveal_strlit("rect");
    }
    assert(word_key("лінія"@) == (5nat, 'л', 'н', 'я')) by {
        reveal_strlit("лінія");
    }
    assert(word_key("line"@) == (4nat, 'l', 'n', 'e')) by {
        reveal_strlit("line");
    }
    assert(word_key("напис"@) == (5nat, 'н', 'п', 'с')) by {
        reveal_strlit("напис");
    }
    assert(word_key("label"@) == (5nat, 'l', 'b', 'l')) by {
        reveal_strlit("label");
    }
    assert(word_key("вперед"@) == (6nat, 'в', 'р', 'д')) by {
        reveal_strlit("вперед");
    }
    assert(word_key("forward"@) == (7nat, 'f', 'w', 'd')) by {
        reveal_strlit("forward");
    }
    assert(word_key("назад"@) == (5nat, 'н', 'з', 'д')) by {
        reveal_strlit("назад");
    }
    assert(word_key("back"@) == (4nat, 'b', 'c', 'k')) by {
        reveal_strlit("back");
    }
    assert(word_key("праворуч"@) == (8nat, 'п', 'о', 'ч')) by {
        reveal_strlit("праворуч");
    }
    assert(word_key("right"@) == (5nat, 'r', 'g', 't')) by {
        reveal_strlit("right");
    }
    assert(word_key("ліворуч"@) == (7nat, 'л', 'о', 'ч')) by {
        reveal_strlit("ліворуч");
    }
    assert(word_key("left"@) == (4nat, 'l', 'f', 't')) by {
        reveal_strlit("left");
    }
    assert(word_key("підніми_перо"@) == (12nat, 'п', 'и', 'о')) by {
        reveal_strlit("підніми_перо");
    }
    assert(word_key("pen_up"@) == (6nat, 'p', '_', 'p')) by {
        reveal_strlit("pen_up");
    }
    assert(word_key("опусти_перо"@) == (11nat, 'о', 'и', 'о')) by {
        reveal_strlit("опусти_перо");
    }
    assert(word_key("pen_down"@) == (8nat, 'p', 'd', 'n')) by {
        reveal_strlit("pen_down");
    }
    assert(word_key("почни_заливку"@) == (13nat, 'п', 'з', 'у')) by {
        reveal_strlit("почни_заливку");
    }
    assert(word_key("begin_fill"@) == (10nat, 'b', '_', 'l')) by {
        reveal_strlit("begin_fill");
    }
    assert(word_key("заверши_заливку"@) == (15nat, 'з', '_', 'у')) by {
        reveal_strlit("заверши_заливку");
    }
    assert(word_key("end_fill"@) == (8nat, 'e', 'f', 'l')) by {
        reveal_strlit("end_fill");
    }
    match b {
        Builtin::Say => {
            assert(find_builtin("скажи"@, 0) == Some(Builtin::Say)) by {
                reveal_with_fuel(find_builtin, 1);
            }
            assert(find_builtin("say"@, 0) == Some(Builtin::Say)) by {
                reveal_with_fuel(find_builtin, 1);
            }
        },
        Builtin::Ask => {
            assert(find_builtin("запитай"@, 0) == Some(Builtin::Ask)) by {
                reveal_with_fuel(find_builtin, 2);
            }
            assert(find_builtin("ask"@, 0) == Some(Builtin::Ask)) by {
                reveal_with_fuel(find_builtin, 2);
            }
        },
        Builtin::Length => {
            assert(find_builtin("довжина"@, 0) == Some(Builtin::Length)) by {
                reveal_with_fuel(find_builtin, 3);
            }
            assert(find_builtin("length"@, 0) == Some(Builtin::Length)) by {
                reveal_with_fuel(find_builtin, 3);
            }
        },
        Builtin::Number => {
            assert(find_builtin("число"@, 0) == Some(Builtin::Number)) by {
                reveal_with_fuel(find_builtin, 4);
            }
            assert(find_builtin("number"@, 0) == Some(Builtin::Number)) by {
                reveal_with_fuel(find_builtin, 4);
            }
        },
        Builtin::Text => {
            assert(find_builtin("текст"@, 0) == Some(Builtin::Text)) by {
                reveal_with_fuel(find_builtin, 5);
            }
            assert(find_builtin("text"@, 0) == Some(Builtin::Text)) by {
                reveal_with_fuel(find_builtin, 5);
            }
        },
        Builtin::Random => {
            assert(find_builtin("випадкове"@, 0) == Some(Builtin::Random)) by {
                reveal_with_fuel(find_builtin, 6);
            }
            assert(find_builtin("random"@, 0) == Some(Builtin::Random)) by {
                reveal_with_fuel(find_builtin, 6);
            }
        },
        Builtin::Round => {
            assert(find_builtin("округли"@, 0) == Some(Builtin::Round)) by {
                reveal_with_fuel(find_builtin, 7);
            }
            assert(find_builtin("round"@, 0) == Some(Builtin::Round)) by {
                reveal_with_fuel(find_builtin, 7);
            }
        },
        Builtin::Append => {
            assert(find_builtin("додай"@, 0) == Some(Builtin::Append)) by {
                reveal_with_fuel(find_builtin, 8);
            }
            assert(find_builtin("append"@, 0) == Some(Builtin::Append)) by {
                reveal_with_fuel(find_builtin, 8);
            }
        },
        Builtin::Canvas => {
            assert(find_builtin("полотно"@, 0) == Some(Builtin::Canvas)) by {
                reveal_with_fuel(find_builtin, 9);
            }
            assert(find_builtin("canvas"@, 0) == Some(Builtin::Canvas)) by {
                reveal_with_fuel(find_builtin, 9);
            }
        },
        Builtin::Background => {
            assert(find_builtin("фон"@, 0) == Some(Builtin::Background)) by {
                reveal_with_fuel(find_builtin, 10);
            }
            assert(find_builtin("background"@, 0) == Some(Builtin::Background)) by {
                reveal_with_fuel(find_builtin, 10);
            }
        },
        Builtin::Color => {
            assert(find_builtin("колір"@, 0) == Some(Builtin::Color)) by {
                reveal_with_fuel(find_builtin, 11);
            }
            assert(find_builtin("color"@, 0) == Some(Builtin::Color)) by {
                reveal_with_fuel(find_builtin, 11);
            }
        },
        Builtin::Thickness => {
            assert(find_builtin("товщина"@, 0) == Some(Builtin::Thickness)) by {
                reveal_with_fuel(find_builtin, 12);
            }
            assert(find_builtin("thickness"@, 0) == Some(Builtin::Thickness)) by {
                reveal_with_fuel(find_builtin, 12);
            }
        },
        Builtin::Circle => {
            assert(find_builtin("коло"@, 0) == Some(Builtin::Circle)) by {
                reveal_with_fuel(find_builtin, 13);
            }
            assert(find_builtin("circle"@, 0) == Some(Builtin::Circle)) by {
                reveal_with_fuel(find_builtin, 13);
            }
        },
        Builtin::Rect => {
            assert(find_builtin("прямокутник"@, 0) == Some(Builtin::Rect)) by {
                reveal_with_fuel(find_builtin, 14);
            }
            assert(find_builtin("rect"@, 0) == Some(Builtin::Rect)) by {
                reveal_with_fuel(find_builtin, 14);
            }
        },
        Builtin::Line => {
            assert(find_builtin("лінія"@, 0) == Some(Builtin::Line)) by {
                reveal_with_fuel(find_builtin, 15);
            }
            assert(find_builtin("line"@, 0) == Some(Builtin::Line)) by {
                reveal_with_fuel(find_builtin, 15);
            }
        },
        Builtin::Label => {
            assert(find_builtin("напис"@, 0) == Some(Builtin::Label)) by {
                reveal_with_fuel(find_builtin, 16);
            }
            assert(find_builtin("label"@, 0) == Some(Builtin::Label)) by {
                reveal_with_fuel(find_builtin, 16);
            }
        },
        Builtin::Forward => {
            assert(find_builtin("вперед"@, 0) == Some(Builtin::Forward)) by {
                reveal_with_fuel(find_builtin, 17);
            }
            assert(find_builtin("forward"@, 0) == Some(Builtin::Forward)) by {
                reveal_with_fuel(find_builtin, 17);
            }
        },
        Builtin::Back => {
            assert(find_builtin("назад"@, 0) == Some(Builtin::Back)) by {
                reveal_with_fuel(find_builtin, 18);
            }
            assert(find_builtin("back"@, 0) == Some(Builtin::Back)) by {
                reveal_with_fuel(find_builtin, 18);
            }
        },
        Builtin::Right => {
            assert(find_builtin("праворуч"@, 0) == Some(Builtin::Right)) by {
                reveal_with_fuel(find_builtin, 19);
            }
            assert(find_builtin("right"@, 0) == Some(Builtin::Right)) by {
                reveal_with_fuel(find_builtin, 19);
            }
        },
        Builtin::Left => {
            assert(find_builtin("ліворуч"@, 0) == Some(Builtin::Left)) by {
                reveal_with_fuel(find_builtin, 20);
            }
            assert(find_builtin("left"@, 0) == Some(Builtin::Left)) by {
                reveal_with_fuel(find_builtin, 20);
            }
        },
        Builtin::PenUp => {
            assert(find_builtin("підніми_перо"@, 0) == Some(Builtin::PenUp)) by {
                reveal_with_fuel(find_builtin, 21);
            }
            assert(find_builtin("pen_up"@, 0) == Some(Builtin::PenUp)) by {
                reveal_with_fuel(find_builtin, 21);
            }
        },
        Builtin::PenDown => {
            assert(find_builtin("опусти_перо"@, 0) == Some(Builtin::PenDown)) by {
                reveal_with_fuel(find_builtin, 22);
            }
            assert(find_builtin("pen_down"@, 0) == Some(Builtin::PenDown)) by {
                reveal_with_fuel(find_builtin, 22);
            }
        },
        Builtin::BeginFill => {
            assert(find_builtin("почни_заливку"@, 0) == Some(Builtin::BeginFill)) by {
                reveal_with_fuel(find_builtin, 23);
            }
            assert(find_builtin("begin_fill"@, 0) == Some(Builtin::BeginFill)) by {
                reveal_with_fuel(find_builtin, 23);
            }
        },
        Builtin::EndFill => {
            assert(find_builtin("заверши_заливку"@, 0) == Some(Builtin::EndFill)) by {
                reveal_with_fuel(find_builtin, 24);
            }
            assert(find_builtin("end_fill"@, 0) == Some(Builtin::EndFill)) by {
                reveal_with_fuel(find_builtin, 24);
            }
        },
    }
}

impl Builtin {
    /// The row of [`NAMES`] that names this built-in.
    pub open spec fn row(self) -> int {
        match self {
            Builtin::Say => 0,
            Builtin::Ask => 1,
            Builtin::Length => 2,
            Builtin::Number => 3,
            Builtin::Text => 4,
            Builtin::Random => 5,
            Builtin::Round => 6,
            Builtin::Append => 7,
            Builtin::Canvas => 8,
            Builtin::Background => 9,
            Builtin::Color => 10,
            Builtin::Thickness => 11,
            Builtin::Circle => 12,
            Builtin::Rect => 13,
            Builtin::Line => 14,
            Builtin::Label => 15,
            Builtin::Forward => 16,
            Builtin::Back => 17,
            Builtin::Right => 18,
            Builtin::Left => 19,
            Builtin::PenUp => 20,
            Builtin::PenDown => 21,
            Builtin::BeginFill => 22,
            Builtin::EndFill => 23,
        }
    }

    fn row_index(self) -> (i: usize)
        ensures
            i == self.row(),
            NAMES[i as int].0 == self,
    {
        match self {
            Builtin::Say => 0,
            Builtin::Ask => 1,
            Builtin::Length => 2,
            Builtin::Number => 3,
            Builtin::Text => 4,
            Builtin::Random => 5,
            Builtin::Round => 6,
            Builtin::Append => 7,
            Builtin::Canvas => 8,
            Builtin::Background => 9,
            Builtin::Color => 10,
            Builtin::Thickness => 11,
            Builtin::Circle => 12,
            Builtin::Rect => 13,
            Builtin::Line => 14,
            Builtin::Label => 15,
            Builtin::Forward => 16,
            Builtin::Back => 17,
            Builtin::Right => 18,
            Builtin::Left => 19,
            Builtin::PenUp => 20,
            Builtin::PenDown => 21,
            Builtin::BeginFill => 22,
            Builtin::EndFill => 23,
        }
    }

    /// The built-in called `name`, in either language.
    pub fn lookup(name: &str) -> (r: Option<Builtin>)
        ensures
            r == find_builtin(name@, 0),
    {
        let mut i: usize = 0;
        while i < 24
            invariant
                i <= 24,
                find_builtin(name@, 0) == find_builtin(name@, i as int),
            decreases 24 - i,
        {
            let (b, uk, en) = NAMES[i];
            if str_eq(uk, name) || str_eq(en, name) {
                return Some(b);
            }
            i += 1;
        }
        None
    }

    /// The name in `lang`, from [`NAMES`].
    pub open spec fn spec_name(self, lang: Lang) -> Seq<char> {
        lang.choose_text(NAMES[self.row()].1@, NAMES[self.row()].2@)
    }

    pub fn name(self, lang: Lang) -> (r: &'static str)
        ensures
            r@ == self.spec_name(lang),
    {
        let (_, uk, en) = NAMES[self.row_index()];
        lang.pick(uk, en)
    }

    /// Whether `got` arguments suit this built-in; if not, the refusal names the built-in in
    /// `lang` and the count it wanted: its fewest when too few came, its most when too many.
    pub fn check_arity(self, got: usize, lang: Lang) -> (r: Result<(), ErrorKind>)
        ensures
            ({
                let (min, max) = self.spec_arity();
                match r {
                    Ok(()) => min <= got <= max,
                    Err(ErrorKind::ArgCount { name, expected, got: g }) => {
                        &&& (got < min || got > max)
                        &&& name@ == self.spec_name(lang)
                        &&& expected == (if got < min { min } else { max })
                        &&& g == got
                    },
                    Err(_) => false,
                }
            }),
    {
        let (min, max) = self.arity();
        if got < min || got > max {
            let expected = if got < min {
                min
            } else {
                max
            };
            return Err(ErrorKind::ArgCount { name: owned(self.name(lang)), expected, got });
        }
        Ok(())
    }

    /// Fewest and most arguments.
    pub open spec fn spec_arity(self) -> (usize, usize) {
        match self {
            Builtin::Say => (0, usize::MAX),
            Builtin::Ask => (0, 1),
            Builtin::Random | Builtin::Append | Builtin::Canvas => (2, 2),
            Builtin::Circle | Builtin::Label => (3, 3),
            Builtin::Rect | Builtin::Line => (4, 4),
            Builtin::PenUp | Builtin::PenDown | Builtin::BeginFill | Builtin::EndFill => (0, 0),
            _ => (1, 1),
        }
    }

    /// Fewest and most arguments.
    pub fn arity(self) -> (r: (usize, usize))
        ensures
            r == self.spec_arity(),
    {
        match self {
            Builtin::Say => (0, usize::MAX),
            Builtin::Ask => (0, 1),
            Builtin::Random | Builtin::Append | Builtin::Canvas => (2, 2),
            Builtin::Circle | Builtin::Label => (3, 3),
            Builtin::Rect | Builtin::Line => (4, 4),
            Builtin::PenUp | Builtin::PenDown | Builtin::BeginFill | Builtin::EndFill => (0, 0),
            _ => (1, 1),
        }
    }

    /// How to write it, e.g. `коло(x, y, радіус)`.
    pub open spec fn spec_signature(self, lang: Lang) -> Seq<char> {
        match self {
            Builtin::Say => lang.choose_text("скажи(…)"@, "say(…)"@),
            Builtin::Ask => lang.choose_text("запитай(\"…\")"@, "ask(\"…\")"@),
            Builtin::Length => lang.choose_text("довжина(x)"@, "length(x)"@),
            Builtin::Number => lang.choose_text("число(x)"@, "number(x)"@),
            Builtin::Text => lang.choose_text("текст(x)"@, "text(x)"@),
            Builtin::Random => lang.choose_text("випадкове(a, b)"@, "random(a, b)"@),
            Builtin::Round => lang.choose_text("округли(x)"@, "round(x)"@),
            Builtin::Append => lang.choose_text("додай(список, x)"@, "append(list, x)"@),
            Builtin::Canvas => lang.choose_text("полотно(ш, в)"@, "canvas(w, h)"@),
            Builtin::Background => lang.choose_text("фон(\"колір\")"@, "background(\"colour\")"@),
            Builtin::Color => lang.choose_text("колір(\"колір\")"@, "color(\"colour\")"@),
            Builtin::Thickness => lang.choose_text("товщина(n)"@, "thickness(n)"@),
            Builtin::Circle => lang.choose_text("коло(x, y, радіус)"@, "circle(x, y, r)"@),
            Builtin::Rect => lang.choose_text("прямокутник(x, y, ш, в)"@, "rect(x, y, w, h)"@),
            Builtin::Line => lang.choose_text("лінія(x1, y1, x2, y2)"@, "line(x1, y1, x2, y2)"@),
            Builtin::Label => lang.choose_text("напис(текст, x, y)"@, "label(text, x, y)"@),
            Builtin::Forward => lang.choose_text("вперед(n)"@, "forward(n)"@),
            Builtin::Back => lang.choose_text("назад(n)"@, "back(n)"@),
            Builtin::Right => lang.choose_text("праворуч(°)"@, "right(°)"@),
            Builtin::Left => lang.choose_text("ліворуч(°)"@, "left(°)"@),
            Builtin::PenUp => lang.choose_text("підніми_перо()"@, "pen_up()"@),
            Builtin::PenDown => lang.choose_text("опусти_перо()"@, "pen_down()"@),
            Builtin::BeginFill => lang.choose_text("почни_заливку()"@, "begin_fill()"@),
            Builtin::EndFill => lang.choose_text("заверши_заливку()"@, "end_fill()"@),
        }
    }

    /// How to write it, e.g. `коло(x, y, радіус)`.
    pub fn signature(self, lang: Lang) -> (r: &'static str)
        ensures
            r@ == self.spec_signature(lang),
    {
        match self {
            Builtin::Say => lang.pick("скажи(…)", "say(…)"),
            Builtin::Ask => lang.pick("запитай(\"…\")", "ask(\"…\")"),
            Builtin::Length => lang.pick("довжина(x)", "length(x)"),
            Builtin::Number => lang.pick("число(x)", "number(x)"),
            Builtin::Text => lang.pick("текст(x)", "text(x)"),
            Builtin::Random => lang.pick("випадкове(a, b)", "random(a, b)"),
            Builtin::Round => lang.pick("округли(x)", "round(x)"),
            Builtin::Append => lang.pick("додай(список, x)", "append(list, x)"),
            Builtin::Canvas => lang.pick("полотно(ш, в)", "canvas(w, h)"),
            Builtin::Background => lang.pick("фон(\"колір\")", "background(\"colour\")"),
            Builtin::Color => lang.pick("колір(\"колір\")", "color(\"colour\")"),
            Builtin::Thickness => lang.pick("товщина(n)", "thickness(n)"),
            Builtin::Circle => lang.pick("коло(x, y, радіус)", "circle(x, y, r)"),
            Builtin::Rect => lang.pick("прямокутник(x, y, ш, в)", "rect(x, y, w, h)"),
            Builtin::Line => lang.pick("лінія(x1, y1, x2, y2)", "line(x1, y1, x2, y2)"),
            Builtin::Label => lang.pick("напис(текст, x, y)", "label(text, x, y)"),
            Builtin::Forward => lang.pick("вперед(n)", "forward(n)"),
            Builtin::Back => lang.pick("назад(n)", "back(n)"),
            Builtin::Right => lang.pick("праворуч(°)", "right(°)"),
            Builtin::Left => lang.pick("ліворуч(°)", "left(°)"),
            Builtin::PenUp => lang.pick("підніми_перо()", "pen_up()"),
            Builtin::PenDown => lang.pick("опусти_перо()", "pen_down()"),
            Builtin::BeginFill => lang.pick("почни_заливку()", "begin_fill()"),
            Builtin::EndFill => lang.pick("заверши_заливку()", "end_fill()"),
        }
    }

    /// What it does, in a few words, e.g. «зафарбоване коло».
    pub open spec fn spec_doc(self, lang: Lang) -> Seq<char> {
        match self {
            Builtin::Say => lang.choose_text("друкує значення через пробіл"@, "print values separated by spaces"@),
            Builtin::Ask => lang.choose_text("питає й чекає на відповідь"@, "ask and wait for an answer"@),
            Builtin::Length => lang.choose_text("довжина тексту або списку"@, "length of text or a list"@),
            Builtin::Number => lang.choose_text("перетворює на число"@, "turn into a number"@),
            Builtin::Text => lang.choose_text("перетворює на текст"@, "turn into text"@),
            Builtin::Random => lang.choose_text("ціле число від a до b"@, "a whole number from a to b"@),
            Builtin::Round => lang.choose_text("найближче ціле число"@, "the nearest whole number"@),
            Builtin::Append => lang.choose_text("додає в кінець списку"@, "add to the end of a list"@),
            Builtin::Canvas => lang.choose_text("розмір полотна (спершу 600×400)"@, "resize the canvas (600×400 at first)"@),
            Builtin::Background => lang.choose_text("зафарбувати все полотно"@, "fill the whole canvas"@),
            Builtin::Color => lang.choose_text("колір наступних фігур і ліній"@, "colour for the next shapes and lines"@),
            Builtin::Thickness => lang.choose_text("товщина ліній"@, "line width"@),
            Builtin::Circle => lang.choose_text("зафарбоване коло"@, "a filled circle"@),
            Builtin::Rect => lang.choose_text("зафарбований прямокутник"@, "a filled rectangle"@),
            Builtin::Line => lang.choose_text("лінія"@, "a line"@),
            Builtin::Label => lang.choose_text("текст на полотні"@, "text on the canvas"@),
            Builtin::Forward => lang.choose_text("черепашка йде вперед і малює"@, "the turtle moves forward and draws"@),
            Builtin::Back => lang.choose_text("черепашка йде назад"@, "the turtle moves back"@),
            Builtin::Right => lang.choose_text("черепашка повертає праворуч"@, "the turtle turns right"@),
            Builtin::Left => lang.choose_text("черепашка повертає ліворуч"@, "the turtle turns left"@),
            Builtin::PenUp => lang.choose_text("іти без лінії"@, "move without drawing"@),
            Builtin::PenDown => lang.choose_text("знову малювати"@, "draw again"@),
            Builtin::BeginFill => lang.choose_text("почати фігуру для заливки"@, "start a shape to fill"@),
            Builtin::EndFill => lang.choose_text("зафарбувати фігуру, яку обійшла черепашка"@, "fill the shape the turtle walked around"@),
        }
    }

    /// What it does, in a few words, e.g. «зафарбоване коло».
    pub fn doc(self, lang: Lang) -> (r: &'static str)
        ensures
            r@ == self.spec_doc(lang),
    {
        match self {
            Builtin::Say => lang.pick("друкує значення через пробіл", "print values separated by spaces"),
            Builtin::Ask => lang.pick("питає й чекає на відповідь", "ask and wait for an answer"),
            Builtin::Length => lang.pick("довжина тексту або списку", "length of text or a list"),
            Builtin::Number => lang.pick("перетворює на число", "turn into a number"),
            Builtin::Text => lang.pick("перетворює на текст", "turn into text"),
            Builtin::Random => lang.pick("ціле число від a до b", "a whole number from a to b"),
            Builtin::Round => lang.pick("найближче ціле число", "the nearest whole number"),
            Builtin::Append => lang.pick("додає в кінець списку", "add to the end of a list"),
            Builtin::Canvas => lang.pick("розмір полотна (спершу 600×400)", "resize the canvas (600×400 at first)"),
            Builtin::Background => lang.pick("зафарбувати все полотно", "fill the whole canvas"),
            Builtin::Color => lang.pick("колір наступних фігур і ліній", "colour for the next shapes and lines"),
            Builtin::Thickness => lang.pick("товщина ліній", "line width"),
            Builtin::Circle => lang.pick("зафарбоване коло", "a filled circle"),
            Builtin::Rect => lang.pick("зафарбований прямокутник", "a filled rectangle"),
            Builtin::Line => lang.pick("лінія", "a line"),
            Builtin::Label => lang.pick("текст на полотні", "text on the canvas"),
            Builtin::Forward => lang.pick("черепашка йде вперед і малює", "the turtle moves forward and draws"),
            Builtin::Back => lang.pick("черепашка йде назад", "the turtle moves back"),
            Builtin::Right => lang.pick("черепашка повертає праворуч", "the turtle turns right"),
            Builtin::Left => lang.pick("черепашка повертає ліворуч", "the turtle turns left"),
            Builtin::PenUp => lang.pick("іти без лінії", "move without drawing"),
            Builtin::PenDown => lang.pick("знову малювати", "draw again"),
            Builtin::BeginFill => lang.pick("почати фігуру для заливки", "start a shape to fill"),
            Builtin::EndFill => lang.pick("зафарбувати фігуру, яку обійшла черепашка", "fill the shape the turtle walked around"),
        }
    }
}

/// One step of xorshift64.
pub open spec fn xorshift(x: u64) -> u64 {
    let a = x ^ (x << 13u64);
    let b = a ^ (a >> 7u64);
    b ^ (b << 17u64)
}

/// xorshift64: small, seeded by the host, identical in the terminal and the browser.
pub fn next_random(state: &mut u64) -> (r: u64)
    ensures
        r == xorshift(*old(state)),
        *final(state) == r,
{
    let mut x = *state;
    x ^= x << 13u64;
    x ^= x >> 7u64;
    x ^= x << 17u64;
    *state = x;
    x
}

} // verus!
