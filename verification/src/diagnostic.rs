//! Errors: what went wrong, in Ukrainian or English, and where.
use vstd::prelude::*;
use crate::draw::{named, palette_view, spec_color_name};
use crate::lang::Lang;
use crate::span::{line_col, line_text, spec_line_col, spec_line_range, Span};
use crate::text::{
    byte_len, byte_offset, char_indices, chars_of, decimal, indexes, lemma_offset_end, lemma_offset_ge_index,
    push_char, push_decimal, push_signed, push_str, signed_decimal,
};

verus! {

/// Type names used in messages.
#[derive(Debug, Clone, Copy, PartialEq, Eq, Structural)]
pub enum Ty {
    Number,
    Text,
    Bool,
    Nothing,
    List,
    Function,
}

impl Ty {
    pub open spec fn spec_name(self, lang: Lang) -> Seq<char> {
        match self {
            Ty::Number => lang.choose_text("число"@, "a number"@),
            Ty::Text => lang.choose_text("текст"@, "text"@),
            Ty::Bool => lang.choose_text("так/ні"@, "true/false"@),
            Ty::Nothing => lang.choose_text("нічого"@, "nothing"@),
            Ty::List => lang.choose_text("список"@, "a list"@),
            Ty::Function => lang.choose_text("функція"@, "a function"@),
        }
    }

    pub fn name(self, lang: Lang) -> (r: &'static str)
        ensures
            r@ == self.spec_name(lang),
    {
        match self {
            Ty::Number => lang.pick("число", "a number"),
            Ty::Text => lang.pick("текст", "text"),
            Ty::Bool => lang.pick("так/ні", "true/false"),
            Ty::Nothing => lang.pick("нічого", "nothing"),
            Ty::List => lang.pick("список", "a list"),
            Ty::Function => lang.pick("функція", "a function"),
        }
    }
}

/// «…» in Ukrainian, '…' in English.
pub open spec fn spec_quote(s: Seq<char>, lang: Lang) -> Seq<char> {
    match lang {
        Lang::Uk => seq!['«'] + s + seq!['»'],
        Lang::En => seq!['\''] + s + seq!['\''],
    }
}

/// Appends `s` in quotes.
fn push_quoted(out: &mut String, s: &str, lang: Lang)
    ensures
        final(out)@ == old(out)@ + spec_quote(s@, lang),
{
    let (open, close) = match lang {
        Lang::Uk => ('«', '»'),
        Lang::En => ('\'', '\''),
    };
    push_char(out, open);
    push_str(out, s);
    push_char(out, close);
    proof {
        assert(final(out)@ =~= old(out)@ + spec_quote(s@, lang));
    }
}

/// «…» in Ukrainian, '…' in English.
pub fn quote(s: &str, lang: Lang) -> (r: String)
    ensures
        r@ == spec_quote(s@, lang),
{
    let mut out = String::new();
    push_quoted(&mut out, s, lang);
    proof {
        assert(out@ =~= spec_quote(s@, lang));
    }
    out
}

/// Which of the three Ukrainian noun forms goes with the count `n`.
pub open spec fn plural_form(n: u64) -> nat {
    let d = n % 10;
    let h = n % 100;
    if d == 1 && h != 11 {
        0
    } else if 2 <= d <= 4 && !(12 <= h <= 14) {
        1
    } else {
        2
    }
}

/// Ukrainian noun form for a count: 1 аргумент, 2 аргументи, 5 аргументів.
pub fn plural_uk<'a>(n: u64, one: &'a str, few: &'a str, many: &'a str) -> (r: &'a str)
    ensures
        r == (if plural_form(n) == 0 {
            one
        } else if plural_form(n) == 1 {
            few
        } else {
            many
        }),
{
    let d = n % 10;
    let h = n % 100;
    if d == 1 && h != 11 {
        one
    } else if 2 <= d && d <= 4 && !(12 <= h && h <= 14) {
        few
    } else {
        many
    }
}

/// What the parser met instead of what it wanted.
#[derive(Debug, Clone, PartialEq)]
pub enum TokDesc {
    Text(String),
    EndOfLine,
    EndOfFile,
    Indent,
    Dedent,
}

impl TokDesc {
    pub open spec fn spec_show(&self, lang: Lang) -> Seq<char> {
        match self {
            TokDesc::Text(s) => spec_quote(s@, lang),
            TokDesc::EndOfLine => lang.choose_text("кінець рядка"@, "end of line"@),
            TokDesc::EndOfFile => lang.choose_text("кінець програми"@, "end of program"@),
            TokDesc::Indent => lang.choose_text("зайвий відступ"@, "extra indentation"@),
            TokDesc::Dedent => lang.choose_text("кінець блоку"@, "end of block"@),
        }
    }

    fn push_show(&self, out: &mut String, lang: Lang)
        ensures
            final(out)@ == old(out)@ + self.spec_show(lang),
    {
        match self {
            TokDesc::Text(s) => push_quoted(out, s.as_str(), lang),
            TokDesc::EndOfLine => push_str(out, lang.pick("кінець рядка", "end of line")),
            TokDesc::EndOfFile => push_str(out, lang.pick("кінець програми", "end of program")),
            TokDesc::Indent => push_str(out, lang.pick("зайвий відступ", "extra indentation")),
            TokDesc::Dedent => push_str(out, lang.pick("кінець блоку", "end of block")),
        }
    }

    /// How the message names what was met.
    pub fn show(&self, lang: Lang) -> (r: String)
        ensures
            r@ == self.spec_show(lang),
    {
        let mut out = String::new();
        self.push_show(&mut out, lang);
        proof {
            assert(out@ =~= self.spec_show(lang));
        }
        out
    }
}

/// Everything that can go wrong, from a stray character to a drawing with too many shapes.
#[derive(Debug, Clone, PartialEq)]
pub enum ErrorKind {
    UnexpectedChar(char),
    UnterminatedText,
    BadEscape(char),
    MixedIndent,
    BadDedent,
    Expected { uk: &'static str, en: &'static str },
    UnexpectedToken(TokDesc),
    KeywordAsName(String),
    BuiltinAsName(String),
    InvalidTarget,
    OutsideLoop(String),
    OutsideFunction(String),
    UnknownName { name: String, suggestion: Option<String> },
    TypeMismatch { op: String, left: Ty, right: Ty },
    ExpectedNumber(Ty),
    BadCount,
    BadStep,
    NotCallable(Ty),
    ArgCount { name: String, expected: usize, got: usize },
    NotIndexable(Ty),
    BadIndex,
    IndexOutOfRange { index: i64, len: usize },
    DivisionByZero,
    BadNumber(String),
    RecursionTooDeep,
    TooLong,
    UnknownColor { name: String, suggestion: Option<String> },
    ColorNeedsQuotes(String),
    /// The negative size, written as `скажи` shows numbers.
    NegativeSize(String),
    BadCanvas,
    FillNotStarted,
    TooManyShapes,
    ExpectedText(Ty),
}

/// `a` in Ukrainian, `b` in English.
pub open spec fn by_lang(lang: Lang, a: Seq<char>, b: Seq<char>) -> Seq<char> {
    lang.choose_text(a, b)
}

impl ErrorKind {
    /// The message, in `lang`.
    #[verifier::opaque]
    pub open spec fn spec_message(&self, lang: Lang) -> Seq<char> {
        match self {
            ErrorKind::UnexpectedChar(c) => msg_unexpected_char(*c, lang),
            ErrorKind::UnterminatedText => msg_unterminated_text(lang),
            ErrorKind::BadEscape(c) => msg_bad_escape(*c, lang),
            ErrorKind::MixedIndent => msg_mixed_indent(lang),
            ErrorKind::BadDedent => msg_bad_dedent(lang),
            ErrorKind::Expected { uk: u, en: e } => msg_expected(u@, e@, lang),
            ErrorKind::UnexpectedToken(d) => msg_unexpected_token(*d, lang),
            ErrorKind::KeywordAsName(w) => msg_keyword_as_name(w@, lang),
            ErrorKind::BuiltinAsName(w) => msg_builtin_as_name(w@, lang),
            ErrorKind::InvalidTarget => msg_invalid_target(lang),
            ErrorKind::OutsideLoop(w) => msg_outside_loop(w@, lang),
            ErrorKind::OutsideFunction(w) => msg_outside_function(w@, lang),
            ErrorKind::UnknownName { name, .. } => msg_unknown_name(name@, lang),
            ErrorKind::TypeMismatch { op, left, right } => msg_type_mismatch(op@, *left, *right, lang),
            ErrorKind::ExpectedNumber(t) => msg_expected_number(*t, lang),
            ErrorKind::BadCount => msg_bad_count(lang),
            ErrorKind::BadStep => msg_bad_step(lang),
            ErrorKind::NotCallable(t) => msg_not_callable(*t, lang),
            ErrorKind::ArgCount { name, expected, got } => msg_arg_count(name@, *expected, *got, lang),
            ErrorKind::NotIndexable(t) => msg_not_indexable(*t, lang),
            ErrorKind::BadIndex => msg_bad_index(lang),
            ErrorKind::IndexOutOfRange { index, len } => msg_index_out_of_range(*index, *len, lang),
            ErrorKind::DivisionByZero => msg_division_by_zero(lang),
            ErrorKind::BadNumber(s) => msg_bad_number(s@, lang),
            ErrorKind::RecursionTooDeep => msg_recursion_too_deep(lang),
            ErrorKind::TooLong => msg_too_long(lang),
            ErrorKind::UnknownColor { name, .. } => msg_unknown_color(name@, lang),
            ErrorKind::ColorNeedsQuotes(w) => msg_color_needs_quotes(w@, lang),
            ErrorKind::NegativeSize(n) => msg_negative_size(n@, lang),
            ErrorKind::BadCanvas => msg_bad_canvas(lang),
            ErrorKind::FillNotStarted => msg_fill_not_started(lang),
            ErrorKind::TooManyShapes => msg_too_many_shapes(lang),
            ErrorKind::ExpectedText(t) => msg_expected_text(*t, lang),
        }
    }

    fn push_message(&self, out: &mut String, lang: Lang)
        ensures
            final(out)@ == old(out)@ + self.spec_message(lang),
    {
        reveal(ErrorKind::spec_message);
        match self {
            ErrorKind::UnexpectedChar(c) => push_msg_unexpected_char(out, c, lang),
            ErrorKind::UnterminatedText => push_msg_unterminated_text(out, lang),
            ErrorKind::BadEscape(c) => push_msg_bad_escape(out, c, lang),
            ErrorKind::MixedIndent => push_msg_mixed_indent(out, lang),
            ErrorKind::BadDedent => push_msg_bad_dedent(out, lang),
            ErrorKind::Expected { uk: u, en: e } => push_msg_expected(out, u, e, lang),
            ErrorKind::UnexpectedToken(d) => push_msg_unexpected_token(out, d, lang),
            ErrorKind::KeywordAsName(w) => push_msg_keyword_as_name(out, w, lang),
            ErrorKind::BuiltinAsName(w) => push_msg_builtin_as_name(out, w, lang),
            ErrorKind::InvalidTarget => push_msg_invalid_target(out, lang),
            ErrorKind::OutsideLoop(w) => push_msg_outside_loop(out, w, lang),
            ErrorKind::OutsideFunction(w) => push_msg_outside_function(out, w, lang),
            ErrorKind::UnknownName { name, .. } => push_msg_unknown_name(out, name, lang),
            ErrorKind::TypeMismatch { op, left, right } => push_msg_type_mismatch(out, op, left, right, lang),
            ErrorKind::ExpectedNumber(t) => push_msg_expected_number(out, t, lang),
            ErrorKind::BadCount => push_msg_bad_count(out, lang),
            ErrorKind::BadStep => push_msg_bad_step(out, lang),
            ErrorKind::NotCallable(t) => push_msg_not_callable(out, t, lang),
            ErrorKind::ArgCount { name, expected, got } => push_msg_arg_count(out, name, expected, got, lang),
            ErrorKind::NotIndexable(t) => push_msg_not_indexable(out, t, lang),
            ErrorKind::BadIndex => push_msg_bad_index(out, lang),
            ErrorKind::IndexOutOfRange { index, len } => push_msg_index_out_of_range(out, index, len, lang),
            ErrorKind::DivisionByZero => push_msg_division_by_zero(out, lang),
            ErrorKind::BadNumber(s) => push_msg_bad_number(out, s, lang),
            ErrorKind::RecursionTooDeep => push_msg_recursion_too_deep(out, lang),
            ErrorKind::TooLong => push_msg_too_long(out, lang),
            ErrorKind::UnknownColor { name, .. } => push_msg_unknown_color(out, name, lang),
            ErrorKind::ColorNeedsQuotes(w) => push_msg_color_needs_quotes(out, w, lang),
            ErrorKind::NegativeSize(n) => push_msg_negative_size(out, n, lang),
            ErrorKind::BadCanvas => push_msg_bad_canvas(out, lang),
            ErrorKind::FillNotStarted => push_msg_fill_not_started(out, lang),
            ErrorKind::TooManyShapes => push_msg_too_many_shapes(out, lang),
            ErrorKind::ExpectedText(t) => push_msg_expected_text(out, t, lang),
        }
    }

    /// The message, in `lang`.
    pub fn message(&self, lang: Lang) -> (r: String)
        ensures
            r@ == self.spec_message(lang),
    {
        let mut out = String::new();
        self.push_message(&mut out, lang);
        proof {
            assert(out@ =~= self.spec_message(lang));
        }
        out
    }
}

pub open spec fn msg_unexpected_char(c: char, lang: Lang) -> Seq<char> {
    let q = |s: Seq<char>| spec_quote(s, lang);
    by_lang(
        lang,
        "незрозумілий символ"@,
        "unexpected character"@,
    ) + seq![' '] + q(seq![c])
}

pub open spec fn msg_unterminated_text(lang: Lang) -> Seq<char> {
    by_lang(
        lang,
        "текст не закрито лапками \""@,
        "text is missing its closing quote \""@,
    )
}

pub open spec fn msg_bad_escape(c: char, lang: Lang) -> Seq<char> {
    let q = |s: Seq<char>| spec_quote(s, lang);
    by_lang(
        lang,
        "невідома послідовність у тексті:"@,
        "unknown escape in text:"@,
    ) + seq![' '] + q(seq!['\\', c])
}

pub open spec fn msg_mixed_indent(lang: Lang) -> Seq<char> {
    by_lang(
        lang,
        "у відступах змішано табуляцію й пробіли"@,
        "indentation mixes tabs and spaces"@,
    )
}

pub open spec fn msg_bad_dedent(lang: Lang) -> Seq<char> {
    by_lang(
        lang,
        "відступ не збігається з жодним зовнішнім рівнем"@,
        "this indentation does not match any outer level"@,
    )
}

pub open spec fn msg_expected(u: Seq<char>, e: Seq<char>, lang: Lang) -> Seq<char> {
    let uk = lang == Lang::Uk;
    if uk {
        "тут потрібно: "@ + u
    } else {
        "expected "@ + e
    }
}

pub open spec fn msg_unexpected_token(d: TokDesc, lang: Lang) -> Seq<char> {
    let uk = lang == Lang::Uk;
    if uk {
        "тут не очікувалося: "@ + d.spec_show(lang)
    } else {
        "unexpected "@ + d.spec_show(lang)
    }
}

pub open spec fn msg_keyword_as_name(w: Seq<char>, lang: Lang) -> Seq<char> {
    let q = |s: Seq<char>| spec_quote(s, lang);
    let uk = lang == Lang::Uk;
    q(w) + if uk {
        " — слово мови, його не можна брати за назву"@
    } else {
        " is a reserved word and can't be used as a name"@
    }
}

pub open spec fn msg_builtin_as_name(w: Seq<char>, lang: Lang) -> Seq<char> {
    let q = |s: Seq<char>| spec_quote(s, lang);
    let uk = lang == Lang::Uk;
    q(w) + if uk {
        " — вбудована команда, її не можна перезаписати"@
    } else {
        " is a built-in command and can't be reassigned"@
    }
}

pub open spec fn msg_invalid_target(lang: Lang) -> Seq<char> {
    by_lang(
        lang,
        "ліворуч від «=» має бути назва змінної або елемент списку"@,
        "left of '=' must be a variable name or a list item"@,
    )
}

pub open spec fn msg_outside_loop(w: Seq<char>, lang: Lang) -> Seq<char> {
    let q = |s: Seq<char>| spec_quote(s, lang);
    let uk = lang == Lang::Uk;
    q(w) + if uk {
        " можна писати лише всередині циклу"@
    } else {
        " only works inside a loop"@
    }
}

pub open spec fn msg_outside_function(w: Seq<char>, lang: Lang) -> Seq<char> {
    let q = |s: Seq<char>| spec_quote(s, lang);
    let uk = lang == Lang::Uk;
    q(w) + if uk {
        " можна писати лише всередині функції"@
    } else {
        " only works inside a function"@
    }
}

pub open spec fn msg_unknown_name(name: Seq<char>, lang: Lang) -> Seq<char> {
    let q = |s: Seq<char>| spec_quote(s, lang);
    by_lang(
        lang,
        "невідома назва"@,
        "unknown name"@,
    ) + seq![' '] + q(name)
}

/// A type mismatch names the operator, then the left operand's type, then the right one's:
/// "can't apply '+' to a number and text" for a number on the left and text on the right.
pub proof fn lemma_type_mismatch_names_left_then_right(op: String, left: Ty, right: Ty)
    ensures
        (ErrorKind::TypeMismatch { op, left, right }).spec_message(Lang::En) == "can't apply '"@
            + op@ + "' to "@ + left.spec_name(Lang::En) + " and "@ + right.spec_name(Lang::En),
        (ErrorKind::TypeMismatch { op, left, right }).spec_message(Lang::Uk)
            == "не можна виконати «"@ + op@ + "» для: "@ + left.spec_name(Lang::Uk) + " і "@
            + right.spec_name(Lang::Uk),
{
    reveal(ErrorKind::spec_message);
    reveal_strlit("can't apply '");
    reveal_strlit("can't apply ");
    reveal_strlit("' to ");
    reveal_strlit(" to ");
    reveal_strlit("не можна виконати «");
    reveal_strlit("не можна виконати ");
    reveal_strlit("» для: ");
    reveal_strlit(" для: ");
    assert("can't apply '"@ + op@ + "' to "@ =~= "can't apply "@ + spec_quote(op@, Lang::En) + " to "@);
    assert("не можна виконати «"@ + op@ + "» для: "@ =~= "не можна виконати "@ + spec_quote(
        op@,
        Lang::Uk,
    ) + " для: "@);
}

pub open spec fn msg_type_mismatch(op: Seq<char>, left: Ty, right: Ty, lang: Lang) -> Seq<char> {
    let q = |s: Seq<char>| spec_quote(s, lang);
    let uk = lang == Lang::Uk;
    if uk {
        "не можна виконати "@ + q(op) + " для: "@ + left.spec_name(lang) + " і "@
            + right.spec_name(lang)
    } else {
        "can't apply "@ + q(op) + " to "@ + left.spec_name(lang) + " and "@
            + right.spec_name(lang)
    }
}

pub open spec fn msg_expected_number(t: Ty, lang: Lang) -> Seq<char> {
    let uk = lang == Lang::Uk;
    if uk {
        "тут потрібне число, а маємо: "@ + t.spec_name(lang)
    } else {
        "expected a number, got "@ + t.spec_name(lang)
    }
}

pub open spec fn msg_bad_count(lang: Lang) -> Seq<char> {
    by_lang(
        lang,
        "кількість повторів має бути цілим числом, не меншим за 0"@,
        "the repeat count must be a whole number, 0 or more"@,
    )
}

pub open spec fn msg_bad_step(lang: Lang) -> Seq<char> {
    by_lang(lang, "крок не може бути нулем"@, "the step can't be zero"@)
}

pub open spec fn msg_not_callable(t: Ty, lang: Lang) -> Seq<char> {
    let uk = lang == Lang::Uk;
    t.spec_name(lang) + if uk {
        " не можна викликати як функцію"@
    } else {
        " can't be called like a function"@
    }
}

/// A wrong argument count names the function, then the count it wants, then the count it
/// got: "'f' takes 1 argument but got 2".
pub proof fn lemma_arg_count_names_wanted_then_got(name: String, expected: usize, got: usize)
    ensures
        (ErrorKind::ArgCount { name, expected, got }).spec_message(Lang::En) == "'"@ + name@
            + "' takes "@ + decimal(expected as nat) + (if expected == 1 {
            " argument"@
        } else {
            " arguments"@
        }) + " but got "@ + decimal(got as nat),
        (ErrorKind::ArgCount { name, expected, got }).spec_message(Lang::Uk) == "«"@ + name@
            + "» чекає "@ + decimal(expected as nat) + (if plural_form(expected as u64) == 0 {
            " аргумент"@
        } else if plural_form(expected as u64) == 1 {
            " аргументи"@
        } else {
            " аргументів"@
        }) + ", а отримала "@ + decimal(got as nat),
{
    reveal(ErrorKind::spec_message);
    reveal_strlit("'");
    reveal_strlit("' takes ");
    reveal_strlit(" takes ");
    reveal_strlit(" argument");
    reveal_strlit("argument");
    reveal_strlit(" arguments");
    reveal_strlit("arguments");
    reveal_strlit("«");
    reveal_strlit("» чекає ");
    reveal_strlit(" чекає ");
    reveal_strlit(" аргумент");
    reveal_strlit("аргумент");
    reveal_strlit(" аргументи");
    reveal_strlit("аргументи");
    reveal_strlit(" аргументів");
    reveal_strlit("аргументів");
    let d = decimal(expected as nat);
    let m = ErrorKind::ArgCount { name, expected, got }.spec_message(Lang::En);
    assert(m =~= "'"@ + name@ + "' takes "@ + d + (if expected == 1 {
        " argument"@
    } else {
        " arguments"@
    }) + " but got "@ + decimal(got as nat));
    let u = ErrorKind::ArgCount { name, expected, got }.spec_message(Lang::Uk);
    assert(u =~= "«"@ + name@ + "» чекає "@ + d + (if plural_form(expected as u64) == 0 {
        " аргумент"@
    } else if plural_form(expected as u64) == 1 {
        " аргументи"@
    } else {
        " аргументів"@
    }) + ", а отримала "@ + decimal(got as nat));
}

pub open spec fn msg_arg_count(name: Seq<char>, expected: usize, got: usize, lang: Lang) -> Seq<char> {
    let q = |s: Seq<char>| spec_quote(s, lang);
    let uk = lang == Lang::Uk;
    if uk {
        q(name) + " чекає "@ + decimal(expected as nat) + seq![' '] + (if plural_form(
            expected as u64,
        ) == 0 {
            "аргумент"@
        } else if plural_form(expected as u64) == 1 {
            "аргументи"@
        } else {
            "аргументів"@
        }) + ", а отримала "@ + decimal(got as nat)
    } else {
        q(name) + " takes "@ + decimal(expected as nat) + seq![' '] + (if expected == 1 {
            "argument"@
        } else {
            "arguments"@
        }) + " but got "@ + decimal(got as nat)
    }
}

pub open spec fn msg_not_indexable(t: Ty, lang: Lang) -> Seq<char> {
    let uk = lang == Lang::Uk;
    t.spec_name(lang) + if uk {
        " не має елементів за номерами"@
    } else {
        " has no numbered items"@
    }
}

pub open spec fn msg_bad_index(lang: Lang) -> Seq<char> {
    by_lang(
        lang,
        "номер елемента має бути цілим числом від 1"@,
        "an item number must be a whole number from 1"@,
    )
}

pub open spec fn msg_index_out_of_range(index: i64, len: usize, lang: Lang) -> Seq<char> {
    let uk = lang == Lang::Uk;
    if uk {
        "немає елемента з номером "@ + signed_decimal(index as int) + ": їх усього "@
            + decimal(len as nat)
    } else {
        "there is no item "@ + signed_decimal(index as int) + ": there are only "@
            + decimal(len as nat)
    }
}

pub open spec fn msg_division_by_zero(lang: Lang) -> Seq<char> {
    by_lang(lang, "ділення на нуль"@, "division by zero"@)
}

pub open spec fn msg_bad_number(s: Seq<char>, lang: Lang) -> Seq<char> {
    let q = |s: Seq<char>| spec_quote(s, lang);
    let uk = lang == Lang::Uk;
    if uk {
        "не вдалося перетворити "@ + q(s) + " на число"@
    } else {
        "can't turn "@ + q(s) + " into a number"@
    }
}

pub open spec fn msg_recursion_too_deep(lang: Lang) -> Seq<char> {
    by_lang(
        lang,
        "забагато вкладених викликів (понад 1000)"@,
        "too many nested calls (over 1000)"@,
    )
}

pub open spec fn msg_too_long(lang: Lang) -> Seq<char> {
    by_lang(
        lang,
        "програма працює занадто довго"@,
        "the program runs too long"@,
    )
}

pub open spec fn msg_unknown_color(name: Seq<char>, lang: Lang) -> Seq<char> {
    let q = |s: Seq<char>| spec_quote(s, lang);
    by_lang(
        lang,
        "невідомий колір"@,
        "unknown colour"@,
    ) + seq![' '] + q(name)
}

pub open spec fn msg_color_needs_quotes(w: Seq<char>, lang: Lang) -> Seq<char> {
    let q = |s: Seq<char>| spec_quote(s, lang);
    let uk = lang == Lang::Uk;
    q(w) + if uk {
        " — це колір, його треба взяти в лапки"@
    } else {
        " is a colour and needs quotes"@
    }
}

pub open spec fn msg_negative_size(n: Seq<char>, lang: Lang) -> Seq<char> {
    by_lang(
        lang,
        "розмір не може бути від'ємним:"@,
        "a size can't be negative:"@,
    ) + seq![' '] + n
}

pub open spec fn msg_bad_canvas(lang: Lang) -> Seq<char> {
    by_lang(
        lang,
        "полотно може мати від 1 до 4000 точок з кожного боку"@,
        "the canvas can be 1 to 4000 points on each side"@,
    )
}

pub open spec fn msg_fill_not_started(lang: Lang) -> Seq<char> {
    by_lang(
        lang,
        "заливку ще не почато"@,
        "no fill has been started"@,
    )
}

pub open spec fn msg_too_many_shapes(lang: Lang) -> Seq<char> {
    by_lang(
        lang,
        "забагато фігур (понад 50 000)"@,
        "too many shapes (over 50,000)"@,
    )
}

pub open spec fn msg_expected_text(t: Ty, lang: Lang) -> Seq<char> {
    let uk = lang == Lang::Uk;
    if uk {
        "тут потрібен текст, а маємо: "@ + t.spec_name(lang)
    } else {
        "expected text, got "@ + t.spec_name(lang)
    }
}

fn push_msg_unexpected_char(out: &mut String, c: &char, lang: Lang)
    ensures
        final(out)@ == old(out)@ + msg_unexpected_char(*c, lang),
{
    let ghost start = out@;
    push_str(out, lang.pick("незрозумілий символ", "unexpected character"));
    push_char(out, ' ');
    let mut one = String::new();
    push_char(&mut one, *c);
    push_quoted(out, one.as_str(), lang);
    proof {
        assert(out@ =~= start + msg_unexpected_char(*c, lang));
    }
}

fn push_msg_unterminated_text(out: &mut String, lang: Lang)
    ensures
        final(out)@ == old(out)@ + msg_unterminated_text(lang),
{
    let ghost start = out@;
    push_str(
        out,
        lang.pick(
            "текст не закрито лапками \"",
            "text is missing its closing quote \"",
        ),
    );
    proof {
        assert(out@ =~= start + msg_unterminated_text(lang));
    }
}

fn push_msg_bad_escape(out: &mut String, c: &char, lang: Lang)
    ensures
        final(out)@ == old(out)@ + msg_bad_escape(*c, lang),
{
    let ghost start = out@;
    push_str(out, lang.pick("невідома послідовність у тексті:", "unknown escape in text:"));
    push_char(out, ' ');
    let mut esc = String::new();
    push_char(&mut esc, '\\');
    push_char(&mut esc, *c);
    push_quoted(out, esc.as_str(), lang);
    proof {
        assert(out@ =~= start + msg_bad_escape(*c, lang));
    }
}

fn push_msg_mixed_indent(out: &mut String, lang: Lang)
    ensures
        final(out)@ == old(out)@ + msg_mixed_indent(lang),
{
    let ghost start = out@;
    push_str(
        out,
        lang.pick(
            "у відступах змішано табуляцію й пробіли",
            "indentation mixes tabs and spaces",
        ),
    );
    proof {
        assert(out@ =~= start + msg_mixed_indent(lang));
    }
}

fn push_msg_bad_dedent(out: &mut String, lang: Lang)
    ensures
        final(out)@ == old(out)@ + msg_bad_dedent(lang),
{
    let ghost start = out@;
    push_str(
        out,
        lang.pick(
            "відступ не збігається з жодним зовнішнім рівнем",
            "this indentation does not match any outer level",
        ),
    );
    proof {
        assert(out@ =~= start + msg_bad_dedent(lang));
    }
}

fn push_msg_expected(out: &mut String, u: &str, e: &str, lang: Lang)
    ensures
        final(out)@ == old(out)@ + msg_expected(u@, e@, lang),
{
    let uk = lang == Lang::Uk;
    let ghost start = out@;
    if uk {
        push_str(out, "тут потрібно: ");
        push_str(out, u);
    } else {
        push_str(out, "expected ");
        push_str(out, e);
    }
    proof {
        assert(out@ =~= start + msg_expected(u@, e@, lang));
    }
}

fn push_msg_unexpected_token(out: &mut String, d: &TokDesc, lang: Lang)
    ensures
        final(out)@ == old(out)@ + msg_unexpected_token(*d, lang),
{
    let uk = lang == Lang::Uk;
    let ghost start = out@;
    if uk {
        push_str(out, "тут не очікувалося: ");
    } else {
        push_str(out, "unexpected ");
    }
    d.push_show(out, lang);
    proof {
        assert(out@ =~= start + msg_unexpected_token(*d, lang));
    }
}

fn push_msg_keyword_as_name(out: &mut String, w: &String, lang: Lang)
    ensures
        final(out)@ == old(out)@ + msg_keyword_as_name(w@, lang),
{
    let ghost start = out@;
    push_quoted(out, w.as_str(), lang);
    push_str(
        out,
        lang.pick(
            " — слово мови, його не можна брати за назву",
            " is a reserved word and can't be used as a name",
        ),
    );
    proof {
        assert(out@ =~= start + msg_keyword_as_name(w@, lang));
    }
}

fn push_msg_builtin_as_name(out: &mut String, w: &String, lang: Lang)
    ensures
        final(out)@ == old(out)@ + msg_builtin_as_name(w@, lang),
{
    let ghost start = out@;
    push_quoted(out, w.as_str(), lang);
    push_str(
        out,
        lang.pick(
            " — вбудована команда, її не можна перезаписати",
            " is a built-in command and can't be reassigned",
        ),
    );
    proof {
        assert(out@ =~= start + msg_builtin_as_name(w@, lang));
    }
}

fn push_msg_invalid_target(out: &mut String, lang: Lang)
    ensures
        final(out)@ == old(out)@ + msg_invalid_target(lang),
{
    let ghost start = out@;
    push_str(
        out,
        lang.pick(
            "ліворуч від «=» має бути назва змінної або елемент списку",
            "left of '=' must be a variable name or a list item",
        ),
    );
    proof {
        assert(out@ =~= start + msg_invalid_target(lang));
    }
}

fn push_msg_outside_loop(out: &mut String, w: &String, lang: Lang)
    ensures
        final(out)@ == old(out)@ + msg_outside_loop(w@, lang),
{
    let ghost start = out@;
    push_quoted(out, w.as_str(), lang);
    push_str(
        out,
        lang.pick(" можна писати лише всередині циклу", " only works inside a loop"),
    );
    proof {
        assert(out@ =~= start + msg_outside_loop(w@, lang));
    }
}

fn push_msg_outside_function(out: &mut String, w: &String, lang: Lang)
    ensures
        final(out)@ == old(out)@ + msg_outside_function(w@, lang),
{
    let ghost start = out@;
    push_quoted(out, w.as_str(), lang);
    push_str(
        out,
        lang.pick(
            " можна писати лише всередині функції",
            " only works inside a function",
        ),
    );
    proof {
        assert(out@ =~= start + msg_outside_function(w@, lang));
    }
}

fn push_msg_unknown_name(out: &mut String, name: &String, lang: Lang)
    ensures
        final(out)@ == old(out)@ + msg_unknown_name(name@, lang),
{
    let ghost start = out@;
    push_str(out, lang.pick("невідома назва", "unknown name"));
    push_char(out, ' ');
    push_quoted(out, name.as_str(), lang);
    proof {
        assert(out@ =~= start + msg_unknown_name(name@, lang));
    }
}

fn push_msg_type_mismatch(out: &mut String, op: &String, left: &Ty, right: &Ty, lang: Lang)
    ensures
        final(out)@ == old(out)@ + msg_type_mismatch(op@, *left, *right, lang),
{
    let ghost start = out@;
    push_str(out, lang.pick("не можна виконати ", "can't apply "));
    push_quoted(out, op.as_str(), lang);
    push_str(out, lang.pick(" для: ", " to "));
    push_str(out, left.name(lang));
    push_str(out, lang.pick(" і ", " and "));
    push_str(out, right.name(lang));
    proof {
        assert(out@ =~= start + msg_type_mismatch(op@, *left, *right, lang));
    }
}

fn push_msg_expected_number(out: &mut String, t: &Ty, lang: Lang)
    ensures
        final(out)@ == old(out)@ + msg_expected_number(*t, lang),
{
    let ghost start = out@;
    push_str(out, lang.pick("тут потрібне число, а маємо: ", "expected a number, got "));
    push_str(out, t.name(lang));
    proof {
        assert(out@ =~= start + msg_expected_number(*t, lang));
    }
}

fn push_msg_bad_count(out: &mut String, lang: Lang)
    ensures
        final(out)@ == old(out)@ + msg_bad_count(lang),
{
    let ghost start = out@;
    push_str(
        out,
        lang.pick(
            "кількість повторів має бути цілим числом, не меншим за 0",
            "the repeat count must be a whole number, 0 or more",
        ),
    );
    proof {
        assert(out@ =~= start + msg_bad_count(lang));
    }
}

fn push_msg_bad_step(out: &mut String, lang: Lang)
    ensures
        final(out)@ == old(out)@ + msg_bad_step(lang),
{
    let ghost start = out@;
    push_str(out, lang.pick("крок не може бути нулем", "the step can't be zero"));
    proof {
        assert(out@ =~= start + msg_bad_step(lang));
    }
}

fn push_msg_not_callable(out: &mut String, t: &Ty, lang: Lang)
    ensures
        final(out)@ == old(out)@ + msg_not_callable(*t, lang),
{
    let ghost start = out@;
    push_str(out, t.name(lang));
    push_str(
        out,
        lang.pick(
            " не можна викликати як функцію",
            " can't be called like a function",
        ),
    );
    proof {
        assert(out@ =~= start + msg_not_callable(*t, lang));
    }
}

fn push_msg_arg_count(out: &mut String, name: &String, expected: &usize, got: &usize, lang: Lang)
    ensures
        final(out)@ == old(out)@ + msg_arg_count(name@, *expected, *got, lang),
{
    let uk = lang == Lang::Uk;
    let ghost start = out@;
    push_quoted(out, name.as_str(), lang);
    if uk {
        push_str(out, " чекає ");
        push_decimal(out, *expected as u64);
        push_char(out, ' ');
        push_str(out, plural_uk(*expected as u64, "аргумент", "аргументи", "аргументів"));
        push_str(out, ", а отримала ");
        push_decimal(out, *got as u64);
    } else {
        push_str(out, " takes ");
        push_decimal(out, *expected as u64);
        push_char(out, ' ');
        push_str(out, if *expected == 1 { "argument" } else { "arguments" });
        push_str(out, " but got ");
        push_decimal(out, *got as u64);
    }
    proof {
        assert(out@ =~= start + msg_arg_count(name@, *expected, *got, lang));
    }
}

fn push_msg_not_indexable(out: &mut String, t: &Ty, lang: Lang)
    ensures
        final(out)@ == old(out)@ + msg_not_indexable(*t, lang),
{
    let ghost start = out@;
    push_str(out, t.name(lang));
    push_str(out, lang.pick(" не має елементів за номерами", " has no numbered items"));
    proof {
        assert(out@ =~= start + msg_not_indexable(*t, lang));
    }
}

fn push_msg_bad_index(out: &mut String, lang: Lang)
    ensures
        final(out)@ == old(out)@ + msg_bad_index(lang),
{
    let ghost start = out@;
    push_str(
        out,
        lang.pick(
            "номер елемента має бути цілим числом від 1",
            "an item number must be a whole number from 1",
        ),
    );
    proof {
        assert(out@ =~= start + msg_bad_index(lang));
    }
}

fn push_msg_index_out_of_range(out: &mut String, index: &i64, len: &usize, lang: Lang)
    ensures
        final(out)@ == old(out)@ + msg_index_out_of_range(*index, *len, lang),
{
    let ghost start = out@;
    push_str(out, lang.pick("немає елемента з номером ", "there is no item "));
    push_signed(out, *index);
    push_str(out, lang.pick(": їх усього ", ": there are only "));
    push_decimal(out, *len as u64);
    proof {
        assert(out@ =~= start + msg_index_out_of_range(*index, *len, lang));
    }
}

fn push_msg_division_by_zero(out: &mut String, lang: Lang)
    ensures
        final(out)@ == old(out)@ + msg_division_by_zero(lang),
{
    let ghost start = out@;
    push_str(out, lang.pick("ділення на нуль", "division by zero"));
    proof {
        assert(out@ =~= start + msg_division_by_zero(lang));
    }
}

fn push_msg_bad_number(out: &mut String, s: &String, lang: Lang)
    ensures
        final(out)@ == old(out)@ + msg_bad_number(s@, lang),
{
    let ghost start = out@;
    push_str(out, lang.pick("не вдалося перетворити ", "can't turn "));
    push_quoted(out, s.as_str(), lang);
    push_str(out, lang.pick(" на число", " into a number"));
    proof {
        assert(out@ =~= start + msg_bad_number(s@, lang));
    }
}

fn push_msg_recursion_too_deep(out: &mut String, lang: Lang)
    ensures
        final(out)@ == old(out)@ + msg_recursion_too_deep(lang),
{
    let ghost start = out@;
    push_str(
        out,
        lang.pick(
            "забагато вкладених викликів (понад 1000)",
            "too many nested calls (over 1000)",
        ),
    );
    proof {
        assert(out@ =~= start + msg_recursion_too_deep(lang));
    }
}

fn push_msg_too_long(out: &mut String, lang: Lang)
    ensures
        final(out)@ == old(out)@ + msg_too_long(lang),
{
    let ghost start = out@;
    push_str(out, lang.pick("програма працює занадто довго", "the program runs too long"));
    proof {
        assert(out@ =~= start + msg_too_long(lang));
    }
}

fn push_msg_unknown_color(out: &mut String, name: &String, lang: Lang)
    ensures
        final(out)@ == old(out)@ + msg_unknown_color(name@, lang),
{
    let ghost start = out@;
    push_str(out, lang.pick("невідомий колір", "unknown colour"));
    push_char(out, ' ');
    push_quoted(out, name.as_str(), lang);
    proof {
        assert(out@ =~= start + msg_unknown_color(name@, lang));
    }
}

fn push_msg_color_needs_quotes(out: &mut String, w: &String, lang: Lang)
    ensures
        final(out)@ == old(out)@ + msg_color_needs_quotes(w@, lang),
{
    let ghost start = out@;
    push_quoted(out, w.as_str(), lang);
    push_str(
        out,
        lang.pick(
            " — це колір, його треба взяти в лапки",
            " is a colour and needs quotes",
        ),
    );
    proof {
        assert(out@ =~= start + msg_color_needs_quotes(w@, lang));
    }
}

fn push_msg_negative_size(out: &mut String, n: &String, lang: Lang)
    ensures
        final(out)@ == old(out)@ + msg_negative_size(n@, lang),
{
    let ghost start = out@;
    push_str(
        out,
        lang.pick("розмір не може бути від'ємним:", "a size can't be negative:"),
    );
    push_char(out, ' ');
    push_str(out, n.as_str());
    proof {
        assert(out@ =~= start + msg_negative_size(n@, lang));
    }
}

fn push_msg_bad_canvas(out: &mut String, lang: Lang)
    ensures
        final(out)@ == old(out)@ + msg_bad_canvas(lang),
{
    let ghost start = out@;
    push_str(
        out,
        lang.pick(
            "полотно може мати від 1 до 4000 точок з кожного боку",
            "the canvas can be 1 to 4000 points on each side",
        ),
    );
    proof {
        assert(out@ =~= start + msg_bad_canvas(lang));
    }
}

fn push_msg_fill_not_started(out: &mut String, lang: Lang)
    ensures
        final(out)@ == old(out)@ + msg_fill_not_started(lang),
{
    let ghost start = out@;
    push_str(out, lang.pick("заливку ще не почато", "no fill has been started"));
    proof {
        assert(out@ =~= start + msg_fill_not_started(lang));
    }
}

fn push_msg_too_many_shapes(out: &mut String, lang: Lang)
    ensures
        final(out)@ == old(out)@ + msg_too_many_shapes(lang),
{
    let ghost start = out@;
    push_str(
        out,
        lang.pick("забагато фігур (понад 50 000)", "too many shapes (over 50,000)"),
    );
    proof {
        assert(out@ =~= start + msg_too_many_shapes(lang));
    }
}

fn push_msg_expected_text(out: &mut String, t: &Ty, lang: Lang)
    ensures
        final(out)@ == old(out)@ + msg_expected_text(*t, lang),
{
    let ghost start = out@;
    push_str(out, lang.pick("тут потрібен текст, а маємо: ", "expected text, got "));
    push_str(out, t.name(lang));
    proof {
        assert(out@ =~= start + msg_expected_text(*t, lang));
    }
}

/// The names of the first `k` palette colours in `lang`, separated by commas.
pub open spec fn palette_names(lang: Lang, k: int) -> Seq<char>
    decreases k,
{
    if k <= 0 {
        Seq::empty()
    } else if k == 1 {
        spec_color_name(palette_view(0), lang)
    } else {
        palette_names(lang, k - 1) + ", "@ + spec_color_name(palette_view(k - 1), lang)
    }
}

impl ErrorKind {
    /// A hint under the message, for the errors that have one.
    #[verifier::opaque]
    pub open spec fn spec_hint(&self, lang: Lang) -> Option<Seq<char>> {
        let q = |s: Seq<char>| spec_quote(s, lang);
        match self {
            ErrorKind::UnknownName { suggestion: Some(s), .. }
            | ErrorKind::UnknownColor { suggestion: Some(s), .. } => Some(
                by_lang(lang, "Можливо, ти мав на увазі"@, "Did you mean"@) + seq![' '] + q(s@)
                    + seq!['?'],
            ),
            ErrorKind::UnknownName { name, suggestion: None } => Some(
                by_lang(
                    lang,
                    "Змінна з'являється, коли їй щось присвоять: "@,
                    "A variable appears once you assign to it: "@,
                ) + name@ + " = …"@,
            ),
            ErrorKind::KeywordAsName(w) => Some(
                by_lang(lang, "Вибери іншу назву, наприклад"@, "Pick another name, for example"@)
                    + seq![' '] + q(w@.push('_')),
            ),
            ErrorKind::BuiltinAsName(_) => Some(
                by_lang(lang, "Вибери іншу назву"@, "Pick another name"@),
            ),
            ErrorKind::RecursionTooDeep => Some(
                by_lang(
                    lang,
                    "Можливо, функція викликає себе без кінця"@,
                    "The function may be calling itself forever"@,
                ),
            ),
            ErrorKind::TooLong | ErrorKind::TooManyShapes => Some(
                by_lang(lang, "Можливо, цикл ніколи не закінчується"@, "A loop may never end"@),
            ),
            ErrorKind::UnknownColor { suggestion: None, .. } => Some(
                by_lang(lang, "Кольори:"@, "Colours:"@) + seq![' '] + palette_names(lang, 12)
                    + seq![' '] + by_lang(lang, "або"@, "or"@) + " \"#ff8800\""@,
            ),
            ErrorKind::ColorNeedsQuotes(w) => Some(
                by_lang(lang, "Напиши так:"@, "Write it like this:"@) + " \""@ + w@ + seq!['"'],
            ),
            ErrorKind::FillNotStarted => Some(
                by_lang(lang, "Спершу виклич почни_заливку()"@, "Call begin_fill() first"@),
            ),
            _ => None,
        }
    }

    /// A hint under the message, for the errors that have one.
    pub fn hint(&self, lang: Lang) -> (r: Option<String>)
        ensures
            r matches Some(h) ==> self.spec_hint(lang) == Some(h@),
            r is None ==> self.spec_hint(lang) is None,
    {
        reveal(ErrorKind::spec_hint);
        let mut out = String::new();
        match self {
            ErrorKind::UnknownName { suggestion: Some(s), .. }
            | ErrorKind::UnknownColor { suggestion: Some(s), .. } => {
                push_str(&mut out, lang.pick("Можливо, ти мав на увазі", "Did you mean"));
                push_char(&mut out, ' ');
                push_quoted(&mut out, s.as_str(), lang);
                push_char(&mut out, '?');
            },
            ErrorKind::UnknownName { name, suggestion: None } => {
                push_str(
                    &mut out,
                    lang.pick(
                        "Змінна з'являється, коли їй щось присвоять: ",
                        "A variable appears once you assign to it: ",
                    ),
                );
                push_str(&mut out, name.as_str());
                push_str(&mut out, " = …");
            },
            ErrorKind::KeywordAsName(w) => {
                push_str(
                    &mut out,
                    lang.pick("Вибери іншу назву, наприклад", "Pick another name, for example"),
                );
                push_char(&mut out, ' ');
                let mut renamed = crate::text::owned(w.as_str());
                push_char(&mut renamed, '_');
                push_quoted(&mut out, renamed.as_str(), lang);
            },
            ErrorKind::BuiltinAsName(_) => {
                push_str(&mut out, lang.pick("Вибери іншу назву", "Pick another name"));
            },
            ErrorKind::RecursionTooDeep => {
                push_str(
                    &mut out,
                    lang.pick(
                        "Можливо, функція викликає себе без кінця",
                        "The function may be calling itself forever",
                    ),
                );
            },
            ErrorKind::TooLong | ErrorKind::TooManyShapes => {
                push_str(
                    &mut out,
                    lang.pick("Можливо, цикл ніколи не закінчується", "A loop may never end"),
                );
            },
            ErrorKind::UnknownColor { suggestion: None, .. } => {
                push_str(&mut out, lang.pick("Кольори:", "Colours:"));
                push_char(&mut out, ' ');
                push_palette_names(&mut out, lang);
                push_char(&mut out, ' ');
                push_str(&mut out, lang.pick("або", "or"));
                push_str(&mut out, " \"#ff8800\"");
            },
            ErrorKind::ColorNeedsQuotes(w) => {
                push_str(&mut out, lang.pick("Напиши так:", "Write it like this:"));
                push_str(&mut out, " \"");
                push_str(&mut out, w.as_str());
                push_char(&mut out, '"');
            },
            ErrorKind::FillNotStarted => {
                push_str(
                    &mut out,
                    lang.pick("Спершу виклич почни_заливку()", "Call begin_fill() first"),
                );
            },
            _ => {
                return None;
            },
        }
        proof {
            assert(self.spec_hint(lang) is Some);
            assert(out@ =~= self.spec_hint(lang)->0);
        }
        Some(out)
    }
}

/// Appends the names of every palette colour in `lang`, separated by commas.
fn push_palette_names(out: &mut String, lang: Lang)
    ensures
        final(out)@ == old(out)@ + palette_names(lang, 12),
{
    let ghost start = out@;
    let mut i: usize = 0;
    while i < 12
        invariant
            i <= 12,
            out@ == start + palette_names(lang, i as int),
        decreases 12 - i,
    {
        if i > 0 {
            push_str(out, ", ");
        }
        let name = named(i).name(lang);
        push_str(out, name.as_str());
        proof {
            assert(out@ =~= start + palette_names(lang, i + 1));
        }
        i += 1;
    }
}

/// An error with the place in the source it points at.
#[derive(Debug, Clone, PartialEq)]
pub struct Diagnostic {
    pub kind: ErrorKind,
    pub span: Span,
}

/// `n` copies of `c`.
pub open spec fn repeat_char(c: char, n: nat) -> Seq<char> {
    Seq::new(n, |_i: int| c)
}

/// A line as the caret line shows it: every tab as four spaces.
pub open spec fn expand_tabs(t: Seq<char>) -> Seq<char>
    decreases t.len(),
{
    if t.len() == 0 {
        Seq::empty()
    } else {
        expand_tabs(t.drop_last()) + if t.last() == '\t' {
            repeat_char(' ', 4)
        } else {
            seq![t.last()]
        }
    }
}

/// The place of the first character at or after index `k` that starts at or past byte `b`.
pub open spec fn first_from(s: Seq<char>, b: int, k: int) -> int
    decreases s.len() - k,
{
    if k < 0 || k >= s.len() || byte_offset(s, k) >= b {
        k
    } else {
        first_from(s, b, k + 1)
    }
}

/// How many characters from index `k` start before byte `end`, up to the first line break.
pub open spec fn caret_count(s: Seq<char>, end: int, k: int) -> nat
    decreases s.len() - k,
{
    if k < 0 || k >= s.len() || byte_offset(s, k) >= end || s[k] == '\n' {
        0
    } else {
        1 + caret_count(s, end, k + 1)
    }
}

/// `b` is where some character starts, or the end of the text.
pub open spec fn at_boundary(s: Seq<char>, b: int) -> bool {
    exists|k: int| 0 <= k <= s.len() && #[trigger] byte_offset(s, k) == b
}

/// The text of line `line` (1-based) of `src`, empty past the last line.
pub open spec fn line_of(src: Seq<char>, line: int) -> Seq<char> {
    match spec_line_range(src, 0, if line <= 0 { 0nat } else { (line - 1) as nat }) {
        Some((a, b)) => src.subrange(a, b),
        None => Seq::empty(),
    }
}

impl Diagnostic {
    pub fn new(kind: ErrorKind, span: Span) -> (d: Diagnostic)
        ensures
            d.kind == kind,
            d.span == span,
    {
        Diagnostic { kind, span }
    }

    /// Where the span ends for the caret: not past the text, not before the start.
    pub open spec fn caret_end(&self, src: Seq<char>) -> int {
        let e = if self.span.end <= byte_len(src) {
            self.span.end as int
        } else {
            byte_len(src) as int
        };
        if e >= self.span.start {
            e
        } else {
            self.span.start as int
        }
    }

    /// The rendered error: a header line, the source line, a caret line and an optional hint.
    pub open spec fn spec_render(&self, src: Seq<char>, lang: Lang) -> Seq<char> {
        let (line, col) = spec_line_col(src, self.span.start as int);
        let text = line_of(src, line);
        let before = expand_tabs(
            text.take(
                if col - 1 <= text.len() {
                    col - 1
                } else {
                    text.len() as int
                },
            ),
        ).len();
        let k0 = first_from(src, self.span.start as int, 0);
        let count = caret_count(src, self.caret_end(src), k0);
        let width = if count == 0 {
            1
        } else {
            count
        };
        render_text(lang, line as nat, self.kind.spec_message(lang), expand_tabs(text), before, width, self.kind.spec_hint(lang))
    }

    /// Header line, the source line, a caret line and an optional hint.
    pub fn render(&self, src: &str, lang: Lang) -> (r: String)
        requires
            byte_len(src@) < usize::MAX / 4,
            at_boundary(src@, self.span.start as int),
            at_boundary(src@, self.caret_end(src@)),
        ensures
            r@ == self.spec_render(src@, lang),
    {
        let (line, col) = line_col(src, self.span.start);
        proof {
            lemma_line_col_max(src@, self.span.start as int);
            lemma_offset_ge_index(src@, src@.len() as int);
            lemma_offset_end(src@);
        }
        let text = line_text(src, line);
        proof {
            lemma_line_len(src@, line as int);
        }
        let take = if col - 1 <= chars_of(text).len() {
            col - 1
        } else {
            chars_of(text).len()
        };
        let (shown, before) = expand_line(text, take);
        assert(src.len() == byte_len(src@));
        let end_raw = if self.span.end <= src.len() {
            self.span.end
        } else {
            src.len()
        };
        let end = if end_raw >= self.span.start {
            end_raw
        } else {
            self.span.start
        };
        let count = caret_count_of(src, self.span.start, end);
        let width = if count == 0 {
            1
        } else {
            count
        };
        let out = assemble(lang, line, self.kind.message(lang), shown, before, width, self.kind.hint(lang));
        proof {
            assert(end == self.caret_end(src@));
        }
        out
    }
}

/// The rendered error, from its parts: the header, the source line under its number, the caret
/// line, and the hint when there is one.
pub open spec fn render_text(
    lang: Lang,
    line: nat,
    message: Seq<char>,
    shown: Seq<char>,
    before: nat,
    width: nat,
    hint: Option<Seq<char>>,
) -> Seq<char> {
    let gutter = decimal(line);
    let body = by_lang(lang, "Помилка в рядку"@, "Error on line"@) + seq![' '] + gutter + ": "@
        + message + "\n  "@ + gutter + " | "@ + shown + "\n  "@ + repeat_char(' ', gutter.len())
        + " | "@ + repeat_char(' ', before) + repeat_char('^', width);
    match hint {
        Some(h) => body + "\n  "@ + h,
        None => body,
    }
}

/// In a rendered error the caret line lines up with the source line: the source line stands
/// after `  ` and its line number, the caret line after as many spaces, both followed by
/// ` | `, so the carets start under column `before` of the shown line, whatever the number.
pub proof fn lemma_caret_under_the_source(
    lang: Lang,
    line: nat,
    message: Seq<char>,
    shown: Seq<char>,
    before: nat,
    width: nat,
    hint: Option<Seq<char>>,
)
    ensures
        exists|head: Seq<char>, number: Seq<char>, pad: Seq<char>, rest: Seq<char>|
            {
                &&& render_text(lang, line, message, shown, before, width, hint) == head + "\n"@
                    + number + " | "@ + shown + "\n"@ + pad + " | "@ + repeat_char(' ', before)
                    + repeat_char('^', width) + rest
                &&& number == "  "@ + decimal(line)
                &&& pad.len() == number.len()
                &&& forall|k: int| 0 <= k < pad.len() ==> #[trigger] pad[k] == ' '
            },
{
    reveal_strlit("\n  ");
    reveal_strlit("\n");
    reveal_strlit("  ");
    let gutter = decimal(line);
    let head = by_lang(lang, "Помилка в рядку"@, "Error on line"@) + seq![' '] + gutter + ": "@
        + message;
    let number = "  "@ + gutter;
    let pad = repeat_char(' ', number.len());
    let rest = match hint {
        Some(h) => "\n  "@ + h,
        None => Seq::<char>::empty(),
    };
    assert("\n  "@ + gutter =~= "\n"@ + number);
    assert("\n  "@ + repeat_char(' ', gutter.len()) =~= "\n"@ + pad);
    let tail = " | "@ + repeat_char(' ', before) + repeat_char('^', width);
    assert(render_text(lang, line, message, shown, before, width, hint) =~= head + "\n"@ + number
        + " | "@ + shown + "\n"@ + pad + tail + rest);
    assert(head + "\n"@ + number + " | "@ + shown + "\n"@ + pad + tail + rest =~= head + "\n"@
        + number + " | "@ + shown + "\n"@ + pad + " | "@ + repeat_char(' ', before)
        + repeat_char('^', width) + rest);
}

fn assemble(
    lang: Lang,
    line: usize,
    message: String,
    shown: String,
    before: usize,
    width: usize,
    hint: Option<String>,
) -> (r: String)
    ensures
        r@ == render_text(
            lang,
            line as nat,
            message@,
            shown@,
            before as nat,
            width as nat,
            match hint {
                Some(h) => Some(h@),
                None => None,
            },
        ),
{
    let mut out = String::new();
    push_str(&mut out, lang.pick("Помилка в рядку", "Error on line"));
    push_char(&mut out, ' ');
    let mut gutter = String::new();
    push_decimal(&mut gutter, line as u64);
    push_str(&mut out, gutter.as_str());
    push_str(&mut out, ": ");
    push_str(&mut out, message.as_str());
    push_str(&mut out, "\n  ");
    push_str(&mut out, gutter.as_str());
    push_str(&mut out, " | ");
    push_str(&mut out, shown.as_str());
    push_str(&mut out, "\n  ");
    let glen = chars_of(gutter.as_str()).len();
    push_repeat(&mut out, ' ', glen);
    push_str(&mut out, " | ");
    push_repeat(&mut out, ' ', before);
    push_repeat(&mut out, '^', width);
    proof {
        assert(gutter@ =~= decimal(line as nat));
    }
    let ghost body = out@;
    match hint {
        Some(h) => {
            push_str(&mut out, "\n  ");
            push_str(&mut out, h.as_str());
        },
        None => {},
    }
    proof {
        assert(body =~= render_text(lang, line as nat, message@, shown@, before as nat, width as nat, None));
    }
    out
}

/// `text` with every tab as four spaces, and how wide its first `take` characters are then.
fn expand_line(text: &str, take: usize) -> (r: (String, usize))
    requires
        text@.len() < usize::MAX / 4,
        take <= text@.len(),
    ensures
        r.0@ == expand_tabs(text@),
        r.1 == expand_tabs(text@.take(take as int)).len(),
{
    let tchars = chars_of(text);
    let mut shown = String::new();
    let mut before: usize = 0;
    let mut i: usize = 0;
    while i < tchars.len()
        invariant
            tchars@ == text@,
            tchars@.len() < usize::MAX / 4,
            take <= tchars@.len(),
            i <= tchars@.len(),
            shown@ == expand_tabs(tchars@.take(i as int)),
            before == expand_tabs(
                tchars@.take(
                    if i <= take {
                        i as int
                    } else {
                        take as int
                    },
                ),
            ).len(),
            before <= 4 * i,
        decreases tchars@.len() - i,
    {
        let c = tchars[i];
        proof {
            assert(tchars@.take(i + 1).drop_last() =~= tchars@.take(i as int));
        }
        if c == '\t' {
            push_str(&mut shown, "    ");
            if i < take {
                before += 4;
            }
            proof {
                assert(repeat_char(' ', 4) =~= "    "@) by {
                    reveal_strlit("    ");
                }
            }
        } else {
            push_char(&mut shown, c);
            if i < take {
                before += 1;
            }
            proof {
                assert(shown@ =~= expand_tabs(tchars@.take(i as int)) + seq![c]);
            }
        }
        i += 1;
    }
    proof {
        assert(tchars@.take(tchars@.len() as int) =~= tchars@);
    }
    (shown, before)
}

/// How many characters, from the first one that starts at or past byte `start`, start before
/// byte `end` with no line break among them.
fn caret_count_of(src: &str, start: usize, end: usize) -> (r: usize)
    requires
        byte_len(src@) <= usize::MAX,
    ensures
        r == caret_count(src@, end as int, first_from(src@, start as int, 0)),
{
    let idx = char_indices(src);
    let mut k: usize = 0;
    loop
        invariant
            idx@.len() == src@.len(),
            indexes(idx@, src@),
            k <= idx@.len(),
            first_from(src@, start as int, 0) == first_from(src@, start as int, k as int),
        ensures
            k <= idx@.len(),
            first_from(src@, start as int, 0) == k,
        decreases idx@.len() - k,
    {
        if k >= idx.len() {
            break;
        }
        let (at, _) = idx[k];
        proof {
            reveal(indexes);
            assert(idx@[k as int].1 == src@[k as int]);
        }
        if at >= start {
            break;
        }
        k += 1;
    }
    let ghost k0 = k;
    let mut count: usize = 0;
    loop
        invariant
            idx@.len() == src@.len(),
            indexes(idx@, src@),
            k0 <= k <= idx@.len(),
            count == k - k0,
            caret_count(src@, end as int, k0 as int) == count + caret_count(
                src@,
                end as int,
                k as int,
            ),
        ensures
            caret_count(src@, end as int, k0 as int) == count,
        decreases idx@.len() - k,
    {
        if k >= idx.len() {
            break;
        }
        let (at, c) = idx[k];
        proof {
            reveal(indexes);
            assert(idx@[k as int].1 == src@[k as int]);
        }
        if at >= end || c == '\n' {
            break;
        }
        k += 1;
        count += 1;
    }
    count
}

/// Appends `n` copies of `c`.
fn push_repeat(out: &mut String, c: char, n: usize)
    ensures
        final(out)@ == old(out)@ + repeat_char(c, n as nat),
{
    let ghost start = out@;
    let mut i: usize = 0;
    while i < n
        invariant
            i <= n,
            out@ == start + repeat_char(c, i as nat),
        decreases n - i,
    {
        push_char(out, c);
        i += 1;
        proof {
            assert(out@ =~= start + repeat_char(c, i as nat));
        }
    }
}

proof fn lemma_line_col_max(s: Seq<char>, offset: int)
    ensures
        1 <= spec_line_col(s, offset).0 <= s.len() + 1,
        1 <= spec_line_col(s, offset).1 <= s.len() + 1,
    decreases s.len(),
{
    if s.len() > 0 {
        lemma_line_col_max(s.drop_last(), offset);
    }
}

proof fn lemma_line_len(src: Seq<char>, line: int)
    ensures
        line_of(src, line).len() <= src.len(),
{
    let n = if line <= 0 {
        0nat
    } else {
        (line - 1) as nat
    };
    lemma_range_bounds(src, 0, n);
}

proof fn lemma_range_bounds(s: Seq<char>, from: int, n: nat)
    requires
        0 <= from,
    ensures
        spec_line_range(s, from, n) matches Some((a, b)) ==> 0 <= a <= b <= s.len(),
    decreases s.len() - from,
{
    if 0 <= from < s.len() {
        crate::span::lemma_run_len(s, from);
        let stop = from + crate::span::run_len(s, from);
        if n > 0 && stop < s.len() {
            lemma_range_bounds(s, stop + 1, (n - 1) as nat);
        }
    }
}

} // verus!
