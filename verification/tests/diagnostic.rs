use yu_core::diagnostic::{plural_uk, quote, TokDesc, Ty};
use yu_core::{Diagnostic, ErrorKind, Lang, Span};

#[test]
fn ukrainian_plurals() {
    let p = |n| plural_uk(n, "аргумент", "аргументи", "аргументів");
    assert_eq!(
        (p(1), p(2), p(5), p(11), p(12), p(21), p(22), p(25)),
        (
            "аргумент",
            "аргументи",
            "аргументів",
            "аргументів",
            "аргументів",
            "аргумент",
            "аргументи",
            "аргументів"
        )
    );
}

#[test]
fn renders_unknown_name_with_hint_in_both_languages() {
    let src = "бал = 1\nскаж(\"Привіт\")";
    let at = src.find("скаж").unwrap();
    let d = Diagnostic::new(
        ErrorKind::UnknownName {
            name: "скаж".into(),
            suggestion: Some("скажи".into()),
        },
        Span::new(at, at + "скаж".len()),
    );
    assert_eq!(
        d.render(src, Lang::Uk),
        "Помилка в рядку 2: невідома назва «скаж»\n  2 | скаж(\"Привіт\")\n    | ^^^^\n  Можливо, ти мав на увазі «скажи»?"
    );
    assert_eq!(
        d.render(src, Lang::En),
        "Error on line 2: unknown name 'скаж'\n  2 | скаж(\"Привіт\")\n    | ^^^^\n  Did you mean 'скажи'?"
    );
}

#[test]
fn arg_count_uses_plural_forms() {
    let k = ErrorKind::ArgCount {
        name: "квадрат".into(),
        expected: 1,
        got: 2,
    };
    assert_eq!(k.message(Lang::Uk), "«квадрат» чекає 1 аргумент, а отримала 2");
    assert_eq!(k.message(Lang::En), "'квадрат' takes 1 argument but got 2");
}

#[test]
fn caret_at_end_of_file_is_one_wide() {
    let src = "x = (";
    let d = Diagnostic::new(ErrorKind::UnexpectedToken(TokDesc::EndOfFile), Span::new(5, 5));
    assert_eq!(
        d.render(src, Lang::Uk),
        "Помилка в рядку 1: тут не очікувалося: кінець програми\n  1 | x = (\n    |      ^"
    );
}

#[test]
fn tabs_are_expanded_under_the_caret() {
    let src = "\tx";
    let d = Diagnostic::new(ErrorKind::UnexpectedChar('x'), Span::new(1, 2));
    assert!(d.render(src, Lang::En).ends_with("  1 |     x\n    |     ^"));
}

#[test]
fn colour_errors_say_what_to_write() {
    let k = ErrorKind::ColorNeedsQuotes("червоний".into());
    assert_eq!(k.message(Lang::Uk), "«червоний» — це колір, його треба взяти в лапки");
    assert_eq!(k.message(Lang::En), "'червоний' is a colour and needs quotes");
    assert_eq!(k.hint(Lang::Uk).unwrap(), "Напиши так: \"червоний\"");
    let k = ErrorKind::UnknownColor {
        name: "червний".into(),
        suggestion: Some("червоний".into()),
    };
    assert_eq!(k.message(Lang::Uk), "невідомий колір «червний»");
    assert_eq!(k.hint(Lang::Uk).unwrap(), "Можливо, ти мав на увазі «червоний»?");
    let k = ErrorKind::UnknownColor {
        name: "x".into(),
        suggestion: None,
    };
    assert_eq!(
        k.hint(Lang::En).unwrap(),
        "Colours: red, orange, yellow, green, lightblue, blue, purple, pink, white, black, gray, brown or \"#ff8800\""
    );
}

#[test]
fn drawing_errors_in_both_languages() {
    assert_eq!(
        ErrorKind::NegativeSize("-5".into()).message(Lang::Uk),
        "розмір не може бути від'ємним: -5"
    );
    assert_eq!(
        ErrorKind::NegativeSize("-2.5".into()).message(Lang::En),
        "a size can't be negative: -2.5"
    );
    assert_eq!(
        ErrorKind::BadCanvas.message(Lang::En),
        "the canvas can be 1 to 4000 points on each side"
    );
    assert_eq!(
        ErrorKind::FillNotStarted.hint(Lang::Uk).unwrap(),
        "Спершу виклич почни_заливку()"
    );
    assert_eq!(ErrorKind::TooManyShapes.message(Lang::Uk), "забагато фігур (понад 50 000)");
    assert_eq!(ErrorKind::TooManyShapes.hint(Lang::En).unwrap(), "A loop may never end");
}

#[test]
fn quotes_follow_the_language() {
    assert_eq!(quote("x", Lang::Uk), "«x»");
    assert_eq!(quote("x", Lang::En), "'x'");
}

#[test]
fn types_are_named_in_both_languages() {
    assert_eq!(Ty::Number.name(Lang::Uk), "число");
    assert_eq!(Ty::Text.name(Lang::En), "text");
}

#[test]
fn expected_text_names_what_it_got() {
    assert_eq!(
        ErrorKind::ExpectedText(Ty::Number).message(Lang::Uk),
        "тут потрібен текст, а маємо: число"
    );
    assert_eq!(
        ErrorKind::ExpectedText(Ty::Number).message(Lang::En),
        "expected text, got a number"
    );
}

#[test]
fn unexpected_tokens_are_described() {
    assert_eq!(TokDesc::EndOfLine.show(Lang::En), "end of line");
    assert_eq!(TokDesc::Text("2".into()).show(Lang::Uk), "«2»");
}
