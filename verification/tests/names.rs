use yu_core::builtins::Builtin;
use yu_core::names::unknown_name;
use yu_core::{ErrorKind, Lang};

#[test]
fn a_colour_without_quotes_asks_for_them() {
    let none: Vec<String> = Vec::new();
    assert_eq!(
        unknown_name("червоний", &none),
        ErrorKind::ColorNeedsQuotes("червоний".into())
    );
    assert_eq!(unknown_name("Red", &none), ErrorKind::ColorNeedsQuotes("Red".into()));
}

#[test]
fn an_unknown_name_suggests_a_visible_variable() {
    let visible = vec!["лічильник".to_string()];
    assert_eq!(
        unknown_name("лічильнк", &visible),
        ErrorKind::UnknownName {
            name: "лічильнк".into(),
            suggestion: Some("лічильник".into())
        }
    );
}

#[test]
fn an_unknown_name_suggests_a_builtin() {
    let none: Vec<String> = Vec::new();
    assert_eq!(
        unknown_name("скаж", &none),
        ErrorKind::UnknownName {
            name: "скаж".into(),
            suggestion: Some("скажи".into())
        }
    );
    assert_eq!(
        unknown_name("y", &none),
        ErrorKind::UnknownName {
            name: "y".into(),
            suggestion: None
        }
    );
}

#[test]
fn arity_refusals_name_the_builtin_and_the_count_it_wanted() {
    assert_eq!(Builtin::Circle.check_arity(3, Lang::Uk), Ok(()));
    assert_eq!(Builtin::Say.check_arity(7, Lang::En), Ok(()));
    assert_eq!(
        Builtin::Circle.check_arity(2, Lang::Uk),
        Err(ErrorKind::ArgCount {
            name: "коло".into(),
            expected: 3,
            got: 2
        })
    );
    assert_eq!(
        Builtin::Ask.check_arity(2, Lang::En),
        Err(ErrorKind::ArgCount {
            name: "ask".into(),
            expected: 1,
            got: 2
        })
    );
}
