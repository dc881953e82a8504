use yu_core::ast::BinOp;
use yu_core::builtins::{next_random, Builtin};
use yu_core::options::DEFAULT_SEED;
use yu_core::svg::escape;
use yu_core::{Lang, Options};

#[test]
fn svg_text_escapes_markup() {
    assert_eq!(escape("a < b & c > d"), "a &lt; b &amp; c &gt; d");
    assert_eq!(escape("коло"), "коло");
}

#[test]
fn operators_are_written_as_in_messages() {
    assert_eq!(BinOp::Le.symbol(), "<=");
    assert_eq!(BinOp::And.symbol(), "and");
}

#[test]
fn builtins_are_found_by_either_name() {
    assert_eq!(Builtin::lookup("коло"), Some(Builtin::Circle));
    assert_eq!(Builtin::lookup("circle"), Some(Builtin::Circle));
    assert_eq!(Builtin::lookup("квадрат"), None);
    assert_eq!(Builtin::Circle.name(Lang::En), "circle");
    assert_eq!(Builtin::Say.arity(), (0, usize::MAX));
}

#[test]
fn the_random_sequence_is_xorshift() {
    let mut state = 1u64;
    let a = next_random(&mut state);
    assert_eq!(a, 1082269761);
    assert_eq!(state, a);
}

#[test]
fn default_options() {
    let o = Options::default();
    assert_eq!(o.lang, Lang::Uk);
    assert_eq!(o.step_budget, None);
    assert_eq!(o.max_depth, 1000);
    assert_eq!(o.seed, DEFAULT_SEED);
}
