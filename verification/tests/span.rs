use yu_core::span::{line_col, line_text};
use yu_core::Span;

#[test]
fn line_col_counts_characters_not_bytes() {
    let src = "а = 1\nскажи(а)";
    assert_eq!(line_col(src, 0), (1, 1));
    assert_eq!(line_col(src, src.find("скажи").unwrap()), (2, 1));
    assert_eq!(line_col(src, src.find('(').unwrap()), (2, 6));
}

#[test]
fn line_text_returns_one_line() {
    assert_eq!(line_text("a\nb\r\nc", 2), "b");
    assert_eq!(line_text("a", 5), "");
}

#[test]
fn to_covers_both_spans() {
    assert_eq!(Span::new(3, 5).to(Span::new(1, 4)), Span::new(1, 5));
}

#[test]
fn an_offset_past_the_end_stops_at_the_last_character() {
    assert_eq!(line_col("ab\nc", 99), (2, 2));
    assert_eq!(line_text("a\nb", 0), "a");
}

#[test]
fn the_default_span_is_empty() {
    assert_eq!(Span::default(), Span::new(0, 0));
}

#[test]
fn to_covers_both_spans_and_no_more() {
    let a = Span::new(4, 9);
    let b = Span::new(2, 6);
    assert_eq!(a.to(b), Span::new(2, 9));
    assert_eq!(b.to(a), Span::new(2, 9));
    assert_eq!(a.to(a), a);
}
