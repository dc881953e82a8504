use yu_core::Lang;

#[test]
fn pick_chooses_by_language() {
    assert_eq!(Lang::Uk.pick("так", "yes"), "так");
    assert_eq!(Lang::En.pick("так", "yes"), "yes");
}

#[test]
fn codes() {
    assert_eq!(Lang::from_code("uk"), Some(Lang::Uk));
    assert_eq!(Lang::from_code("ua"), Some(Lang::Uk));
    assert_eq!(Lang::from_code("en"), Some(Lang::En));
    assert_eq!(Lang::from_code("de"), None);
    assert_eq!(Lang::default(), Lang::Uk);
}
