use yu_core::suggest::{closest, distance};

#[test]
fn distance_counts_character_edits() {
    assert_eq!(distance("скаж", "скажи"), 1);
    assert_eq!(distance("kitten", "sitting"), 3);
    assert_eq!(distance("", "abc"), 3);
}

#[test]
fn closest_picks_a_near_name_or_nothing() {
    assert_eq!(closest("довжна", &["додай", "довжина"]), Some("довжина"));
    assert_eq!(closest("xyz", &["скажи"]), None);
    assert_eq!(closest("скажи", &["скажи"]), None);
}

#[test]
fn closest_ignores_case_and_prefers_the_first_of_a_tie() {
    assert_eq!(closest("SAY", &["say", "sax"]), Some("sax"));
    assert_eq!(closest("ab", &["ax", "ay"]), Some("ax"));
}

#[test]
fn distance_is_symmetric_on_examples() {
    assert_eq!(distance("abc", "yabd"), distance("yabd", "abc"));
    assert_eq!(distance("same", "same"), 0);
}
