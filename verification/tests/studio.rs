use yu_core::studio::{json_str, library_json, names_json, report_json, utf16_offset, VERSION};
use yu_core::{Diagnostic, ErrorKind, Lang, Span};

#[test]
fn json_strings_are_escaped() {
    assert_eq!(json_str("a\"b\\c\nd\u{1}є"), "\"a\\\"b\\\\c\\nd\\u0001є\"");
}

#[test]
fn offsets_are_counted_in_utf16() {
    assert_eq!(utf16_offset("ab", 1), 1);
    assert_eq!(utf16_offset("Юрій", 4), 2);
    assert_eq!(utf16_offset("😀a", 4), 2);
    assert_eq!(utf16_offset("ab", 99), 2);
}

#[test]
fn names_list_keywords_and_builtins_with_help() {
    let json = names_json();
    assert!(json.contains("\"разів\""));
    assert!(json.contains(
        "{\"uk\":\"коло\",\"en\":\"circle\",\"sig_uk\":\"коло(x, y, радіус)\",\"sig_en\":\"circle(x, y, r)\",\"doc_uk\":\"зафарбоване коло\",\"doc_en\":\"a filled circle\"}"
    ));
}

#[test]
fn names_carry_the_version() {
    let tail = format!(",\"version\":\"{}\"}}", VERSION);
    assert!(names_json().ends_with(&tail), "{}", names_json());
}

#[test]
fn the_library_lists_sections_entries_and_colours() {
    let json = library_json();
    assert!(
        json.starts_with("{\"sections\":[{\"id\":\"basics\",\"uk\":\"Основи\",\"en\":\"Basics\",\"entries\":[{\"uk\":\"скажи\",\"en\":\"say\",\"form_uk\":\"скажи(…)\",\"form_en\":\"say(…)\","),
        "{json}"
    );
    assert_eq!(json.matches("\"form_uk\"").count(), 37);
    assert!(json.contains("\"ex_uk\":\"колір(\\\"червоний\\\")\\nколо(300, 200, 80)\""));
    assert!(json.ends_with("{\"uk\":\"коричневий\",\"en\":\"brown\",\"hex\":\"#8b5a2b\"}]}"));
}

#[test]
fn a_good_run_reports_that_it_drew() {
    let json = report_json("скажи(1)", Lang::Uk, true, "<svg/>", None);
    assert_eq!(json, "{\"ok\":true,\"drew\":true,\"svg\":\"<svg/>\"}");
}

#[test]
fn a_failed_run_reports_the_error_and_where_it_is() {
    let src = "бал = 1\nскаж(бал)";
    let at = src.find("скаж").unwrap();
    let d = Diagnostic::new(
        ErrorKind::UnknownName {
            name: "скаж".into(),
            suggestion: Some("скажи".into()),
        },
        Span::new(at, at + "скаж".len()),
    );
    let json = report_json(src, Lang::Uk, false, "<svg/>", Some(&d));
    assert!(json.starts_with("{\"ok\":false,\"drew\":false,"), "{json}");
    assert!(json.contains("\"text\":\"Помилка в рядку 2: невідома назва «скаж»\\n"), "{json}");
    assert!(json.ends_with("\"from\":8,\"to\":12}}"), "{json}");
}

#[test]
fn control_characters_become_unicode_escapes() {
    assert_eq!(json_str("\t\r\u{1f}"), "\"\\t\\r\\u001f\"");
    assert_eq!(json_str(""), "\"\"");
}
