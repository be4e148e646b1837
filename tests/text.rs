use std::str::FromStr;

use robotdreams::form::MessageTypeWrapper;
use robotdreams::message::MessageType;
use robotdreams::table::format_row;
use robotdreams::text::{capitalize, lowercase, no_spaces, reverse, same_text, uppercase};

#[test]
fn lowercase_converts() {
    assert_eq!(lowercase("HeLLo WORLD"), "hello world");
    assert_eq!(lowercase("ŽLUŤOUČKÝ"), "žluťoučký");
}

#[test]
fn uppercase_converts() {
    assert_eq!(uppercase("Hello world"), "HELLO WORLD");
    assert_eq!(uppercase("straße"), "STRASSE");
}

#[test]
fn capitalize_converts() {
    assert_eq!(capitalize("abc def"), "ABC DEF");
}

#[test]
fn no_spaces_removes_spaces_only() {
    assert_eq!(no_spaces(" a b  c "), "abc");
    assert_eq!(no_spaces("tab\there"), "tab\there");
    assert_eq!(no_spaces(""), "");
}

#[test]
fn reverse_reverses_characters() {
    assert_eq!(reverse("abc"), "cba");
    assert_eq!(reverse("héllo"), "olléh");
    assert_eq!(reverse(""), "");
}

#[test]
fn same_text_compares() {
    assert!(same_text("abc", "abc"));
    assert!(!same_text("abc", "abd"));
    assert!(!same_text("abc", "ab"));
}

#[test]
fn wrapper_from_kind_names() {
    let w = MessageTypeWrapper::from_str("File").unwrap();
    assert_eq!(w.0, MessageType::File(String::new(), Vec::new()));
    let w = MessageTypeWrapper::from_str("Image").unwrap();
    assert_eq!(w.0, MessageType::Image(String::new(), Vec::new()));
    let w = MessageTypeWrapper::from_str("Quit").unwrap();
    assert_eq!(w.0, MessageType::Quit);
    let w = MessageTypeWrapper::from_str("Text").unwrap();
    assert_eq!(w.0, MessageType::Text(String::new()));
}

#[test]
fn wrapper_unknown_name_is_default() {
    let w = MessageTypeWrapper::from_str("Login").unwrap();
    assert_eq!(w.0, MessageType::Text(String::new()));
    assert_eq!(MessageTypeWrapper::default().0, MessageType::Text(String::new()));
}

#[test]
fn row_is_padded_to_columns() {
    let cells = vec!["name".to_string(), "surname".to_string(), "adress".to_string()];
    assert_eq!(format_row(&cells), "name             | surname          | adress          ");
}

#[test]
fn long_cell_is_cut() {
    let cells = vec![
        "Jan".to_string(),
        "Pansky".to_string(),
        "Tahle adresa je moc dlouha az az".to_string(),
    ];
    assert_eq!(format_row(&cells), "Jan              | Pansky           | Tahle adresa ...");
}

#[test]
fn cell_of_exact_width_is_kept() {
    let cells = vec!["abcdefghijklmnop".to_string()];
    assert_eq!(format_row(&cells), "abcdefghijklmnop");
    assert_eq!(format_row(&Vec::new()), "");
}

#[test]
fn short_cell_with_wide_bytes_is_marked() {
    let cells = vec!["ččččččččč".to_string()];
    assert_eq!(format_row(&cells), "ččččččččč...    ");
}
