use netflow_query_api::text::{contains_char, decimal_text, join, signed_decimal_text, split};

#[test]
fn split_gives_the_pieces_between_separators() {
    assert_eq!(split("a,b", ','), vec!["a", "b"]);
    assert_eq!(split("", ','), vec![""]);
    assert_eq!(split(",a,,\u{e9}\u{4e2d},", ','), vec!["", "a", "", "\u{e9}\u{4e2d}", ""]);
}

#[test]
fn joined_pieces_are_the_text() {
    for text in ["", "a", "a,b", ",,", "a,,b,"] {
        assert_eq!(join(&split(text, ','), ","), text);
    }
}

#[test]
fn split_of_two_joined_texts() {
    let mut pieces = split("a,b", ',');
    pieces.extend(split("c,", ','));
    assert_eq!(split("a,b,c,", ','), pieces);
}

#[test]
fn join_of_nothing_is_empty() {
    assert_eq!(join(&Vec::new(), ", "), "");
    assert_eq!(join(&vec!["x".to_string(), "y".to_string()], ", "), "x, y");
}

#[test]
fn character_is_found() {
    assert!(contains_char("10.0.0.0/8", '/'));
    assert!(!contains_char("10.0.0.0", '/'));
    assert!(!contains_char("", '/'));
}

#[test]
fn numerals() {
    assert_eq!(decimal_text(0), "0");
    assert_eq!(decimal_text(10), "10");
    assert_eq!(decimal_text(1234567890), "1234567890");
    assert_eq!(decimal_text(u64::MAX), u64::MAX.to_string());
    assert_eq!(signed_decimal_text(-7), "-7");
    assert_eq!(signed_decimal_text(395), "395");
    assert_eq!(signed_decimal_text(i64::MIN), i64::MIN.to_string());
}
