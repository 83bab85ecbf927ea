use metaboss::text::{copy_text_option, decimal_text};

#[test]
fn numbers_in_decimal() {
    assert_eq!(decimal_text(0), "0");
    assert_eq!(decimal_text(9), "9");
    assert_eq!(decimal_text(10), "10");
    assert_eq!(decimal_text(1234567890), "1234567890");
    assert_eq!(decimal_text(usize::MAX), usize::MAX.to_string());
}

#[test]
fn optional_text_is_copied() {
    assert_eq!(copy_text_option(&None), None);
    assert_eq!(copy_text_option(&Some("x".to_string())), Some("x".to_string()));
}
