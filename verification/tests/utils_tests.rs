use bookwriter_core::utils::sanitize_filename;

#[test]
fn it_works() {
    assert_eq!(2 + 2, 4);
}

#[test]
fn test_sanitize_filename() {
    assert_eq!(sanitize_filename("My Book: Chapter 1"), "My Book_ Chapter 1");
    assert_eq!(sanitize_filename("Valid-Name_123.txt"), "Valid-Name_123.txt");
}

#[test]
fn every_reserved_character_becomes_an_underscore() {
    assert_eq!(sanitize_filename("/\\:*?\"<>|"), "_________");
    assert_eq!(sanitize_filename(""), "");
    assert_eq!(sanitize_filename("a/b\\c"), "a_b_c");
    assert_eq!(sanitize_filename("日本語: ü"), "日本語_ ü");
}
