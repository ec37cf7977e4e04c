use netai_cloud::text::{compare_text, write_decimal, KeyCmp};

#[test]
fn compare_text_is_lexicographic() {
    assert!(matches!(compare_text("abc", "abd"), KeyCmp::Less));
    assert!(matches!(compare_text("ab", "abc"), KeyCmp::Less));
    assert!(matches!(compare_text("b", "abc"), KeyCmp::Greater));
    assert!(matches!(compare_text("", ""), KeyCmp::Equal));
    assert!(matches!(compare_text("é", "z"), KeyCmp::Greater));
}

#[test]
fn decimal_rendering() {
    let mut s = String::from("x");
    write_decimal(&mut s, 0);
    write_decimal(&mut s, 1024);
    write_decimal(&mut s, u128::MAX);
    assert_eq!(s, format!("x01024{}", u128::MAX));
}
