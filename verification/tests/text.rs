use elements_ember::text::{decimal_string, sort_lines, str_equal, str_le};

#[test]
fn numbers_are_written_in_decimal() {
    assert_eq!(decimal_string(0), "0");
    assert_eq!(decimal_string(7), "7");
    assert_eq!(decimal_string(1000), "1000");
    assert_eq!(decimal_string(u64::MAX), u64::MAX.to_string());
}

#[test]
fn lines_sort_as_strings_do() {
    let lines: Vec<String> = ["b", "a: 2", "a", "a: 1", "é", "z"].iter().map(|s| s.to_string()).collect();
    let mut expect = lines.clone();
    expect.sort();
    assert_eq!(sort_lines(lines), expect);
    assert!(str_le("abc", "abd"));
    assert!(str_le("ab", "abc"));
    assert!(!str_le("b", "abc"));
    assert!(str_equal("x", "x"));
    assert!(!str_equal("x", "y"));
}
