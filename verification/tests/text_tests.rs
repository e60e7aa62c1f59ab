use minishell::text::{pad_left, pad_right, str_eq, str_lex_le, u64_to_dec};

#[test]
fn numbers_render_in_decimal() {
    assert_eq!(u64_to_dec(0), "0");
    assert_eq!(u64_to_dec(7), "7");
    assert_eq!(u64_to_dec(10), "10");
    assert_eq!(u64_to_dec(4096), "4096");
    assert_eq!(u64_to_dec(u64::MAX), "18446744073709551615");
}

#[test]
fn left_padding_right_aligns() {
    assert_eq!(pad_left("7".to_string(), 5), "    7");
    assert_eq!(pad_left("12345".to_string(), 5), "12345");
    assert_eq!(pad_left("123456".to_string(), 5), "123456");
}

#[test]
fn right_padding_left_aligns() {
    assert_eq!(pad_right("ab".to_string(), 4), "ab  ");
    assert_eq!(pad_right("abcd".to_string(), 4), "abcd");
    assert_eq!(pad_right("abcde".to_string(), 4), "abcde");
}

#[test]
fn string_equality_is_by_characters() {
    assert!(str_eq("abc", "abc"));
    assert!(!str_eq("abc", "abd"));
    assert!(!str_eq("abc", "ab"));
    assert!(str_eq("", ""));
}

#[test]
fn lexicographic_order_is_by_scalar_value() {
    assert!(str_lex_le("a", "b"));
    assert!(!str_lex_le("b", "a"));
    assert!(str_lex_le("a", "ab"));
    assert!(!str_lex_le("ab", "a"));
    assert!(str_lex_le("", "a"));
    assert!(str_lex_le("abc", "abc"));
    // Uppercase sorts before lowercase.
    assert!(str_lex_le("Z", "a"));
}
