use cf::chars::{chars_of, find_chars, replace_chars};
use cf::text::{push_decimal, push_i64_decimal, str_equal, str_starts_with};

#[test]
fn decimals_are_written() {
    let mut s = String::from("n=");
    push_decimal(&mut s, 0);
    push_decimal(&mut s, 1234567890);
    assert_eq!(s, "n=01234567890");
    let mut t = String::new();
    push_i64_decimal(&mut t, -42);
    push_i64_decimal(&mut t, i64::MIN);
    assert_eq!(t, format!("-42{}", i64::MIN));
}

#[test]
fn string_comparisons() {
    assert!(str_equal("gzip", "gzip"));
    assert!(!str_equal("gzip", "gzi"));
    assert!(str_starts_with("--fetch", "--"));
    assert!(!str_starts_with("-", "--"));
}

#[test]
fn char_search_and_replace() {
    let hay = chars_of("abcabc");
    assert_eq!(find_chars(&hay, &chars_of("ca"), 0), Some(2));
    assert_eq!(find_chars(&hay, &chars_of("ca"), 3), None);
    let r = replace_chars(&hay, &chars_of("b"), &chars_of("XY"));
    assert_eq!(r.iter().collect::<String>(), "aXYcaXYc");
}
