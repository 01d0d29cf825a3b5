use tgin::text::{hide_segment, i64_to_string, parse_i64, parse_u64, str_eq, u64_to_string};

#[test]
fn hide_segment_masks_colon_to_slash() {
    assert_eq!(hide_segment("user:pass/rest"), "user*****/rest");
}

#[test]
fn hide_segment_masks_to_the_end_without_slash() {
    assert_eq!(hide_segment("bot:123456"), "bot*******");
}

#[test]
fn hide_segment_leaves_plain_text_alone() {
    assert_eq!(hide_segment("nothing-to-hide"), "nothing-to-hide");
}

#[test]
fn hide_segment_takes_the_first_colon() {
    assert_eq!(hide_segment("https://host/a:b"), "https*//host/a:b");
}

#[test]
fn decimal_rendering() {
    assert_eq!(u64_to_string(0), "0");
    assert_eq!(u64_to_string(90210), "90210");
    assert_eq!(u64_to_string(u64::MAX), "18446744073709551615");
    assert_eq!(i64_to_string(-1), "-1");
    assert_eq!(i64_to_string(i64::MIN), "-9223372036854775808");
    assert_eq!(i64_to_string(7), "7");
}

#[test]
fn decimal_parsing_bounds() {
    let digits = |s: &str| s.chars().collect::<Vec<char>>();
    assert_eq!(parse_u64(&digits("0")), Some(0));
    assert_eq!(parse_u64(&digits("18446744073709551615")), Some(u64::MAX));
    assert_eq!(parse_u64(&digits("18446744073709551616")), None);
    assert_eq!(parse_u64(&digits("")), None);
    assert_eq!(parse_u64(&digits("12x")), None);
}

#[test]
fn signed_parsing_extremes() {
    let digits = |s: &str| s.chars().collect::<Vec<char>>();
    assert_eq!(parse_i64(&digits("-9223372036854775808")), Some(i64::MIN));
    assert_eq!(parse_i64(&digits("-9223372036854775809")), None);
    assert_eq!(parse_i64(&digits("9223372036854775807")), Some(i64::MAX));
    assert_eq!(parse_i64(&digits("9223372036854775808")), None);
    assert_eq!(parse_i64(&digits("-")), None);
    assert_eq!(parse_i64(&digits("0")), Some(0));
}

#[test]
fn str_eq_compares_characters() {
    assert!(str_eq("abc", "abc"));
    assert!(!str_eq("abc", "abd"));
    assert!(!str_eq("abc", "ab"));
    assert!(str_eq("", ""));
}
