use nba::text::{
    align_left, align_right, eq_ignore_ascii_case, first_word_of, int_to_decimal, repeat_str,
    spaces_str, starts_with, to_ascii_uppercase, trim,
};

#[test]
fn trim_removes_both_ends() {
    assert_eq!(trim("  Final \t\n"), "Final");
    assert_eq!(trim("\u{3000}7:30 pm ET\u{a0}"), "7:30 pm ET");
    assert_eq!(trim("   "), "");
    assert_eq!(trim(""), "");
    assert_eq!(trim("Q3 5:12"), "Q3 5:12");
}

#[test]
fn decimal_matches_display() {
    assert_eq!(int_to_decimal(0), "0");
    assert_eq!(int_to_decimal(7), "7");
    assert_eq!(int_to_decimal(101), "101");
    assert_eq!(int_to_decimal(-42), "-42");
    assert_eq!(int_to_decimal(i32::MIN), i32::MIN.to_string());
    assert_eq!(int_to_decimal(i32::MAX), i32::MAX.to_string());
}

#[test]
fn alignment_pads_to_width() {
    assert_eq!(align_right("88", 3), " 88");
    assert_eq!(align_right("1234", 3), "1234");
    assert_eq!(align_left("LA", 3), "LA ");
    assert_eq!(align_left("MIA", 3), "MIA");
}

#[test]
fn repeat_and_spaces() {
    assert_eq!(repeat_str("ab", 3), "ababab");
    assert_eq!(repeat_str("\u{2500}", 2), "\u{2500}\u{2500}");
    assert_eq!(repeat_str("x", 0), "");
    assert_eq!(spaces_str(4), "    ");
}

#[test]
fn prefix_test() {
    assert!(starts_with("10/22/2024 00:00:00", "10/22/2024"));
    assert!(!starts_with("10/23/2024 00:00:00", "10/22/2024"));
    assert!(!starts_with("10/22", "10/22/2024"));
    assert!(starts_with("abc", ""));
}

#[test]
fn ascii_case() {
    assert!(eq_ignore_ascii_case("mia", "MIA"));
    assert!(eq_ignore_ascii_case("MiA", "mIa"));
    assert!(!eq_ignore_ascii_case("MIA", "MIL"));
    assert!(!eq_ignore_ascii_case("MIA", "MIAM"));
    assert_eq!(to_ascii_uppercase("lal"), "LAL");
    assert_eq!(to_ascii_uppercase("Bos-é"), "BOS-é");
}

#[test]
fn first_word_is_text_before_space() {
    assert_eq!(first_word_of("10/22/2024 00:00:00"), "10/22/2024");
    assert_eq!(first_word_of("10/22/2024"), "10/22/2024");
    assert_eq!(first_word_of(" x"), "");
    assert_eq!(first_word_of(""), "");
}
