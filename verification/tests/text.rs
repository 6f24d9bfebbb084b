use boon_data::text::{
    contains_text, fmt_duration, optional_duration, push_decimal, push_signed_decimal, same_text,
};

#[test]
fn durations_are_minutes_and_two_digit_seconds() {
    assert_eq!(fmt_duration(0), "0:00");
    assert_eq!(fmt_duration(5), "0:05");
    assert_eq!(fmt_duration(59), "0:59");
    assert_eq!(fmt_duration(60), "1:00");
    assert_eq!(fmt_duration(125), "2:05");
    assert_eq!(fmt_duration(2258), "37:38");
    assert_eq!(fmt_duration(36000), "600:00");
    assert_eq!(fmt_duration(u32::MAX), format!("{}:{:02}", u32::MAX / 60, u32::MAX % 60));
    assert_eq!(optional_duration(Some(61)), "1:01");
    assert_eq!(optional_duration(None), "-");
}

#[test]
fn decimal_digits() {
    let mut s = String::from("x=");
    push_decimal(&mut s, 0);
    assert_eq!(s, "x=0");
    let mut s = String::new();
    push_decimal(&mut s, u64::MAX);
    assert_eq!(s, u64::MAX.to_string());
    let mut s = String::new();
    push_signed_decimal(&mut s, i64::MIN);
    assert_eq!(s, i64::MIN.to_string());
    let mut s = String::new();
    push_signed_decimal(&mut s, -42);
    assert_eq!(s, "-42");
}

#[test]
fn text_comparison_and_search() {
    assert!(same_text("abc", "abc"));
    assert!(!same_text("abc", "abd"));
    assert!(!same_text("abc", "ab"));
    assert!(contains_text("citadel_weapon", "weapon"));
    assert!(contains_text("abc", ""));
    assert!(!contains_text("ab", "abc"));
    assert!(!contains_text("walker", "tier"));
}

#[test]
fn duration_text_reads_back_as_minutes_and_seconds() {
    for seconds in [0u32, 5, 59, 60, 65, 125, 3599, 3600, 86_399, u32::MAX] {
        let text = fmt_duration(seconds);
        let (m, s) = text.split_once(':').expect("one colon");
        assert_eq!(s.len(), 2);
        let m: u32 = m.parse().expect("minutes");
        let s: u32 = s.parse().expect("seconds");
        assert_eq!(m, seconds / 60);
        assert_eq!(s, seconds % 60);
        assert_eq!(m as u64 * 60 + s as u64, seconds as u64);
    }
    assert_eq!(fmt_duration(65), "1:05");
    assert_eq!(fmt_duration(3600), "60:00");
}
