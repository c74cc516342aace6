use matchmaker::settings::{ParseI64, ParseU32, ParseU64};

const TEXTS: [&str; 22] = [
    "12", "+7", "-1", "", "+", "-", "4294967295", "4294967296", " 5", "5 ", "5a", "007", "-0", "+-3",
    "18446744073709551615", "18446744073709551616", "-9223372036854775808", "-9223372036854775809",
    "9223372036854775807", "9223372036854775808", "99999999999999999999999999999999999999999", "１",
];

#[test]
fn integers_are_read_as_the_standard_library_reads_them() {
    for text in TEXTS {
        assert_eq!(ParseU32(text), text.parse::<u32>().ok(), "u32 {:?}", text);
        assert_eq!(ParseU64(text), text.parse::<u64>().ok(), "u64 {:?}", text);
        assert_eq!(ParseI64(text), text.parse::<i64>().ok(), "i64 {:?}", text);
    }
}

#[test]
fn setting_values() {
    assert_eq!(ParseU32("12"), Some(12));
    assert_eq!(ParseU32("+7"), Some(7));
    assert_eq!(ParseU32("-1"), None);
    assert_eq!(ParseU32("4294967296"), None);
    assert_eq!(ParseU64("18446744073709551615"), Some(u64::MAX));
    assert_eq!(ParseI64("-9223372036854775808"), Some(i64::MIN));
    assert_eq!(ParseI64("-30"), Some(-30));
    assert_eq!(ParseI64("3O"), None);
}
