use tracing_tool::graph::decimal::{read_digits, read_i32, read_timestamp, read_u32, Timestamp};
use tracing_tool::graph::text::{
    char_is_space, drop_brackets, key_length, last_position, same_text, split_line, starts_with,
    str_chars,
};

fn chars(s: &str) -> Vec<char> {
    s.chars().collect()
}

fn u32_of(s: &str) -> Option<u32> {
    read_u32(&chars(s), 0)
}

fn i32_of(s: &str) -> Option<i32> {
    read_i32(&chars(s), 0)
}

fn time_of(s: &str) -> Option<Timestamp> {
    let c = chars(s);
    read_timestamp(&c, 0, c.len())
}

#[test]
fn unsigned_numbers_read_as_the_standard_library_reads_them() {
    for text in [
        "0", "7", "007", "+5", "4294967295", "4294967296", "99999999999999999999999999", "", "+",
        "-0", "-1", "1a", "a1", " 1", "1 ", "1_000", "++1", "+-1", "٣", "0x10", "1e3",
    ] {
        assert_eq!(u32_of(text), text.parse::<u32>().ok(), "{:?}", text);
    }
    assert_eq!(u32_of("4294967295"), Some(u32::MAX));
    assert_eq!(u32_of("0042"), Some(42));
}

#[test]
fn signed_numbers_read_as_the_standard_library_reads_them() {
    for text in [
        "0", "-0", "+0", "7", "-7", "+7", "2147483647", "2147483648", "-2147483648", "-2147483649",
        "", "+", "-", "--1", "-+1", "1-", "- 1", "-99999999999999999999", "-1a",
    ] {
        assert_eq!(i32_of(text), text.parse::<i32>().ok(), "{:?}", text);
    }
    assert_eq!(i32_of("-2147483648"), Some(i32::MIN));
    assert_eq!(i32_of("-1"), Some(-1));
}

#[test]
fn numbers_are_read_from_an_offset() {
    assert_eq!(read_u32(&chars("pid=42"), 4), Some(42));
    assert_eq!(read_u32(&chars("pid=42"), 6), None);
    assert_eq!(read_u32(&chars("pid=42"), 7), None);
    assert_eq!(read_u32(&chars("pid=42"), usize::MAX), None);
    assert_eq!(read_i32(&chars("cpu=-3"), 4), Some(-3));
    assert_eq!(read_i32(&chars("cpu=-3"), 6), None);
    assert_eq!(read_i32(&chars("cpu=-3"), 7), None);
}

#[test]
fn digits_are_read_up_to_a_limit() {
    assert_eq!(read_digits(&chars("x123y"), 1, 4, 123), Some(123));
    assert_eq!(read_digits(&chars("x123y"), 1, 4, 122), None);
    assert_eq!(read_digits(&chars("x123y"), 1, 5, 1000), None);
    assert_eq!(read_digits(&chars("x123y"), 2, 2, 0), Some(0));
    assert_eq!(read_digits(&chars("18446744073709551615"), 0, 20, u64::MAX), Some(u64::MAX));
    assert_eq!(read_digits(&chars("18446744073709551616"), 0, 20, u64::MAX), None);
    assert_eq!(read_digits(&chars("123"), 2, 1, 1000), None);
    assert_eq!(read_digits(&chars("123"), 0, 4, 1000), None);
}

#[test]
fn timestamps_are_seconds_and_nanoseconds() {
    assert_eq!(time_of("10.500000"), Some(Timestamp { seconds: 10, nanos: 500_000_000 }));
    assert_eq!(time_of("1234.567891"), Some(Timestamp { seconds: 1234, nanos: 567_891_000 }));
    assert_eq!(time_of("0.000000001"), Some(Timestamp { seconds: 0, nanos: 1 }));
    assert_eq!(time_of("0.0000000019"), Some(Timestamp { seconds: 0, nanos: 1 }));
    assert_eq!(time_of("0.999999999999"), Some(Timestamp { seconds: 0, nanos: 999_999_999 }));
    assert_eq!(time_of("42"), Some(Timestamp { seconds: 42, nanos: 0 }));
    assert_eq!(time_of("42."), Some(Timestamp { seconds: 42, nanos: 0 }));
    assert_eq!(time_of(".5"), Some(Timestamp { seconds: 0, nanos: 500_000_000 }));
    assert_eq!(time_of("007.25"), Some(Timestamp { seconds: 7, nanos: 250_000_000 }));
    assert_eq!(
        time_of("18446744073709551615.1"),
        Some(Timestamp { seconds: u64::MAX, nanos: 100_000_000 })
    );
}

#[test]
fn malformed_timestamps_are_refused() {
    for text in ["", ".", "1.2.3", "-1.0", "+1.0", "1e5", "inf", "NaN", "1.5s", "1,5", " 1.5",
        "18446744073709551616.0", "1.-5"]
    {
        assert_eq!(time_of(text), None, "{:?}", text);
    }
}

#[test]
fn timestamp_is_read_between_positions() {
    let c = chars("[10.5:]");
    assert_eq!(read_timestamp(&c, 1, 5), Some(Timestamp { seconds: 10, nanos: 500_000_000 }));
    assert_eq!(read_timestamp(&c, 1, 6), None);
    assert_eq!(read_timestamp(&c, 3, 3), None);
    assert_eq!(read_timestamp(&c, 5, 1), None);
    assert_eq!(read_timestamp(&c, 1, 8), None);
}

#[test]
fn lines_split_as_the_standard_library_splits_them() {
    for line in [
        "",
        " ",
        "a",
        "a b",
        "  a   b  ",
        "\ta\tb\n",
        "bash-1234 [003] 5.000001: sched_switch: bash:1234 [120] S ==> sleep:5678 [120]",
        "a\u{a0}b\u{2003}c\u{3000}d\u{85}e\u{1680}f\u{2028}g\u{2029}h\u{202f}i\u{205f}j",
        "x\u{200b}y\u{feff}z",
        "é ü\u{b}ß\u{c}ø\r",
    ] {
        let expected: Vec<&str> = line.split_whitespace().collect();
        assert_eq!(split_line(line), expected, "{:?}", line);
    }
}

#[test]
fn white_space_is_what_the_standard_library_says() {
    for code in 0..=0x11_0000u32 {
        if let Some(c) = char::from_u32(code) {
            assert_eq!(char_is_space(c), c.is_whitespace(), "{:?}", c);
        }
    }
}

#[test]
fn text_helpers() {
    assert_eq!(str_chars("aé"), vec!['a', 'é']);
    assert!(starts_with(&chars("pid=3"), "pid="));
    assert!(starts_with(&chars("pid="), "pid="));
    assert!(starts_with(&chars("x"), ""));
    assert!(!starts_with(&chars("pid"), "pid="));
    assert!(!starts_with(&chars("xpid=3"), "pid="));
    assert_eq!(key_length(&chars("pid=3"), "pid="), 4);
    assert_eq!(key_length(&chars("3"), "pid="), 0);
    assert_eq!(key_length(&chars("é=3"), "é="), 2);
    assert!(same_text(&chars("sched_switch"), "sched_switch"));
    assert!(!same_text(&chars("sched_switch"), "sched_switc"));
    assert!(!same_text(&chars("sched_switc"), "sched_switch"));
    assert!(same_text(&chars(""), ""));
    assert_eq!(last_position(&chars("a-b-c"), '-'), Some(3));
    assert_eq!(last_position(&chars("abc"), '-'), None);
    assert_eq!(last_position(&chars("-"), '-'), Some(0));
    assert_eq!(drop_brackets(&chars("[0[1]2]")), chars("012"));
    assert_eq!(drop_brackets(&chars("[]")), chars(""));
}
