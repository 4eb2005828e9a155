use kvcounter::counter::{counter_bytes, parse_counter, CounterError};
use kvcounter::KvCounter;

#[test]
fn parses_plain_decimal() {
    assert_eq!(parse_counter(b"42"), Ok(42));
    assert_eq!(parse_counter(b"0"), Ok(0));
    assert_eq!(parse_counter(b"0007"), Ok(7));
    assert_eq!(parse_counter(b"+5"), Ok(5));
    assert_eq!(parse_counter(b"-17"), Ok(-17));
}

#[test]
fn parses_with_surrounding_whitespace() {
    assert_eq!(parse_counter(b" 42\n"), Ok(42));
    assert_eq!(parse_counter(b"\t\r\n-3 \x0b\x0c"), Ok(-3));
    // U+00A0 NO-BREAK SPACE and U+3000 IDEOGRAPHIC SPACE are white space too.
    assert_eq!(parse_counter("\u{a0}12\u{3000}".as_bytes()), Ok(12));
    assert_eq!(parse_counter("\u{2003}9\u{2029}".as_bytes()), Ok(9));
}

#[test]
fn parses_the_bounds_of_i32() {
    assert_eq!(parse_counter(b"2147483647"), Ok(i32::MAX));
    assert_eq!(parse_counter(b"-2147483648"), Ok(i32::MIN));
    assert_eq!(parse_counter(b"00000000002147483647"), Ok(i32::MAX));
}

#[test]
fn rejects_what_is_not_a_number() {
    assert_eq!(parse_counter(b""), Err(CounterError::NotANumber));
    assert_eq!(parse_counter(b"   "), Err(CounterError::NotANumber));
    assert_eq!(parse_counter(b"+"), Err(CounterError::NotANumber));
    assert_eq!(parse_counter(b"-"), Err(CounterError::NotANumber));
    assert_eq!(parse_counter(b"4 2"), Err(CounterError::NotANumber));
    assert_eq!(parse_counter(b"1_000"), Err(CounterError::NotANumber));
    assert_eq!(parse_counter(b"--1"), Err(CounterError::NotANumber));
    assert_eq!(parse_counter(b"0x10"), Err(CounterError::NotANumber));
    assert_eq!(parse_counter(b"2147483648"), Err(CounterError::NotANumber));
    assert_eq!(parse_counter(b"-2147483649"), Err(CounterError::NotANumber));
    assert_eq!(parse_counter(b"99999999999999999999"), Err(CounterError::NotANumber));
    // U+200B ZERO WIDTH SPACE is not white space.
    assert_eq!(parse_counter("\u{200b}1".as_bytes()), Err(CounterError::NotANumber));
}

#[test]
fn rejects_what_is_not_utf8() {
    assert_eq!(parse_counter(b"\xff"), Err(CounterError::NotUtf8));
    assert_eq!(parse_counter(b"12\xc3"), Err(CounterError::NotUtf8));
    assert_eq!(parse_counter(b"\xed\xa0\x80"), Err(CounterError::NotUtf8));
    assert_eq!(parse_counter(b"\xc0\xb1"), Err(CounterError::NotUtf8));
}

#[test]
fn writes_decimal_text() {
    assert_eq!(counter_bytes(0), b"0".to_vec());
    assert_eq!(counter_bytes(7), b"7".to_vec());
    assert_eq!(counter_bytes(10), b"10".to_vec());
    assert_eq!(counter_bytes(-123), b"-123".to_vec());
    assert_eq!(counter_bytes(i32::MAX), b"2147483647".to_vec());
    assert_eq!(counter_bytes(i32::MIN), b"-2147483648".to_vec());
    for v in [0, 1, -1, 9, 10, 99, 100, -100, 65535, i32::MAX, i32::MIN] {
        assert_eq!(counter_bytes(v), v.to_string().into_bytes());
    }
}

#[test]
fn reads_back_what_was_written() {
    for v in [0, 1, -1, 42, -42, 1000, 123456789, i32::MAX, i32::MIN, i32::MIN + 1] {
        assert_eq!(parse_counter(&counter_bytes(v)), Ok(v));
    }
}

#[test]
fn increments_the_stored_value() {
    assert_eq!(KvCounter::increment_counter(b"41", 1), Ok(b"42".to_vec()));
    assert_eq!(KvCounter::increment_counter(b" 5 ", -10), Ok(b"-5".to_vec()));
    assert_eq!(KvCounter::increment_counter(b"-1", 1), Ok(b"0".to_vec()));
    assert_eq!(KvCounter::increment_counter(b"0", 0), Ok(b"0".to_vec()));
    assert_eq!(KvCounter::increment_counter(b"007\n", 1), Ok(b"8".to_vec()));
}

#[test]
fn refuses_increments_that_overflow() {
    assert_eq!(KvCounter::increment_counter(b"2147483647", 1), Err(CounterError::Overflow));
    assert_eq!(KvCounter::increment_counter(b"-2147483648", -1), Err(CounterError::Overflow));
    assert_eq!(KvCounter::increment_counter(b"2147483646", 1), Ok(b"2147483647".to_vec()));
}

#[test]
fn refuses_to_increment_unreadable_values() {
    assert_eq!(KvCounter::increment_counter(b"", 1), Err(CounterError::NotANumber));
    assert_eq!(KvCounter::increment_counter(b"x", 1), Err(CounterError::NotANumber));
    assert_eq!(KvCounter::increment_counter(b"\xff", 1), Err(CounterError::NotUtf8));
}

#[test]
fn increments_read_back_and_compose() {
    let once = KvCounter::increment_counter(b"10", 5).unwrap();
    assert_eq!(parse_counter(&once), Ok(15));
    let twice = KvCounter::increment_counter(&once, -20).unwrap();
    assert_eq!(twice, KvCounter::increment_counter(b"10", -15).unwrap());
    assert_eq!(parse_counter(&twice), Ok(-5));
}
