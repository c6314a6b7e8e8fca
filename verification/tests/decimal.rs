use psutil::decimal::{
    digit_for, digit_of, parse_digits, parse_digits_wrapping, parse_i32, parse_i64, parse_u32,
    parse_u64, parse_u64_wrapping, push_decimal,
};

fn chars(s: &str) -> Vec<char> {
    s.chars().collect()
}

fn written(n: i64) -> String {
    let mut out = Vec::new();
    push_decimal(&mut out, n);
    out.into_iter().collect()
}

#[test]
fn digits_have_their_values() {
    assert_eq!(digit_of('0'), Some(0));
    assert_eq!(digit_of('7'), Some(7));
    assert_eq!(digit_of('9'), Some(9));
    assert_eq!(digit_of('/'), None);
    assert_eq!(digit_of(':'), None);
    assert_eq!(digit_of('a'), None);
    for d in 0..10u8 {
        assert_eq!(digit_of(digit_for(d)), Some(d));
    }
}

#[test]
fn runs_of_digits() {
    assert_eq!(parse_digits(&chars("0"), 10), Some(0));
    assert_eq!(parse_digits(&chars("10"), 10), Some(10));
    assert_eq!(parse_digits(&chars("11"), 10), None);
    assert_eq!(parse_digits(&chars("0010"), 10), Some(10));
    assert_eq!(parse_digits(&chars(""), 10), None);
    assert_eq!(parse_digits(&chars("+1"), 10), None);
    assert_eq!(parse_digits(&chars("1x"), 10), None);
    assert_eq!(parse_digits(&chars("99x"), 10), None);
}

#[test]
fn unsigned_numbers() {
    assert_eq!(parse_u64(&chars("0")), Some(0));
    assert_eq!(parse_u64(&chars("250")), Some(250));
    assert_eq!(parse_u64(&chars("+250")), Some(250));
    assert_eq!(parse_u64(&chars("007")), Some(7));
    assert_eq!(parse_u64(&chars("18446744073709551615")), Some(u64::MAX));
    assert_eq!(parse_u64(&chars("18446744073709551616")), None);
    assert_eq!(parse_u64(&chars("99999999999999999999")), None);
    assert_eq!(parse_u64(&chars("")), None);
    assert_eq!(parse_u64(&chars("+")), None);
    assert_eq!(parse_u64(&chars("-1")), None);
    assert_eq!(parse_u64(&chars("-0")), None);
    assert_eq!(parse_u64(&chars("1 ")), None);
    assert_eq!(parse_u64(&chars(" 1")), None);
    assert_eq!(parse_u64(&chars("1\n")), None);
    assert_eq!(parse_u64(&chars("++1")), None);
    assert_eq!(parse_u64(&chars("12a")), None);
    assert_eq!(parse_u32(&chars("4294967295")), Some(u32::MAX));
    assert_eq!(parse_u32(&chars("4294967296")), None);
    assert_eq!(parse_u32(&chars("+0")), Some(0));
    assert_eq!(parse_u32(&chars("-0")), None);
}

#[test]
fn signed_numbers() {
    assert_eq!(parse_i64(&chars("0")), Some(0));
    assert_eq!(parse_i64(&chars("-0")), Some(0));
    assert_eq!(parse_i64(&chars("+17")), Some(17));
    assert_eq!(parse_i64(&chars("-17")), Some(-17));
    assert_eq!(parse_i64(&chars("9223372036854775807")), Some(i64::MAX));
    assert_eq!(parse_i64(&chars("9223372036854775808")), None);
    assert_eq!(parse_i64(&chars("-9223372036854775808")), Some(i64::MIN));
    assert_eq!(parse_i64(&chars("-9223372036854775809")), None);
    assert_eq!(parse_i64(&chars("-")), None);
    assert_eq!(parse_i64(&chars("+")), None);
    assert_eq!(parse_i64(&chars("")), None);
    assert_eq!(parse_i64(&chars("+-1")), None);
    assert_eq!(parse_i64(&chars("--1")), None);
    assert_eq!(parse_i64(&chars("-1-")), None);
    assert_eq!(parse_i32(&chars("2147483647")), Some(i32::MAX));
    assert_eq!(parse_i32(&chars("2147483648")), None);
    assert_eq!(parse_i32(&chars("-2147483648")), Some(i32::MIN));
    assert_eq!(parse_i32(&chars("-2147483649")), None);
    assert_eq!(parse_i32(&chars("-99999999999999999999")), None);
    assert_eq!(parse_i32(&chars("12x")), None);
}

#[test]
fn numbers_cut_to_64_bits() {
    assert_eq!(parse_u64_wrapping(&chars("0")), Some(0));
    assert_eq!(parse_u64_wrapping(&chars("+12")), Some(12));
    assert_eq!(parse_u64_wrapping(&chars("18446744073709551615")), Some(u64::MAX));
    assert_eq!(parse_u64_wrapping(&chars("18446744073709551616")), Some(0));
    assert_eq!(parse_u64_wrapping(&chars("18446744073709551617")), Some(1));
    assert_eq!(
        parse_u64_wrapping(&chars("99999999999999999999")),
        Some(7766279631452241919)
    );
    assert_eq!(parse_u64_wrapping(&chars("")), None);
    assert_eq!(parse_u64_wrapping(&chars("-1")), None);
    assert_eq!(parse_u64_wrapping(&chars("1e3")), None);
    assert_eq!(parse_digits_wrapping(&chars("+1")), None);
    assert_eq!(parse_digits_wrapping(&chars("36893488147419103232")), Some(0));
}

#[test]
fn numbers_are_written_as_they_are_read() {
    assert_eq!(written(0), "0");
    assert_eq!(written(7), "7");
    assert_eq!(written(10), "10");
    assert_eq!(written(1234), "1234");
    assert_eq!(written(-1), "-1");
    assert_eq!(written(-2147483648), "-2147483648");
    assert_eq!(written(i64::MAX), "9223372036854775807");
    assert_eq!(written(i64::MIN), "-9223372036854775808");
    for n in [0i64, 1, 9, 10, 99, 100, 4096, -1, -10, -4096, i64::MAX, i64::MIN] {
        assert_eq!(parse_i64(&chars(&written(n))), Some(n));
        assert_eq!(written(n), n.to_string());
    }
}

#[test]
fn writing_appends() {
    let mut out = vec!['x', '='];
    push_decimal(&mut out, -305);
    assert_eq!(out, vec!['x', '=', '-', '3', '0', '5']);
}
