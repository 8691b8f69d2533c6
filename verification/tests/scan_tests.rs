use angolmois::ratio::Ratio;
use angolmois::scan::{
    from_str_prefix, prefix_shifted, read_decimal, read_int, read_uint, scan_float, scan_int,
    scan_uint, trim_left, trim_right,
};

fn r(n: i64, d: i64) -> Ratio {
    Ratio::new(n, d).unwrap()
}

#[test]
fn scan_uint_wants_a_digit() {
    assert_eq!(scan_uint(b"123abc", 0), Some(3));
    assert_eq!(scan_uint(b"123", 0), Some(3));
    assert_eq!(scan_uint(b"abc", 0), None);
    assert_eq!(scan_uint(b"", 0), None);
    assert_eq!(scan_uint(b"ab12", 2), Some(4));
    assert_eq!(scan_uint(b"-1", 0), None);
}

#[test]
fn scan_int_takes_a_sign() {
    assert_eq!(scan_int(b"-12x", 0), Some(3));
    assert_eq!(scan_int(b"+12x", 0), Some(3));
    assert_eq!(scan_int(b"12x", 0), Some(2));
    assert_eq!(scan_int(b"-x", 0), None);
    assert_eq!(scan_int(b"+", 0), None);
    assert_eq!(scan_int(b"--1", 0), None);
}

#[test]
fn scan_float_takes_point_and_exponent() {
    assert_eq!(scan_float(b"1.5 ", 0), Some(3));
    assert_eq!(scan_float(b"1.5e3,", 0), Some(5));
    assert_eq!(scan_float(b"1.5E-3,", 0), Some(6));
    assert_eq!(scan_float(b"-10", 0), Some(3));
    // a point or an exponent without what must follow spoils the number
    assert_eq!(scan_float(b"1.", 0), None);
    assert_eq!(scan_float(b"1.x", 0), None);
    assert_eq!(scan_float(b"1e", 0), None);
    assert_eq!(scan_float(b"1e+", 0), None);
    assert_eq!(scan_float(b".5", 0), None);
    assert_eq!(scan_float(b"", 0), None);
}

#[test]
fn read_numbers() {
    assert_eq!(read_uint(b"0042.", 0), Some((42, 4)));
    assert_eq!(read_uint(b"18446744073709551615", 0), Some((u64::MAX, 20)));
    assert_eq!(read_uint(b"18446744073709551616", 0), None);
    assert_eq!(read_int(b"-9223372036854775808", 0), Some((i64::MIN, 20)));
    assert_eq!(read_int(b"9223372036854775807", 0), Some((i64::MAX, 19)));
    assert_eq!(read_int(b"9223372036854775808", 0), None);
    assert_eq!(read_int(b"-9223372036854775809", 0), None);
    assert_eq!(read_int(b"+7 ", 0), Some((7, 2)));
    assert_eq!(read_int(b"x7", 0), None);
}

#[test]
fn read_decimals() {
    assert_eq!(read_decimal(b"0.75", 0), Some((r(3, 4), 4)));
    assert_eq!(read_decimal(b"120", 0), Some((r(120, 1), 3)));
    assert_eq!(read_decimal(b"-1.25x", 0), Some((r(-5, 4), 5)));
    assert_eq!(read_decimal(b"1.5e2", 0), Some((r(150, 1), 5)));
    assert_eq!(read_decimal(b"15e-1", 0), Some((r(3, 2), 5)));
    assert_eq!(read_decimal(b"+0.001", 0), Some((r(1, 1000), 6)));
    assert_eq!(read_decimal(b"0.000", 0), Some((r(0, 1), 5)));
    assert_eq!(read_decimal(b"1.", 0), None);
    assert_eq!(read_decimal(b"abc", 0), None);
    // more than 18 places, or an exponent beyond 18, is not read
    assert_eq!(read_decimal(b"0.0000000000000000001", 0), None);
    assert_eq!(read_decimal(b"1e19", 0), None);
    assert_eq!(read_decimal(b"1e-19", 0), None);
    assert_eq!(read_decimal(b"0.000000000000000001", 0), Some((r(1, 1_000_000_000_000_000_000), 20)));
    assert_eq!(read_decimal(b"1e18", 0), Some((r(1_000_000_000_000_000_000, 1), 4)));
    assert_eq!(read_decimal(b"10e18", 0), None);
}

#[test]
fn trimming() {
    assert_eq!(trim_left(b"  \t x ", 0), 4);
    assert_eq!(trim_left(b"x", 0), 0);
    assert_eq!(trim_left(b"   ", 1), 3);
    assert_eq!(trim_right(b" x  \r", 0), 2);
    assert_eq!(trim_right(b"    ", 2), 2);
    assert_eq!(trim_right(b"", 0), 0);
}

#[test]
fn prefixes() {
    assert_eq!(from_str_prefix::<i64>(b"-5 rest", 0), Some((-5, 2)));
    assert_eq!(from_str_prefix::<u64>(b"-5 rest", 0), None);
    assert_eq!(from_str_prefix::<u8>(b"xy", 1), Some((b'y', 2)));
    assert_eq!(from_str_prefix::<u8>(b"xy", 2), None);
    assert_eq!(from_str_prefix::<Ratio>(b"2.5", 0), Some((r(5, 2), 3)));
    assert_eq!(prefix_shifted(b"a:b", 1, b':'), Some(2));
    assert_eq!(prefix_shifted(b"a:b", 0, b':'), None);
    assert_eq!(prefix_shifted(b"hello", 1, &b"ell"[..]), Some(4));
    assert_eq!(prefix_shifted(b"hello", 3, &b"low"[..]), None);
    assert_eq!(prefix_shifted(b"hello", 5, &b""[..]), Some(5));
}
