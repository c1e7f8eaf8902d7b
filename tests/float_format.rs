use wof::utils::float_format::trailing_zeros as zeros;
use wof::utils::FloatFormat;

fn parts(x: f64) -> (bool, u64, i16) {
    json::number::Number::from(x).as_parts()
}

fn value(p: (bool, u64, i16)) -> f64 {
    json::number::Number::from_parts(p.0, p.1, p.2).into()
}

#[test]
pub fn num_parts_force() {
    assert_eq!((true, 0, 0).fmt_with_decimal(true), "0.0");
    assert_eq!((true, 123456, -3).fmt_with_decimal(true), "123.456");
    assert_eq!((false, 987654, -3).fmt_with_decimal(true), "-987.654");
    assert_eq!((true, 1, -8).fmt_with_decimal(true), "0.00000001");
    assert_eq!((false, 1, -8).fmt_with_decimal(true), "-0.00000001");
    assert_eq!((true, 1, 2).fmt_with_decimal(true), "100.0");
}

#[test]
pub fn num_parts() {
    assert_eq!((true, 0, 0).fmt_with_decimal(false), "0");
    assert_eq!((true, 123456, -3).fmt_with_decimal(false), "123.456");
    assert_eq!((false, 987654, -3).fmt_with_decimal(false), "-987.654");
    assert_eq!((true, 1, -8).fmt_with_decimal(false), "0.00000001");
    assert_eq!((false, 1, -8).fmt_with_decimal(false), "-0.00000001");
    assert_eq!((true, 1, 2).fmt_with_decimal(false), "100");
}

#[test]
pub fn f64_force() {
    assert_eq!(parts(0.0).fmt_with_decimal(true), "0.0");
    assert_eq!(parts(123.456).fmt_with_decimal(true), "123.456");
    assert_eq!(parts(-987.654).fmt_with_decimal(true), "-987.654");
    assert_eq!(parts(0.00000001).fmt_with_decimal(true), "0.00000001");
    assert_eq!(parts(-0.00000001).fmt_with_decimal(true), "-0.00000001");
    assert_eq!(parts(100.0).fmt_with_decimal(true), "100.0");
}

#[test]
pub fn f64() {
    assert_eq!(parts(0.0).fmt_with_decimal(false), "0");
    assert_eq!(parts(123.456).fmt_with_decimal(false), "123.456");
    assert_eq!(parts(-987.654).fmt_with_decimal(false), "-987.654");
    assert_eq!(parts(0.00000001).fmt_with_decimal(false), "0.00000001");
    assert_eq!(parts(-0.00000001).fmt_with_decimal(false), "-0.00000001");
    assert_eq!(parts(100.0).fmt_with_decimal(false), "100");
}

#[test]
pub fn trailing_zeros() {
    assert_eq!(zeros(0), String::from(""));
    assert_eq!(zeros(1), String::from("0"));
    assert_eq!(zeros(10), String::from("0000000000"));
    assert_eq!(zeros(-10), String::from(""));
}

#[test]
pub fn parts_with_precision() {
    assert_eq!((true, 0, 0).with_precision(6), (true, 0, 0));
    assert_eq!((true, 123456, -3).with_precision(6), (true, 123456, -3));
    assert_eq!((false, 987654, -3).with_precision(6), (false, 987654, -3));
    assert_eq!((true, 1, -8).with_precision(6), (true, 0, 0));
    assert_eq!((false, 1, -8).with_precision(8), (false, 1, -8));
    assert_eq!((false, 1, -8).with_precision(6), (true, 0, 0));
    assert_eq!((true, 1, 2).with_precision(6), (true, 1, 2));
    assert_eq!((true, 12345, -8).with_precision(6), (true, 123, -6));
    assert_eq!((true, 12345, -7).with_precision(6), (true, 1235, -6));
}

#[test]
pub fn f64_with_precision() {
    assert_eq!(value(parts(0.0).with_precision(6)), 0.0);
    assert_eq!(value(parts(123.456).with_precision(6)), 123.456);
    assert_eq!(value(parts(-987.654).with_precision(6)), -987.654);
    assert_eq!(value(parts(0.00000001).with_precision(6)), 0.0);
    assert_eq!(value(parts(-0.00000001).with_precision(8)), -0.00000001);
    assert_eq!(value(parts(-0.00000001).with_precision(6)), 0.0);
    assert_eq!(value(parts(100.0).with_precision(6)), 100.0);
    assert_eq!(value(parts(0.00012345).with_precision(6)), 0.000123);
    assert_eq!(value(parts(0.0012345).with_precision(6)), 0.001235);
}

#[test]
fn forced_and_plain_hundred_and_clamped_fraction() {
    assert_eq!((true, 100, 0).fmt_with_decimal(true), "100.0");
    assert_eq!((true, 100, 0).fmt_with_decimal(false), "100");
    let clamped = (true, 12345, -8).with_precision(6);
    assert_eq!(clamped.fmt_with_decimal(false), "0.000123");
}

#[test]
fn rounding_is_half_away_from_zero() {
    assert_eq!((false, 15, -7).with_precision(6), (false, 2, -6));
    assert_eq!((true, 14, -7).with_precision(6), (true, 1, -6));
    assert_eq!((true, 5, -30).with_precision(6), (true, 0, 0));
    assert_eq!((true, 100, -2).fmt_with_decimal(false), "1.00");
    assert_eq!((true, 0, 3).fmt_with_decimal(true), "0.0");
    assert_eq!((true, 7, 20).fmt_with_decimal(false), "700000000000000000000");
}
