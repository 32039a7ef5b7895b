//! Value-level canonicalization and encoding behavior.

use unf::canon::{canonical_float_cell, canonical_int, canonical_text_cell};
use unf::encode::encode_chars;
use unf::{Decimal, FloatCell};

fn float_cell(x: f64) -> FloatCell {
    if x.is_nan() {
        return FloatCell::NotANumber;
    }
    let s = format!("{:e}", x.abs());
    let (mant, exp) = s.split_once('e').unwrap();
    let exponent: i32 = exp.parse().unwrap();
    let digits: Vec<u8> = mant.bytes().filter(|b| *b != b'.').map(|b| b - b'0').collect();
    FloatCell::Finite(Decimal { negative: x.is_sign_negative(), digits, exponent })
}

fn canon_float(x: f64, digits: u32) -> String {
    canonical_float_cell(&float_cell(x), digits).into_iter().collect()
}

fn canon_int(negative: bool, magnitude: u64) -> String {
    canonical_int(negative, magnitude).into_iter().collect()
}

#[test]
fn rounds_to_significant_digits() {
    assert_eq!(canon_float(0.107352613238618, 7), "+1.073526e-1");
}

#[test]
fn rounds_large_float_with_correct_exponent() {
    // 2^52: seven significant digits, trailing zeros dropped.
    assert_eq!(canon_float(4503599627370496.0, 7), "+4.5036e+15");
}

#[test]
fn rounds_half_away_from_zero() {
    assert_eq!(canon_float(0.15, 1), "+2.e-1");
    assert_eq!(canon_float(-0.15, 1), "-2.e-1");
    assert_eq!(canon_float(9.996, 3), "+1.e+1");
}

#[test]
fn simple_floats() {
    assert_eq!(canon_float(1.0, 7), "+1.e+");
    assert_eq!(canon_float(-2.5, 7), "-2.5e+");
    assert_eq!(canon_float(0.0, 7), "+0.e+");
    assert_eq!(canon_float(10.0, 7), "+1.e+1");
    assert_eq!(canon_float(3.1415926535, 7), "+3.141593e+");
}

#[test]
fn null_float_is_nan_sentinel() {
    let missing: String = canonical_float_cell(&FloatCell::Missing, 7).into_iter().collect();
    assert_eq!(missing, "+nan");
    assert_eq!(canon_float(f64::NAN, 7), "+nan");
}

#[test]
fn null_text_is_empty_string() {
    let missing: String = canonical_text_cell(&None).into_iter().collect();
    assert_eq!(missing, "");
    let present: String = canonical_text_cell(&Some("abc".to_string())).into_iter().collect();
    assert_eq!(present, "abc");
}

#[test]
fn integers_render_exactly() {
    assert_eq!(canon_int(false, 0), "+0.e+");
    assert_eq!(canon_int(false, 1), "+1.e+");
    assert_eq!(canon_int(true, 5), "-5.e+");
    assert_eq!(canon_int(false, 120), "+1.2e+2");
    assert_eq!(canon_int(false, 12345), "+1.2345e+4");
    assert_eq!(canon_int(false, u64::MAX), "+1.8446744073709551615e+19");
    assert_eq!(canon_int(true, 9223372036854775808), "-9.223372036854775808e+18");
}

#[test]
fn encode_appends_terminator() {
    let chars: Vec<char> = "+1.e+1".chars().collect();
    let bytes = encode_chars(&chars, 128);
    assert_eq!(bytes, vec![b'+', b'1', b'.', b'e', b'+', b'1', 0x0A, 0x00]);
}

#[test]
fn encode_empty_is_terminator_only() {
    let bytes = encode_chars(&Vec::new(), 128);
    assert_eq!(bytes, vec![0x0A, 0x00]);
}

#[test]
fn encode_truncates_by_scalar_values() {
    // Truncation counts characters, not bytes: the accented letter is one
    // character but two UTF-8 bytes.
    let chars: Vec<char> = "h\u{e9}llo".chars().collect();
    let bytes = encode_chars(&chars, 2);
    assert_eq!(bytes, vec![0x68, 0xC3, 0xA9, 0x0A, 0x00]);
}
