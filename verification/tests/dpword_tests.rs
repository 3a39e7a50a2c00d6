//! Tests of the d.p. word logic against the machine's own floating point:
//! ordering, integer encoding and truncation, and the decimal parser.

use rustspice::dpword::{dw_as_i32, dw_as_u64, dw_from_i32, dw_parse_token};

fn parse(s: &str) -> Option<u64> {
    let chars: Vec<char> = s.chars().collect();
    dw_parse_token(&chars)
}

#[test]
fn test_i32_encoding() {
    for v in [0i32, 1, -1, 2, 10, 999, -999, i32::MAX, i32::MIN, 123456789] {
        assert_eq!(dw_from_i32(v), (v as f64).to_bits(), "encode {}", v);
    }
}

#[test]
fn test_truncation_to_i32() {
    let cases = [
        0.0f64, -0.0, 0.5, -0.5, 1.0, 1.9, -1.9, 2.5, 1000.0, -1000.7, 2147483646.5,
        2147483648.0, -2147483648.0, -2147483649.5, 1e300, -1e300, f64::INFINITY,
        f64::NEG_INFINITY, f64::NAN, 1e-300,
    ];
    for &x in &cases {
        assert_eq!(dw_as_i32(x.to_bits()), x as i32, "trunc {}", x);
    }
}

#[test]
fn test_truncation_to_u64() {
    let cases = [
        0.0f64, -0.0, 0.5, -3.5, 1.0, 255.9, 4294967296.5, 9.0e18, 2e19, 1e300, f64::INFINITY,
        f64::NEG_INFINITY, f64::NAN,
    ];
    for &x in &cases {
        assert_eq!(dw_as_u64(x.to_bits()), x as u64, "trunc {}", x);
    }
}

#[test]
fn test_decimal_parser_matches_float_parsing() {
    let tokens = [
        "0", "1", "1.0", "2.5", "3.14159", "-3.14159", "+12.75", "1e5", "1E5", "1d5", "1D-5",
        "123456789.123456789", "0.001", "-0.025", ".5", "5.", "32.184", "299792.458",
        "6378.1366", "1.32712440041e11", "-14600", "86400.0", "1e0", "9007199254740993",
        "0.1", "0.2", "0.3", "123456789012345678", "1.7976931348623157",
    ];
    for &t in &tokens {
        let expect = t.replace('D', "E").replace('d', "e").parse::<f64>().unwrap();
        let got = parse(t).unwrap_or_else(|| panic!("no parse for {}", t));
        assert_eq!(got, expect.to_bits(), "parse {}", t);
    }
}

#[test]
fn test_decimal_parser_rejects_garbage() {
    for &t in &["", "+", "-", ".", "e5", "1.2.3", "1e", "1e+", "abc", "1 2", "0x10", "--1"] {
        assert!(parse(t).is_none(), "should reject {:?}", t);
    }
}

#[test]
fn test_decimal_parser_signed_zero() {
    assert_eq!(parse("0.0").unwrap(), 0.0f64.to_bits());
    assert_eq!(parse("-0.0").unwrap(), (-0.0f64).to_bits());
    assert_eq!(parse("-0").unwrap(), (-0.0f64).to_bits());
}
