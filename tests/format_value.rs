use constgen::format_value::{decimal, BooleanFormat, Format, IntegerFormat, Radix};
use constgen::value::{FloatArith, Primitive};

struct F64;

impl FloatArith for F64 {
    fn parse_decimal(&self, literal: &str) -> u64 {
        literal.parse::<f64>().unwrap().to_bits()
    }

    fn from_integer(&self, i: i128) -> u64 {
        (i as f64).to_bits()
    }

    fn sum(&self, a: u64, b: u64) -> u64 {
        (f64::from_bits(a) + f64::from_bits(b)).to_bits()
    }

    fn product(&self, a: u64, b: u64) -> u64 {
        (f64::from_bits(a) * f64::from_bits(b)).to_bits()
    }

    fn fract(&self, a: u64) -> u64 {
        f64::from_bits(a).fract().to_bits()
    }

    fn to_text(&self, a: u64) -> String {
        f64::from_bits(a).to_string()
    }

    fn float_eq(&self, a: u64, b: u64) -> bool {
        f64::from_bits(a) == f64::from_bits(b)
    }

    fn equals_integer(&self, a: u64, i: i128) -> bool {
        let f = f64::from_bits(a);
        // 2^127 is the first double past i128::MAX; `as` would saturate onto it.
        f.trunc() == f && i128::MIN as f64 <= f && f < -(i128::MIN as f64) && (f as i128) == i
    }
}

#[test]
fn test_integer_format_hex() {
    let f = IntegerFormat {
        radix: Radix::Hexadecimal,
        ..Default::default()
    };
    assert_eq!(f.format(0x1234), "0x1234");
    assert_eq!(f.format(0x1234_5678), "0x12345678");
    assert_eq!(f.format(0x1234_5678_90ab_cdef), "0x1234567890abcdef");

    let f = IntegerFormat {
        radix: Radix::Hexadecimal,
        underscores: 4,
        ..Default::default()
    };
    assert_eq!(f.format(0x1234), "0x1234");
    assert_eq!(f.format(0x1234_5678), "0x1234_5678");
    assert_eq!(f.format(0x1234_5678_90ab_cdef), "0x1234_5678_90ab_cdef");
    assert_eq!(f.format(0x123_4567), "0x123_4567");

    let f = IntegerFormat {
        radix: Radix::Hexadecimal,
        underscores: 4,
        zero_pad: 8,
        ..Default::default()
    };
    assert_eq!(f.format(0x1234), "0x0000_1234");
    assert_eq!(f.format(0x1234_5678), "0x1234_5678");
    assert_eq!(f.format(0x1234_5678_90ab_cdef), "0x1234_5678_90ab_cdef");
}

#[test]
fn test_integer_format_bin() {
    let f = IntegerFormat {
        radix: Radix::Binary,
        ..Default::default()
    };
    assert_eq!(f.format(0b1010), "0b1010");

    let f = IntegerFormat {
        radix: Radix::Binary,
        underscores: 4,
        ..Default::default()
    };
    assert_eq!(f.format(0b1010), "0b1010");
    assert_eq!(f.format(0b1010_0101), "0b1010_0101");
    assert_eq!(f.format(0b1111_0000_1100_0011), "0b1111_0000_1100_0011");

    let f = IntegerFormat {
        radix: Radix::Binary,
        underscores: 4,
        zero_pad: 8,
        ..Default::default()
    };
    assert_eq!(f.format(0b1010), "0b0000_1010");
    assert_eq!(f.format(0b1010_0101), "0b1010_0101");
    assert_eq!(f.format(0b1111_0000_1100_0011), "0b1111_0000_1100_0011");
}

#[test]
fn integer_format_sign_octal_and_no_prefix() {
    let f = IntegerFormat {
        radix: Radix::Octal,
        omit_prefix: true,
        ..Default::default()
    };
    assert_eq!(f.format(-8), "-10");
    let f = IntegerFormat::default();
    assert_eq!(f.format(-1_000_000), "-1000000");
    assert_eq!(f.format(i128::MIN), "-170141183460469231731687303715884105728");
    let f = IntegerFormat {
        underscores: 3,
        ..Default::default()
    };
    assert_eq!(f.format(1234567), "1_234_567");
}

#[test]
fn radix_values_and_prefixes() {
    assert_eq!(Radix::Binary.value(), 2);
    assert_eq!(Radix::Octal.value(), 8);
    assert_eq!(Radix::Decimal.value(), 10);
    assert_eq!(Radix::Hexadecimal.value(), 16);
    assert_eq!(Radix::Hexadecimal.prefix(), "0x");
    assert_eq!(Radix::Decimal.prefix(), "");
}

#[test]
fn values_by_format_or_display() {
    let plain = Format::default();
    assert_eq!(plain.format(&Primitive::Integer(-42), &F64), "-42");
    assert_eq!(plain.format(&Primitive::Integer(0), &F64), "0");
    assert_eq!(plain.format(&Primitive::Boolean(true), &F64), "true");
    assert_eq!(plain.format(&Primitive::Float(1.5f64.to_bits()), &F64), "1.5");
    let custom = Format {
        boolean: Some(BooleanFormat {
            true_: "YES".to_owned(),
            false_: "NO".to_owned(),
        }),
        integer: Some(IntegerFormat {
            radix: Radix::Hexadecimal,
            ..Default::default()
        }),
    };
    assert_eq!(custom.format(&Primitive::Boolean(false), &F64), "NO");
    assert_eq!(custom.format(&Primitive::Integer(255), &F64), "0xff");
    assert_eq!(decimal(907), "907");
}
