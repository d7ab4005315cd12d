use anpa::number::{float, float_checked, integer, integer_checked, integer_signed,
    integer_signed_checked, FloatParts};
use anpa::parse_str;

#[test]
fn unsigned_integer() {
    assert_eq!(0, parse_str(&integer::<u32>(), "0").result.unwrap());
    assert_eq!(127, parse_str(&integer::<u32>(), "127").result.unwrap());
    assert_eq!(255, parse_str(&integer::<u32>(), "255").result.unwrap());

    assert!(parse_str(&integer::<u8>(), "-1").result.is_none());
    assert!(parse_str(&integer_checked::<u8>(), "256").result.is_none());
}

#[test]
fn signed_integer() {
    assert_eq!(0, parse_str(&integer_signed::<i64>(), "0").result.unwrap());
    assert_eq!(127, parse_str(&integer_signed::<i64>(), "127").result.unwrap());
    assert_eq!(-1, parse_str(&integer_signed::<i64>(), "-1").result.unwrap());
    assert_eq!(-128, parse_str(&integer_signed::<i64>(), "-128").result.unwrap());

    assert_eq!(128u8, parse_str(&integer_signed::<u8>(), "128").result.unwrap());

    assert!(parse_str(&integer_signed_checked::<u8>(), "-129").result.is_none());
    assert!(parse_str(&integer_signed_checked::<i8>(), "128").result.is_none());
}

#[test]
fn checked_u8_range() {
    assert_eq!(255u8, parse_str(&integer_checked::<u8>(), "255").result.unwrap());
    assert!(parse_str(&integer_checked::<u8>(), "256").result.is_none());
    assert!(parse_str(&integer_checked::<u8>(), "-1").result.is_none());
    // A failed checked parse consumes nothing.
    let res = parse_str(&integer_checked::<u8>(), "256");
    assert_eq!(res.state, "256");
}

#[test]
fn checked_i8_range() {
    assert_eq!(127i8, parse_str(&integer_signed_checked::<i8>(), "127").result.unwrap());
    assert_eq!(-128i8, parse_str(&integer_signed_checked::<i8>(), "-128").result.unwrap());
    assert!(parse_str(&integer_signed_checked::<i8>(), "128").result.is_none());
    assert!(parse_str(&integer_signed_checked::<i8>(), "-129").result.is_none());
}

#[test]
fn unchecked_wraps() {
    // The unchecked flavour wraps around instead of failing.
    assert_eq!(0u8, parse_str(&integer::<u8>(), "256").result.unwrap());
    assert_eq!(44u8, parse_str(&integer::<u8>(), "300").result.unwrap());
}

fn to_f32(p: FloatParts) -> f32 {
    let sign = if p.negative { -1.0f32 } else { 1.0f32 };
    p.int_part as f32 + sign * p.frac as f32 / 10f32.powi(p.frac_digits as i32)
}

#[test]
fn float_test() {
    assert_eq!(0f32, to_f32(parse_str(&float(), "0").result.unwrap()));
    assert_eq!(100000000f32, to_f32(parse_str(&float(), "100000000").result.unwrap()));
    assert_eq!(-100000000f32, to_f32(parse_str(&float(), "-100000000").result.unwrap()));
    assert_eq!(13.37f32, to_f32(parse_str(&float(), "13.37").result.unwrap()));
    assert_eq!(-13.37f32, to_f32(parse_str(&float(), "-13.37").result.unwrap()));
    assert_eq!(13.07f32, to_f32(parse_str(&float(), "13.07").result.unwrap()));
    assert_eq!(-13.07f32, to_f32(parse_str(&float(), "-13.07").result.unwrap()));
    assert_eq!(1.123f32, to_f32(parse_str(&float(), "1.123").result.unwrap()));
    assert_eq!(0.001f32, to_f32(parse_str(&float(), "0.001").result.unwrap()));
    assert_eq!(-0.001f32, to_f32(parse_str(&float(), "-0.001").result.unwrap()));
}

#[test]
fn float_parts_shape() {
    let p = parse_str(&float_checked(), "-13.37").result.unwrap();
    assert_eq!(p.int_part, -13);
    assert!(p.negative);
    assert_eq!(p.frac, 37);
    assert_eq!(p.frac_digits, 2);

    // Without a fraction the integer value stands alone.
    let p = parse_str(&float_checked(), "13").result.unwrap();
    assert_eq!(p.int_part, 13);
    assert_eq!(p.frac_digits, 0);

    // A dot without digits after it is left unconsumed.
    let res = parse_str(&float_checked(), "13.x");
    assert_eq!(res.result.unwrap().int_part, 13);
    assert_eq!(res.state, ".x");
}
