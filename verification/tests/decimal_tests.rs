use mssql_crud::decimal::{parse_price, Decimal, MAX_SCALE};

#[test]
fn unscaled_12345_scale_2_reads_123_45() {
    let d = Decimal::new(12345, 2);
    assert_eq!(d.to_text(), "123.45");
    let back = d.to_text().parse::<f64>().unwrap();
    assert!((back - 123.45f64).abs() < 1e-9);
}

#[test]
fn zero_scale_renders_without_point() {
    let d = Decimal::new(7, 0);
    assert_eq!(d.to_text(), "7");
}

#[test]
fn fraction_is_zero_padded() {
    let d = Decimal::new(5, 3);
    assert_eq!(d.to_text(), "0.005");
}

#[test]
fn negative_amount_renders_signed() {
    let d = Decimal::new(-5, 2);
    assert_eq!(d.to_text(), "-0.05");
}

#[test]
fn zero_amount_renders_zero() {
    assert_eq!(Decimal::zero().to_text(), "0");
}

#[test]
fn parse_plain_integer() {
    let d = parse_price("123").unwrap();
    assert_eq!(d.unscaled, 123);
    assert_eq!(d.scale, 0);
}

#[test]
fn parse_with_fraction() {
    let d = parse_price("123.45").unwrap();
    assert_eq!(d.unscaled, 12345);
    assert_eq!(d.scale, 2);
}

#[test]
fn parse_negative() {
    let d = parse_price("-12.5").unwrap();
    assert_eq!(d.unscaled, -125);
    assert_eq!(d.scale, 1);
}

#[test]
fn parse_keeps_leading_zeros_in_value() {
    let d = parse_price("007.10").unwrap();
    assert_eq!(d.unscaled, 710);
    assert_eq!(d.scale, 2);
}

#[test]
fn parse_round_trips_rendering() {
    let d = Decimal::new(999001, 3);
    let text = d.to_text();
    assert_eq!(text, "999.001");
    let back = parse_price(&text).unwrap();
    assert_eq!(back, d);
}

#[test]
fn parse_rejects_empty() {
    assert!(parse_price("").is_none());
}

#[test]
fn parse_rejects_lone_minus() {
    assert!(parse_price("-").is_none());
}

#[test]
fn parse_rejects_trailing_point() {
    assert!(parse_price("1.").is_none());
}

#[test]
fn parse_rejects_leading_point() {
    assert!(parse_price(".5").is_none());
}

#[test]
fn parse_rejects_two_points() {
    assert!(parse_price("1.2.3").is_none());
}

#[test]
fn parse_rejects_letters() {
    assert!(parse_price("12a").is_none());
}

#[test]
fn parse_rejects_comma() {
    assert!(parse_price("1,5").is_none());
}

#[test]
fn parse_rejects_inner_sign() {
    assert!(parse_price("1-2").is_none());
}

#[test]
fn parse_rejects_unrepresentable_magnitude() {
    // forty nines: more than any i128 holds
    let text = "9".repeat(40);
    assert!(parse_price(&text).is_none());
}

#[test]
fn parse_rejects_too_many_fraction_digits() {
    let text = format!("1.{}", "0".repeat(MAX_SCALE as usize + 1));
    assert!(parse_price(&text).is_none());
}

#[test]
fn parse_accepts_widest_fraction() {
    let text = format!("1.{}", "0".repeat(MAX_SCALE as usize));
    let d = parse_price(&text).unwrap();
    assert_eq!(d.scale, MAX_SCALE);
}

#[test]
fn parse_accepts_largest_value() {
    // i128::MAX itself
    let d = parse_price("170141183460469231731687303715884105727").unwrap();
    assert_eq!(d.unscaled, i128::MAX);
    assert!(parse_price("170141183460469231731687303715884105728").is_none());
}
