use size_format::BinaryPrefixes;
use size_format::CommaSeparated;
use size_format::DecimalSeparator;
use size_format::PointSeparated;
use size_format::PrefixType;
use size_format::SIPrefixes;
use size_format::SizeFormatError;
use size_format::SizeFormatter;

const U8_MAX: u128 = u8::MAX as u128;
const U16_MAX: u128 = u16::MAX as u128;
const U64_MAX: u128 = u64::MAX as u128;

fn si(num: u64) -> String {
    SizeFormatter::new(
        num as u128,
        U64_MAX,
        SIPrefixes::prefixes(),
        PointSeparated::separator(),
    )
    .format(None)
    .unwrap()
}

fn si_u128(num: u128) -> String {
    SizeFormatter::new(
        num,
        u128::MAX,
        SIPrefixes::prefixes(),
        PointSeparated::separator(),
    )
    .format(None)
    .unwrap()
}

fn si_prec(num: u64, precision: usize) -> String {
    SizeFormatter::new(
        num as u128,
        U64_MAX,
        SIPrefixes::prefixes(),
        PointSeparated::separator(),
    )
    .format(Some(precision))
    .unwrap()
}

fn binary(num: u64) -> String {
    SizeFormatter::new(
        num as u128,
        U64_MAX,
        BinaryPrefixes::prefixes(),
        PointSeparated::separator(),
    )
    .format(None)
    .unwrap()
}

#[test]
fn small_sizes() {
    assert_eq!(format!("{}B", si(0)), "0B".to_string());
    assert_eq!(format!("{}B", si(1)), "1B".to_string());
    assert_eq!(format!("{}B", si(999)), "999B".to_string());

    assert_eq!(format!("{}B", binary(0)), "0B".to_string());
    assert_eq!(format!("{}B", binary(1)), "1B".to_string());
    assert_eq!(format!("{}B", binary(999)), "999B".to_string());

    assert_eq!(format!("{}B", si(1_000)), "1.0kB".to_string());
    assert_eq!(format!("{}B", si(55_000)), "55.0kB".to_string());
    assert_eq!(format!("{}B", si(999_999)), "999.9kB".to_string());
    assert_eq!(format!("{}B", si(1_000_000)), "1.0MB".to_string());

    assert_eq!(format!("{}B", binary(1 * 1024)), "1.0KiB".to_string());
    assert_eq!(format!("{}B", binary(55 * 1024)), "55.0KiB".to_string());
    assert_eq!(
        format!("{}B", binary(999 * 1024 + 1023)),
        "999.9KiB".to_string()
    );
    assert_eq!(format!("{}B", binary(1 * 1024 * 1024)), "1.0MiB".to_string());
}

#[test]
fn big_sizes() {
    assert_eq!(format!("{}B", si(387_854_348_875)), "387.8GB".to_string());
    assert_eq!(
        format!("{}B", si(123_456_789_999_999)),
        "123.4TB".to_string()
    );
    assert_eq!(
        format!("{}B", si(499_999_999_999_999_999)),
        "499.9PB".to_string()
    );
    assert_eq!(
        format!("{}B", si(1_000_000_000_000_000_000)),
        "1.0EB".to_string()
    );
    assert_eq!(
        format!("{}B", si_u128(1_000_000_000_000_000_000_000)),
        "1.0ZB".to_string()
    );
    assert_eq!(
        format!("{}B", si_u128(1_000_000_000_000_000_000_000_000)),
        "1.0YB".to_string()
    );
}

#[test]
fn exceeds_yotta() {
    assert_eq!(
        format!("{}B", si_u128(1_000_000_000_000_000_000_000_000_000)),
        "1000.0YB".to_string()
    );
    assert_eq!(
        format!("{}B", si_u128(1_000_000_000_000_000_000_000_000_000_000)),
        "1000000.0YB".to_string()
    );
}

#[test]
fn precision() {
    assert_eq!(format!("{}B", si_prec(1, 9)), "1B".to_string());
    assert_eq!(format!("{}B", si_prec(1_111, 0)), "1kB".to_string());
    assert_eq!(format!("{}B", si_prec(1_111, 1)), "1.1kB".to_string());
    assert_eq!(format!("{}B", si_prec(1_111, 2)), "1.11kB".to_string());
    assert_eq!(format!("{}B", si_prec(1_111, 3)), "1.111kB".to_string());
    assert_eq!(format!("{}B", si_prec(1_111, 4)), "1.111kB".to_string());
    assert_eq!(format!("{}B", si_prec(1_000_100, 4)), "1.0001MB".to_string());
    assert_eq!(format!("{}B", si_prec(1_500_000, 4)), "1.5000MB".to_string());
    assert_eq!(format!("{}B", si_prec(1_000_000, 4)), "1.0000MB".to_string());
}

#[test]
fn configurations() {
    let comma = SizeFormatter::new(
        65_535,
        U16_MAX,
        SIPrefixes::prefixes(),
        CommaSeparated::separator(),
    );
    assert_eq!(
        format!("{}B", comma.format(None).unwrap()),
        "65,5kB".to_string()
    );

    let bin = SizeFormatter::new(
        65_535,
        U16_MAX,
        BinaryPrefixes::prefixes(),
        PointSeparated::separator(),
    );
    assert_eq!(
        format!("{}B", bin.format(None).unwrap()),
        "63.9KiB".to_string()
    );
}

#[test]
fn from() {
    let f = SizeFormatter::from(
        546_987u32.into(),
        U64_MAX,
        SIPrefixes::prefixes(),
        PointSeparated::separator(),
    );
    assert_eq!(format!("{}B", f.format(None).unwrap()), "546.9kB".to_string());
}

#[test]
fn incompatile_base_type_fails() {
    let f = SizeFormatter::new(
        10,
        U8_MAX,
        SIPrefixes::prefixes(),
        CommaSeparated::separator(),
    );
    assert_eq!(f.format(None), Err(SizeFormatError::BaseTypeTooSmall));
}

#[test]
fn zero_has_no_separator_and_no_label() {
    assert_eq!(si(0), "0".to_string());
}

#[test]
fn precision_zero_truncates_never_rounds() {
    assert_eq!(format!("{}B", si_prec(999_999, 0)), "999kB".to_string());
    assert_eq!(
        format!("{}B", si_prec(1_999_999_999, 0)),
        "1GB".to_string()
    );
    assert_eq!(
        format!("{}B", si_prec(1_999_999_999, 4)),
        "1.9999GB".to_string()
    );
}

#[test]
fn binary_precision_two() {
    let f = SizeFormatter::new(
        65_535,
        U16_MAX,
        BinaryPrefixes::prefixes(),
        PointSeparated::separator(),
    );
    assert_eq!(f.format(Some(2)).unwrap(), "63.99Ki".to_string());
}

#[test]
fn repeated_formatting_is_identical() {
    let f = SizeFormatter::new(
        123_456_789,
        U64_MAX,
        SIPrefixes::prefixes(),
        PointSeparated::separator(),
    );
    let first = f.format(Some(5)).unwrap();
    let second = f.format(Some(5)).unwrap();
    assert_eq!(first, second);
    assert_eq!(first, "123.45678M".to_string());
    let third = f.format(None).unwrap();
    assert_eq!(third, f.format(None).unwrap());
}

#[test]
fn truncating_last_digit_matches_lower_precision() {
    for p in 2..9usize {
        let longer = si_prec(123_456_789_999_999, p);
        let shorter = si_prec(123_456_789_999_999, p - 1);
        let longer_digits = longer.strip_suffix("T").unwrap();
        let shorter_digits = shorter.strip_suffix("T").unwrap();
        let mut truncated = longer_digits.to_string();
        truncated.pop();
        assert_eq!(truncated, shorter_digits.to_string(), "precision {}", p);
    }
}

#[test]
fn custom_prefix_table_is_validated() {
    assert!(PrefixType::new(Vec::new(), 1000).is_none());
    assert!(PrefixType::new(vec![""], 1).is_none());
    assert!(PrefixType::new(vec![""], 0).is_none());
    let too_steep: Vec<&'static str> = vec![""; 100];
    assert!(PrefixType::new(too_steep, 1000).is_none());
    assert!(PrefixType::new(vec!["", "k", "M"], 1000).is_some());
}
