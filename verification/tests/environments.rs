use size_format::PointSeparated;
use size_format::DecimalSeparator;
use size_format::SIPrefixes;
use size_format::SizeFormatter;

fn fmt(num: u64) -> String {
    SizeFormatter::new(
        num as u128,
        u64::MAX as u128,
        SIPrefixes::prefixes(),
        PointSeparated::separator(),
    )
    .format(None)
    .unwrap()
}

#[test]
fn no_std_works() {
    assert_eq!(format!("{}B", fmt(8_500_000)), "8.5MB".to_string());
}

#[test]
fn std_works() {
    assert_eq!(format!("{}B", fmt(8_500_000)), "8.5MB".to_string());
}
