use size_format::PointSeparated;
use size_format::DecimalSeparator;
use size_format::PrefixType;
use size_format::SizeFormatter;

fn millimeter() -> PrefixType {
    PrefixType::new(vec!["m", "", "k"], 1000).unwrap()
}

fn fmt(num: u64) -> String {
    SizeFormatter::new(
        num as u128,
        u64::MAX as u128,
        millimeter(),
        PointSeparated::separator(),
    )
    .format(None)
    .unwrap()
}

#[test]
fn new_prefix_works() {
    assert_eq!(format!("{}m", fmt(1)), "1mm".to_string());
    assert_eq!(format!("{}m", fmt(1_000)), "1.0m".to_string());
    assert_eq!(format!("{}m", fmt(1_000_000)), "1.0km".to_string());
    assert_eq!(format!("{}m", fmt(10_000_000_000)), "10000.0km".to_string());
}
