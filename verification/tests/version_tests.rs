use anpa::parse_str;
use anpa::version::version_parser;

#[test]
fn version_version_no_snapshot() {
    let res = parse_str(&version_parser(), "1.2.3").result.unwrap();
    assert_eq!(res.major, 1);
    assert_eq!(res.minor, 2);
    assert_eq!(res.patch, 3);
    assert_eq!(res.snapshot, None);
}

#[test]
fn version_version_snapshot() {
    let res = parse_str(&version_parser(), "12.345.67890-SNAPSHOT").result.unwrap();
    assert_eq!(res.major, 12);
    assert_eq!(res.minor, 345);
    assert_eq!(res.patch, 67890);
    assert_eq!(res.snapshot, Some("SNAPSHOT".to_string()));
}

#[test]
fn version_invalid_snapshot() {
    let res = parse_str(&version_parser(), "1.2.3+SNAPSHOT").result;
    assert!(res.is_none());
}
