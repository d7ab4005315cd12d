use anpa::semver::parse_inline;

#[test]
fn semver_version_no_snapshot() {
    let res = parse_inline("1.2.3").unwrap();
    assert_eq!(res.major, 1);
    assert_eq!(res.minor, 2);
    assert_eq!(res.patch, 3);
    assert!(res.pre_release.is_empty());
}

#[test]
fn semver_version_snapshot() {
    let res = parse_inline("12.345.67890-SNAPSHOT").unwrap();
    assert_eq!(res.major, 12);
    assert_eq!(res.minor, 345);
    assert_eq!(res.patch, 67890);
    assert_eq!(res.pre_release, "SNAPSHOT");

    assert!(parse_inline("12.345.67890-").is_none());
    assert!(parse_inline("12.345.67890-+").is_none());
    assert!(parse_inline("12.345.67890-+build").is_none());
    assert!(parse_inline("12.345.67890-SNAPSHOT+").is_none());
}

#[test]
fn version_build() {
    let res = parse_inline("12.345.67890+build1").unwrap();
    assert_eq!(res.major, 12);
    assert_eq!(res.minor, 345);
    assert_eq!(res.patch, 67890);
    assert!(res.pre_release.is_empty());
    assert_eq!(res.build, "build1");
}

#[test]
fn version_build_and_snapshot() {
    let res = parse_inline("12.345.67890-SNAPSHOT+build1").unwrap();
    assert_eq!(res.major, 12);
    assert_eq!(res.minor, 345);
    assert_eq!(res.patch, 67890);
    assert_eq!(res.pre_release, "SNAPSHOT");
    assert_eq!(res.build, "build1");
}

#[test]
fn semver_rejects_leading_zero_components() {
    assert!(parse_inline("01.2.3").is_none());
    assert!(parse_inline("1.02.3").is_none());
    let res = parse_inline("0.2.3").unwrap();
    assert_eq!(res.major, 0);
}

#[test]
fn semver_rejects_trailing_input() {
    assert!(parse_inline("1.2.3 ").is_none());
    assert!(parse_inline("1.2.3.4").is_none());
}
