use sysunit::models::version::{Comparator, Version, VersionSpecification};
use sysunit::parser::version::{comparator, version, version_spec};

#[test]
fn test_comparator() {
    let input = ">=";
    let (rest, result) = comparator(input).unwrap();

    assert_eq!(rest, "");
    assert_eq!(result, Comparator::GreaterThanOrEqual);
}

#[test]
fn test_version_spec() {
    let input = ">=1.2.3";
    let (rest, result) = version_spec(input).unwrap();

    assert_eq!(rest, "");
    assert_eq!(result.version.major, 1);
    assert_eq!(result.version.minor, Some(2));
    assert_eq!(result.version.patch, Some(3));
    assert_eq!(result.comparator, Some(Comparator::GreaterThanOrEqual));
}

#[test]
fn every_comparator_is_read() {
    assert_eq!(comparator("<=1"), Ok(("1", Comparator::LessThanOrEqual)));
    assert_eq!(comparator(">1"), Ok(("1", Comparator::GreaterThan)));
    assert_eq!(comparator("<1"), Ok(("1", Comparator::LessThan)));
    assert_eq!(comparator("=1"), Ok(("1", Comparator::Equal)));
    assert!(comparator("1").is_err());
    assert!(comparator("").is_err());
}

#[test]
fn versions_have_up_to_three_components() {
    assert_eq!(version("7"), Ok(("", Version { major: 7, minor: None, patch: None })));
    assert_eq!(version("7.1"), Ok(("", Version { major: 7, minor: Some(1), patch: None })));
    assert_eq!(version("7.1.0 x"), Ok((" x", Version { major: 7, minor: Some(1), patch: Some(0) })));
    assert_eq!(version("7.1.0.9"), Ok((".9", Version { major: 7, minor: Some(1), patch: Some(0) })));
    assert_eq!(version("7."), Ok((".", Version { major: 7, minor: None, patch: None })));
    assert_eq!(
        version("4294967295.0"),
        Ok(("", Version { major: u32::MAX, minor: Some(0), patch: None }))
    );
    assert!(version("4294967296").is_err());
    assert!(version("1.4294967296").is_err());
    assert!(version(".1").is_err());
    assert!(version("").is_err());
}

#[test]
fn a_version_may_come_without_a_comparator() {
    assert_eq!(
        version_spec("2.3"),
        Ok((
            "",
            VersionSpecification {
                comparator: None,
                version: Version { major: 2, minor: Some(3), patch: None }
            }
        ))
    );
    assert!(version_spec(">=").is_err());
}
