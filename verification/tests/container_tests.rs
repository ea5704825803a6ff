use northstar::container::Container;
use northstar::decimal::{parse_u64, u64_to_text};
use northstar::name::Name;
use northstar::version::{ReqOp, Version, VersionReq};

#[test]
fn try_from() {
    let name = Name::try_from("test").unwrap();
    let version = Version::parse("0.0.1").unwrap();
    assert_eq!(
        Container::new(name, version),
        Container::try_from("test:0.0.1").unwrap()
    );
}

#[test]
fn invalid_name() {
    assert!(Container::try_from("test\0:0.0.1").is_err());
    assert!(Container::try_from("tes%t:0.0.1").is_err());
}

#[test]
fn container_text_roundtrip() {
    let container = Container::try_from("hello-world.foo_1:1.22.333").unwrap();
    let text = container.to_text();
    assert_eq!(text, "hello-world.foo_1:1.22.333");
    assert_eq!(Container::try_from(&text).unwrap(), container);
}

#[test]
fn container_requires_version() {
    assert!(Container::try_from("test").is_err());
    assert!(Container::try_from("test:").is_err());
    assert!(Container::try_from(":0.0.1").is_err());
    assert!(Container::try_from("test:0.0").is_err());
}

#[test]
fn container_with_prerelease_version() {
    let container = Container::try_from("test:1.0.0-alpha").unwrap();
    assert_eq!(container.name().as_str(), "test");
    assert_eq!(container.version().to_text(), "1.0.0-alpha");
    let full = Container::try_from("test:1.0.0-alpha.1+sha.5114f85").unwrap();
    assert_eq!(full.version().to_text(), "1.0.0-alpha.1+sha.5114f85");
    assert_eq!(Container::try_from(&full.to_text()).unwrap(), full);
}

#[test]
fn name_rules() {
    assert!(Name::try_from("").is_none());
    assert!(Name::try_from("ok-name_1.x").is_some());
    assert!(Name::try_from("no space").is_none());
    assert!(Name::try_from("nul\0").is_none());
    let long = "a".repeat(1024);
    assert!(Name::try_from(&long).is_some());
    let too_long = "a".repeat(1025);
    assert!(Name::try_from(&too_long).is_none());
}

#[test]
fn decimal_parse() {
    assert_eq!(parse_u64("0"), Some(0));
    assert_eq!(parse_u64("42"), Some(42));
    assert_eq!(parse_u64("18446744073709551615"), Some(u64::MAX));
    assert_eq!(parse_u64("18446744073709551616"), None);
    assert_eq!(parse_u64("007"), None);
    assert_eq!(parse_u64(""), None);
    assert_eq!(parse_u64("1a"), None);
}

#[test]
fn decimal_print() {
    assert_eq!(u64_to_text(0), "0");
    assert_eq!(u64_to_text(1234), "1234");
    assert_eq!(u64_to_text(u64::MAX), "18446744073709551615");
}

#[test]
fn version_parse() {
    let v = Version::parse("1.2.3").unwrap();
    assert_eq!(v.major, 1);
    assert_eq!(v.minor, 2);
    assert_eq!(v.patch, 3);
    assert_eq!(v.pre, None);
    assert_eq!(v.build, None);
    assert_eq!(v.to_text(), "1.2.3");
    assert!(Version::parse("1.2").is_none());
    assert!(Version::parse("01.2.3").is_none());
    assert!(Version::parse("1.2.3.4").is_none());
    assert!(Version::parse("1.2.x").is_none());
    assert!(Version::parse("").is_none());
}

#[test]
fn version_parse_prerelease_and_build() {
    let v = Version::parse("1.0.0-alpha.1").unwrap();
    assert_eq!(v.pre.as_deref(), Some("alpha.1"));
    assert_eq!(v.build, None);
    assert_eq!(v.to_text(), "1.0.0-alpha.1");

    let v = Version::parse("1.0.0-x-y-z.7+exp.sha.5114f85").unwrap();
    assert_eq!(v.pre.as_deref(), Some("x-y-z.7"));
    assert_eq!(v.build.as_deref(), Some("exp.sha.5114f85"));
    assert_eq!(v.to_text(), "1.0.0-x-y-z.7+exp.sha.5114f85");

    let v = Version::parse("1.0.0+21AF26D3").unwrap();
    assert_eq!(v.pre, None);
    assert_eq!(v.build.as_deref(), Some("21AF26D3"));

    // Empty identifiers and leading zeros in numeric pre-release
    // identifiers are invalid.
    assert!(Version::parse("1.0.0-").is_none());
    assert!(Version::parse("1.0.0-alpha..1").is_none());
    assert!(Version::parse("1.0.0-01").is_none());
    assert!(Version::parse("1.0.0+").is_none());
    assert!(Version::parse("1.0.0-al_pha").is_none());
    // A build identifier may hold leading zeros.
    assert!(Version::parse("1.0.0+001").is_some());
}

#[test]
fn version_order() {
    let a = Version::parse("1.2.3").unwrap();
    let b = Version::parse("1.10.0").unwrap();
    assert!(a.lt(&b));
    assert!(!b.lt(&a));
    assert!(!a.lt(&a));
}

#[test]
fn version_precedence() {
    let order = [
        "1.0.0-alpha",
        "1.0.0-alpha.1",
        "1.0.0-alpha.beta",
        "1.0.0-beta",
        "1.0.0-beta.2",
        "1.0.0-beta.11",
        "1.0.0-rc.1",
        "1.0.0",
    ];
    for pair in order.windows(2) {
        let lo = Version::parse(pair[0]).unwrap();
        let hi = Version::parse(pair[1]).unwrap();
        assert!(lo.lt(&hi), "{} should precede {}", pair[0], pair[1]);
        assert!(!hi.lt(&lo), "{} should not precede {}", pair[1], pair[0]);
    }
    // Build metadata never affects precedence.
    let plain = Version::parse("1.0.0").unwrap();
    let with_build = Version::parse("1.0.0+build.9").unwrap();
    assert!(!plain.lt(&with_build));
    assert!(!with_build.lt(&plain));
}

#[test]
fn version_req() {
    let req = VersionReq::parse(">=1.0.0").unwrap();
    assert_eq!(req.op, ReqOp::GreaterEq);
    assert!(req.matches(&Version::parse("1.0.0").unwrap()));
    assert!(req.matches(&Version::parse("2.3.4").unwrap()));
    assert!(!req.matches(&Version::parse("0.9.9").unwrap()));

    let exact = VersionReq::parse("=1.0.0").unwrap();
    assert!(exact.matches(&Version::parse("1.0.0").unwrap()));
    assert!(!exact.matches(&Version::parse("1.0.1").unwrap()));

    let bare = VersionReq::parse("1.0.0").unwrap();
    assert_eq!(bare.op, ReqOp::Exact);

    // The printed requirement parses back to itself.
    assert_eq!(req.to_text(), ">=1.0.0");
    assert_eq!(VersionReq::parse(&req.to_text()), Some(req));

    let less = VersionReq::parse("<2.0.0").unwrap();
    assert!(less.matches(&Version::parse("1.9.9").unwrap()));
    assert!(!less.matches(&Version::parse("2.0.0").unwrap()));

    // Pre-release versions order below their release.
    let ge = VersionReq::parse(">=1.0.0").unwrap();
    assert!(!ge.matches(&Version::parse("1.0.0-rc.1").unwrap()));
    let ge_pre = VersionReq::parse(">=1.0.0-alpha").unwrap();
    assert!(ge_pre.matches(&Version::parse("1.0.0-beta").unwrap()));
    // An exact match ignores build metadata.
    let exact = VersionReq::parse("=1.0.0").unwrap();
    assert!(exact.matches(&Version::parse("1.0.0+build").unwrap()));

    assert!(VersionReq::parse(">=").is_none());
    assert!(VersionReq::parse("~1.0.0").is_none());
}
