use demver::ini_source::{best_match, get_newest_version, IniSource, ResolveError};
use demver::source::VersionSource;
use demver::version::{ConcreteVersion, FixedVersion, VersionConstraint};

const SIMPLE_CATALOG: &str = "[testapp]\n1.0.0 = 1\n1.5.0 = 15\n2.0.0 = 2\n";

const CATALOG: &str = "[app]\n1.0.0 = a\nnotes = hello\n1.5.0 = b\n2.0.0 = c\n\n[other]\n3.0.0 = z\n";

fn resolve(catalog: &str, req: &str, id: Option<&str>) -> Result<(String, String), ResolveError> {
    let src = IniSource::new("versions.ini");
    let req = VersionConstraint::parse(req).unwrap();
    src.get_fixed_version(catalog, &req, id)
        .map(|v| (v.raw_version().to_owned(), v.get_hash().clone()))
}

#[test]
fn test_simple_1() {
    let ini = IniSource::new("./test/simple/versions.ini");

    let req = VersionConstraint::parse("~1.0.0").unwrap();

    let ver = ini.get_fixed_version(SIMPLE_CATALOG, &req, Some("testapp"));
    let ver = ver.unwrap();

    assert_eq!(ver.get_hash(), "1")
}

#[test]
fn test_simple_2() {
    let ini = IniSource::new("./test/simple/versions.ini");

    let req = VersionConstraint::parse("^1.0.0").unwrap();

    let ver = ini.get_fixed_version(SIMPLE_CATALOG, &req, Some("testapp"));
    let ver = ver.unwrap();

    assert_eq!(ver.get_hash(), "15")
}

#[test]
fn caret_picks_highest_compatible() {
    assert_eq!(resolve(CATALOG, "^1.0.0", Some("app")), Ok(("1.5.0".to_owned(), "b".to_owned())));
}

#[test]
fn tilde_picks_patch_level_only() {
    assert_eq!(resolve(CATALOG, "~1.0.0", Some("app")), Ok(("1.0.0".to_owned(), "a".to_owned())));
}

#[test]
fn missing_section_differs_from_no_match() {
    assert_eq!(resolve(CATALOG, "^1.0.0", Some("absent")), Err(ResolveError::NoSection));
    assert_eq!(resolve(CATALOG, "^9.0.0", Some("app")), Err(ResolveError::NoMatch));
    assert_eq!(resolve(CATALOG, "^1.0.0", Some("other")), Err(ResolveError::NoMatch));
}

#[test]
fn non_version_keys_are_skipped() {
    let without = "[app]\n1.0.0 = a\n1.5.0 = b\n2.0.0 = c\n";
    let with = "[app]\nnotes = x\n1.0.0 = a\nowner = me\n1.5.0 = b\n2.0.0 = c\nlatest = yes\n";
    for req in ["^1.0.0", "~1.0.0", "*", ">=2"] {
        assert_eq!(resolve(with, req, Some("app")), resolve(without, req, Some("app")));
    }
    assert_eq!(resolve(with, "*", Some("app")), Ok(("2.0.0".to_owned(), "c".to_owned())));
}

#[test]
fn unreadable_catalog_is_reported() {
    let r = resolve("[app\n1.0.0 = a\n", "^1", Some("app"));
    assert!(matches!(r, Err(ResolveError::CatalogUnreadable(_))));
}

#[test]
fn equal_precedence_keeps_first() {
    let entries = vec![
        ("1.2.0+build.b".to_owned(), "first".to_owned()),
        ("1.2.0+build.a".to_owned(), "second".to_owned()),
        ("1.1.0".to_owned(), "older".to_owned()),
    ];
    let req = VersionConstraint::parse("^1").unwrap();
    let best = best_match(&req, &entries).unwrap();
    assert_eq!(best.raw_version(), "1.2.0+build.b");
    assert_eq!(best.get_hash(), "first");
}

#[test]
fn best_match_without_candidates() {
    let req = VersionConstraint::parse("^1").unwrap();
    assert_eq!(best_match(&req, &vec![]).unwrap_err(), ResolveError::NoMatch);
    let entries = vec![("x".to_owned(), "1".to_owned()), ("0.9.0".to_owned(), "2".to_owned())];
    assert_eq!(best_match(&req, &entries).unwrap_err(), ResolveError::NoMatch);
}

#[test]
fn prerelease_is_ordered_below_release() {
    let entries = vec![
        ("1.0.0".to_owned(), "rel".to_owned()),
        ("1.0.0-rc.1".to_owned(), "rc".to_owned()),
    ];
    let req = VersionConstraint::parse(">=1.0.0-rc.1").unwrap();
    assert_eq!(best_match(&req, &entries).unwrap().get_hash(), "rel");
}

#[test]
fn versions_parse_and_compare() {
    let a = ConcreteVersion::parse("1.2.3").unwrap();
    let b = ConcreteVersion::parse("1.10.0").unwrap();
    assert_eq!(a.cmp_precedence(&b), std::cmp::Ordering::Less);
    assert_eq!(a.as_str(), "1.2.3");
    assert_eq!(a.get_semver().minor, 2);
    assert!(ConcreteVersion::parse("1.2").is_err());
    assert!(VersionConstraint::parse("^1.2").unwrap().matches(&a));
    assert!(!VersionConstraint::parse("^1.3").unwrap().matches(&a));
    assert!(VersionConstraint::parse("not a range").is_err());
}

#[test]
fn newest_version_keeps_last_of_equals() {
    let fv = |v: &str, h: &str| FixedVersion::new(ConcreteVersion::parse(v).unwrap(), h.to_owned());
    let versions = vec![
        fv("1.4.0", "a"),
        fv("2.0.0", "b"),
        fv("1.4.0+x", "c"),
        fv("1.0.0", "d"),
    ];
    let req = VersionConstraint::parse("^1").unwrap();
    assert_eq!(get_newest_version(&req, &versions).unwrap().get_hash(), "c");
    let req = VersionConstraint::parse(">=2").unwrap();
    assert_eq!(get_newest_version(&req, &versions).unwrap().get_hash(), "b");
    let req = VersionConstraint::parse("^3").unwrap();
    assert_eq!(get_newest_version(&req, &versions).unwrap_err(), ResolveError::NoMatch);
}

#[test]
fn fixed_versions_compare_by_precedence_only() {
    let a = FixedVersion::new(ConcreteVersion::parse("1.0.0+one").unwrap(), "x".to_owned());
    let b = FixedVersion::new(ConcreteVersion::parse("1.0.0+two").unwrap(), "y".to_owned());
    let c = FixedVersion::new(ConcreteVersion::parse("1.0.1").unwrap(), "x".to_owned());
    assert!(a == b);
    assert!(a != c);
    assert!(a < c);
    assert_eq!(a.partial_cmp(&b), Some(std::cmp::Ordering::Equal));
    assert_eq!(a.raw_version(), "1.0.0+one");
    assert_eq!(a.get_semver().patch, 0);
}

#[test]
fn catalog_byte_order_mark_is_skipped() {
    let with_bom = "\u{feff}[app]\n1.0.0 = a\n1.5.0 = b\n";
    assert_eq!(resolve(with_bom, "^1", Some("app")), Ok(("1.5.0".to_owned(), "b".to_owned())));
}

#[test]
fn general_section_is_reached_without_identifier() {
    let catalog = "1.0.0 = top\n[app]\n2.0.0 = z\n";
    assert_eq!(resolve(catalog, "^1", None), Ok(("1.0.0".to_owned(), "top".to_owned())));
}
