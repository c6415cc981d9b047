use gvm::version::{
    extract_version_number, normalize_version, parse_component, parse_triple, parse_triple_with,
    read_component, version_compare, VersionId,
};
use std::cmp::Ordering;

#[test]
fn normalize_adds_prefix() {
    assert_eq!(normalize_version("1.22.11"), "go1.22.11");
}

#[test]
fn normalize_keeps_prefixed() {
    assert_eq!(normalize_version("go1.22.11"), "go1.22.11");
    assert_eq!(normalize_version(""), "go");
}

#[test]
fn extract_strips_prefix() {
    assert_eq!(extract_version_number("go1.22.11"), "1.22.11");
    assert_eq!(extract_version_number("go"), "");
}

#[test]
fn extract_without_prefix_is_unchanged() {
    assert_eq!(extract_version_number("1.22.11"), "1.22.11");
    assert_eq!(extract_version_number("g1"), "g1");
}

#[test]
fn parse_full_triple() {
    assert_eq!(parse_triple("1.22.11"), (1, 22, 11));
}

#[test]
fn parse_missing_patch_is_zero() {
    assert_eq!(parse_triple("1.22"), (1, 22, 0));
    assert_eq!(parse_triple("1"), (1, 0, 0));
    assert_eq!(parse_triple(""), (0, 0, 0));
}

#[test]
fn parse_bad_component_is_zero() {
    assert_eq!(parse_triple("1.22rc1"), (1, 0, 0));
    assert_eq!(parse_triple("1..3"), (1, 0, 3));
    assert_eq!(parse_triple("x.2.3"), (0, 2, 3));
    assert_eq!(parse_triple("1.2.3.4"), (1, 2, 3));
}

#[test]
fn parse_component_edges() {
    assert_eq!(parse_component("+7"), 7);
    assert_eq!(parse_component("+"), 0);
    assert_eq!(parse_component("-1"), 0);
    assert_eq!(parse_component("4294967295"), 4294967295);
    assert_eq!(parse_component("4294967296"), 0);
    assert_eq!(parse_component("007"), 7);
    assert_eq!(parse_component(""), 0);
}

#[test]
fn compare_is_numeric() {
    assert_eq!(version_compare("1.9.0", "1.10.0"), Ordering::Less);
    assert_eq!(version_compare("1.10.0", "1.9.0"), Ordering::Greater);
    assert_eq!(version_compare("1.2", "1.2.0"), Ordering::Equal);
    assert_eq!(version_compare("2.0.0", "1.99.99"), Ordering::Greater);
}

#[test]
fn compare_is_transitive_on_samples() {
    let a = "1.9.9";
    let b = "1.10.0";
    let c = "1.10.1";
    assert_eq!(version_compare(a, b), Ordering::Less);
    assert_eq!(version_compare(b, c), Ordering::Less);
    assert_eq!(version_compare(a, c), Ordering::Less);
}

#[test]
fn normalize_round_trip_keeps_triple() {
    for s in ["1.21.5", "go1.21.5", "1.22", "gox"] {
        let n = normalize_version(s);
        assert_eq!(
            parse_triple(&extract_version_number(&n)),
            parse_triple(&extract_version_number(s))
        );
    }
}

#[test]
fn version_id_ignores_prefix() {
    let a = VersionId::parse("go1.21.5");
    let b = VersionId::parse("1.21.5");
    assert_eq!(a, b);
    assert_eq!(a, VersionId { major: 1, minor: 21, patch: 5 });
    assert_eq!(VersionId::parse("1.21"), VersionId::parse("go1.21.0"));
}

#[test]
fn version_id_compare() {
    let a = VersionId::parse("1.9.0");
    let b = VersionId::parse("go1.10.0");
    assert_eq!(a.compare(&b), Ordering::Less);
    assert_eq!(b.compare(&a), Ordering::Greater);
    assert_eq!(a.compare(&a), Ordering::Equal);
}

#[test]
fn missing_patch_equals_dot_zero() {
    for s in ["1.22", "1.9", "0.0", "x.y"] {
        assert_eq!(version_compare(s, &format!("{}.0", s)), Ordering::Equal);
        for p in [1u32, 7, 4294967295] {
            assert_eq!(version_compare(s, &format!("{}.{}", s, p)), Ordering::Less);
        }
    }
}

#[test]
fn read_component_tells_failure() {
    assert_eq!(read_component("0"), Some(0));
    assert_eq!(read_component("+12"), Some(12));
    assert_eq!(read_component("12a"), None);
    assert_eq!(read_component(""), None);
    assert_eq!(read_component("4294967296"), None);
}

#[test]
fn lenient_parsing_is_default_mode() {
    assert_eq!(parse_triple_with("1.22rc1", false), Some((1, 0, 0)));
    assert_eq!(parse_triple_with("1.22.3", false), Some((1, 22, 3)));
}

#[test]
fn strict_parsing_rejects_bad_components() {
    assert_eq!(parse_triple_with("1.22rc1", true), None);
    assert_eq!(parse_triple_with("1..3", true), None);
    assert_eq!(parse_triple_with("", true), None);
    assert_eq!(parse_triple_with("1.22.3", true), Some((1, 22, 3)));
    assert_eq!(parse_triple_with("1.22", true), Some((1, 22, 0)));
    assert_eq!(parse_triple_with("1.2.3.x", true), Some((1, 2, 3)));
}
