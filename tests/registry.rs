use gvm::pointer::{current_version, entry_path, link_target_name};
use gvm::registry::{is_version_entry, list_installed_versions, listing};
use gvm::version::VersionId;

fn names(v: &[&str]) -> Vec<String> {
    v.iter().map(|s| s.to_string()).collect()
}

#[test]
fn version_entry_filter() {
    assert!(is_version_entry("go1.20.0"));
    assert!(is_version_entry("go1."));
    assert!(!is_version_entry("go"));
    assert!(!is_version_entry("go1"));
    assert!(!is_version_entry("gofmt"));
    assert!(!is_version_entry("go2.0.0"));
}

#[test]
fn missing_root_lists_nothing() {
    assert!(list_installed_versions(None).is_empty());
}

#[test]
fn empty_root_lists_nothing() {
    assert!(list_installed_versions(Some(Vec::new())).is_empty());
}

#[test]
fn pointer_entry_is_not_listed() {
    let r = list_installed_versions(Some(names(&["go", "go1.21.5", "gofmt", "go1.20.0"])));
    assert_eq!(r, names(&["go1.20.0", "go1.21.5"]));
}

#[test]
fn listing_sorts_numerically() {
    let r = list_installed_versions(Some(names(&["go1.10.0", "go1.9.10", "go1.9.2"])));
    assert_eq!(r, names(&["go1.9.2", "go1.9.10", "go1.10.0"]));
}

#[test]
fn listing_marks_current() {
    let installed = names(&["go1.20.0", "go1.21.5"]);
    let rows = listing(&installed, Some(VersionId::parse("1.21.5")));
    assert_eq!(rows.len(), 2);
    assert_eq!(rows[0].version_num, "1.20.0");
    assert!(!rows[0].is_current);
    assert_eq!(rows[1].version_num, "1.21.5");
    assert!(rows[1].is_current);
    let none = listing(&installed, None);
    assert!(!none[0].is_current && !none[1].is_current);
}

#[test]
fn entry_path_joins_canonical_name() {
    assert_eq!(entry_path("/home/u/go/bin", "1.21.5"), "/home/u/go/bin/go1.21.5");
    assert_eq!(entry_path("/home/u/go/bin", "go1.21.5"), "/home/u/go/bin/go1.21.5");
}

#[test]
fn link_target_final_component() {
    assert_eq!(link_target_name("/a/b/go1.2"), Some("go1.2".to_string()));
    assert_eq!(link_target_name("go1.2"), Some("go1.2".to_string()));
    assert_eq!(link_target_name("/a/b/"), Some("b".to_string()));
    assert_eq!(link_target_name("/"), None);
    assert_eq!(link_target_name(""), None);
    assert_eq!(link_target_name("a/.."), None);
    assert_eq!(link_target_name("a/."), Some("a".to_string()));
    assert_eq!(link_target_name("x/go1.20/./"), Some("go1.20".to_string()));
    assert_eq!(link_target_name("./a"), Some("a".to_string()));
    assert_eq!(link_target_name("."), None);
    assert_eq!(link_target_name("/."), None);
}

#[test]
fn no_link_means_no_current() {
    assert_eq!(current_version(None), None);
    assert_eq!(current_version(Some("/".to_string())), None);
    assert_eq!(
        current_version(Some("x/go1.20/.".to_string())),
        Some(VersionId { major: 1, minor: 20, patch: 0 })
    );
}

#[test]
fn activate_then_current_reads_back() {
    let target = entry_path("/home/u/go/bin", "1.21.5");
    assert_eq!(
        current_version(Some(target)),
        Some(VersionId { major: 1, minor: 21, patch: 5 })
    );
}

#[test]
fn equal_versions_keep_their_order() {
    let r = list_installed_versions(Some(names(&["go1.20.0", "go1.9", "go1.20", "go1.9.0"])));
    assert_eq!(r, names(&["go1.9", "go1.9.0", "go1.20.0", "go1.20"]));
    let r = list_installed_versions(Some(names(&["go1.20", "go1.20.0"])));
    assert_eq!(r, names(&["go1.20", "go1.20.0"]));
}
