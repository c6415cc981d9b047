use gvm::pointer::{current_version, entry_path};
use gvm::registry::list_installed_versions;
use gvm::version::VersionId;

#[test]
fn end_to_end_scenario() {
    let bin = "/root/go/bin";
    assert!(list_installed_versions(Some(Vec::new())).is_empty());
    assert_eq!(current_version(None), None);
    let mut dir = vec!["go1.21.5".to_string(), "go1.20.0".to_string()];
    assert_eq!(list_installed_versions(Some(dir.clone())), vec!["go1.20.0".to_string(), "go1.21.5".to_string()]);
    let link = entry_path(bin, "go1.21.5");
    dir.push("go".to_string());
    assert_eq!(current_version(Some(link)), Some(VersionId::parse("go1.21.5")));
    let link = entry_path(bin, "go1.20.0");
    assert_eq!(current_version(Some(link)), Some(VersionId::parse("go1.20.0")));
    assert_eq!(list_installed_versions(Some(dir)), vec!["go1.20.0".to_string(), "go1.21.5".to_string()]);
}
