use verset::changeset::{
    changeset_file_content, plan_version_updates, should_remove_changeset, split_changeset_file,
};
use verset::detect::{detect_node_package, detect_rust_package, sort_by_name, DetectError};
use verset::semver_value::{calculate_next_version, SemVer};
use verset::timestamp::Timestamp;
use verset::{ChangeType, Changeset, Package};

fn stamp() -> Timestamp {
    Timestamp {
        year: 2025,
        month: 3,
        day: 4,
        hour: 5,
        minute: 6,
        second: 7,
        nanosecond: 0,
    }
}

fn changeset(names: &[&str], kind: ChangeType, text: &str) -> Changeset {
    Changeset {
        packages: names.iter().map(|n| n.to_string()).collect(),
        change_type: kind,
        description: text.to_string(),
        created_at: stamp(),
    }
}

fn rust(content: &str) -> Package {
    detect_rust_package(".", "Cargo.toml", content).unwrap()
}

#[test]
fn test_malformed_version_handling() {
    let cargo_toml = r#"[package]
name = "bad-version"
version = "not-a-version"
edition = "2021"
"#;
    let r = detect_rust_package(".", "Cargo.toml", cargo_toml);
    assert!(r.is_err());
    assert_eq!(r.unwrap_err(), DetectError::BadVersion("not-a-version".to_string()));
}

#[test]
fn test_missing_version_field() {
    let package_json = r#"{
  "name": "no-version-package",
  "description": "Package without version",
  "main": "index.js"
}"#;
    let r = detect_node_package(".", &Some("dir".to_string()), "package.json", package_json);
    assert!(r.is_err());
    assert_eq!(
        r.unwrap_err(),
        DetectError::Missing("No version in package.json".to_string())
    );
}

#[test]
fn test_empty_changeset_directory() {
    let packages = vec![rust(
        r#"[package]
name = "test-package"
version = "1.0.0"
edition = "2021"
"#,
    )];
    let changesets: Vec<Changeset> = Vec::new();
    let updates = plan_version_updates(&packages, &changesets, &None);
    assert_eq!(updates.len(), 0);
}

#[test]
fn test_duplicate_package_names() {
    let package_json1 = r#"{
  "name": "duplicate-name",
  "version": "1.0.0"
}"#;
    let package_json2 = r#"{
  "name": "duplicate-name",
  "version": "2.0.0"
}"#;
    let found = vec![
        detect_node_package("packages/package1", &Some("package1".to_string()), "package.json", package_json1)
            .unwrap(),
        detect_node_package("packages/package2", &Some("package2".to_string()), "package.json", package_json2)
            .unwrap(),
    ];
    let packages = sort_by_name(found);
    assert_eq!(packages.len(), 2);
    assert!(packages.iter().all(|p| p.name == "duplicate-name"));
    // Equal names keep their order.
    assert_eq!(packages[0].path, "packages/package1");
    assert_eq!(packages[1].path, "packages/package2");

    // Applying uses the first package of the name.
    let changesets = vec![changeset(&["duplicate-name"], ChangeType::Patch, "Fix")];
    let updates = plan_version_updates(&packages, &changesets, &None);
    assert_eq!(updates.len(), 1);
    assert_eq!(updates[0].current.to_string(), "1.0.0");
    assert_eq!(updates[0].next.to_string(), "1.0.1");
}

#[test]
fn test_changeset_with_nonexistent_package() {
    let packages = vec![rust(
        r#"[package]
name = "real-package"
version = "1.0.0"
edition = "2021"
"#,
    )];
    let changesets = vec![changeset(&["nonexistent-package"], ChangeType::Minor, "Update nonexistent")];
    let updates = plan_version_updates(&packages, &changesets, &None);
    // Nothing to update, so nothing is applied and the changeset stays.
    assert_eq!(updates.len(), 0);
}

#[test]
fn test_pre_release_version_handling() {
    let p = rust(
        r#"[package]
name = "prerelease-test"
version = "1.0.0-alpha.1"
edition = "2021"
"#,
    );
    assert_eq!(p.current_version.pre, "alpha.1");
    assert_eq!(p.current_version.to_string(), "1.0.0-alpha.1");
    let changesets = vec![changeset(&["prerelease-test"], ChangeType::Minor, "Minor update")];
    let packages = vec![p];
    let updates = plan_version_updates(&packages, &changesets, &None);
    assert_eq!(updates[0].next.to_string(), "1.1.0");
}

#[test]
fn test_unicode_in_descriptions() {
    let text = "Fix bug 🐛 and add emoji support 🎉";
    let content = changeset_file_content("packages:\n- unicode-test\ntype: patch", text);
    let (_, d) = split_changeset_file(content.as_str()).unwrap();
    assert_eq!(d, "Fix bug 🐛 and add emoji support 🎉");
}

#[test]
fn test_multiple_changesets_same_package() {
    let packages = vec![rust(
        r#"[package]
name = "multi-change"
version = "1.0.0"
edition = "2021"
"#,
    )];
    let changesets = vec![
        changeset(&["multi-change"], ChangeType::Patch, "Fix bug 1"),
        changeset(&["multi-change"], ChangeType::Minor, "Add feature"),
        changeset(&["multi-change"], ChangeType::Patch, "Fix bug 2"),
    ];
    let updates = plan_version_updates(&packages, &changesets, &None);
    assert_eq!(updates.len(), 1);
    assert_eq!(updates[0].next.to_string(), "1.1.0");
    // All of them are removed after applying.
    for c in &changesets {
        assert!(should_remove_changeset(&c.packages, &updates));
    }
}

#[test]
fn test_filtered_apply_and_cleanup() {
    let packages = vec![
        rust("[package]\nname = \"core\"\nversion = \"1.0.0\"\n"),
        rust("[package]\nname = \"api\"\nversion = \"0.3.0\"\n"),
    ];
    let changesets = vec![
        changeset(&["core", "api"], ChangeType::Minor, "Shared"),
        changeset(&["api"], ChangeType::Major, "Only api"),
    ];
    let filter = Some("api".to_string());
    let updates = plan_version_updates(&packages, &changesets, &filter);
    assert_eq!(updates.len(), 1);
    assert_eq!(updates[0].package, "api");
    assert_eq!(updates[0].next.to_string(), "1.0.0");
    let core_only = Some("core".to_string());
    let core_updates = plan_version_updates(&packages, &changesets, &core_only);
    assert!(should_remove_changeset(&changesets[0].packages, &core_updates));
    assert!(!should_remove_changeset(&changesets[1].packages, &core_updates));
}

#[test]
fn test_filter_lists_several_packages() {
    let packages = vec![
        rust("[package]\nname = \"api\"\nversion = \"2.0.0\"\n"),
        rust("[package]\nname = \"core\"\nversion = \"1.0.0\"\n"),
        rust("[package]\nname = \"web\"\nversion = \"3.0.0\"\n"),
    ];
    let changesets = vec![changeset(&["core", "api", "web"], ChangeType::Patch, "Fix")];
    let filter = Some("core, api".to_string());
    let updates = plan_version_updates(&packages, &changesets, &filter);
    let names: Vec<&str> = updates.iter().map(|u| u.package.as_str()).collect();
    assert_eq!(names, vec!["core", "api"]);
    assert_eq!(updates[0].next.to_string(), "1.0.1");
    assert_eq!(updates[1].next.to_string(), "2.0.1");
}

#[test]
fn test_unapplied_changeset_stays() {
    let packages = vec![rust("[package]\nname = \"real-package\"\nversion = \"1.0.0\"\n")];
    let changesets = vec![
        changeset(&["real-package"], ChangeType::Minor, "A"),
        changeset(&["nonexistent-package"], ChangeType::Minor, "B"),
    ];
    let updates = plan_version_updates(&packages, &changesets, &None);
    assert_eq!(updates.len(), 1);
    assert_eq!(updates[0].next.to_string(), "1.1.0");
    assert!(should_remove_changeset(&changesets[0].packages, &updates));
    assert!(!should_remove_changeset(&changesets[1].packages, &updates));
}

#[test]
fn test_updates_in_first_listed_order() {
    let packages = vec![
        rust("[package]\nname = \"a\"\nversion = \"1.0.0\"\n"),
        rust("[package]\nname = \"b\"\nversion = \"1.0.0\"\n"),
    ];
    let changesets = vec![
        changeset(&["b"], ChangeType::Patch, "b first"),
        changeset(&["a", "b"], ChangeType::Major, "both"),
    ];
    let updates = plan_version_updates(&packages, &changesets, &None);
    let names: Vec<&str> = updates.iter().map(|u| u.package.as_str()).collect();
    assert_eq!(names, vec!["b", "a"]);
    assert_eq!(updates[0].next.to_string(), "2.0.0");
    assert_eq!(updates[1].next.to_string(), "2.0.0");
}

#[test]
fn test_next_version_clears_build() {
    let cur = SemVer::parse("1.2.3+build.5").unwrap();
    assert_eq!(cur.build, "build.5");
    let next = calculate_next_version(&cur, &vec![ChangeType::Patch]);
    assert_eq!(next.to_string(), "1.2.4");
    assert_eq!(next.pre, "");
    assert_eq!(next.build, "");
}
