use verset::changeset::{
    changeset_file_content, changeset_file_name, is_changeset_file_name, plan_changeset,
    split_changeset_file, AddError,
};
use verset::config::{
    default_changelog_file, default_changelog_format, default_patterns, default_true,
    has_package_sources, Config,
};
use verset::semver_value::SemVer;
use verset::timestamp::Timestamp;
use verset::{ChangeType, Package, PackageType};

fn moment() -> Timestamp {
    Timestamp {
        year: 2024,
        month: 12,
        day: 1,
        hour: 9,
        minute: 5,
        second: 7,
        nanosecond: 0,
    }
}

fn rust_package(name: &str, version: &str) -> Package {
    Package {
        name: name.to_string(),
        path: ".".to_string(),
        package_type: PackageType::Rust,
        version_file: "Cargo.toml".to_string(),
        version_path: "package.version".to_string(),
        current_version: SemVer::parse(version).unwrap(),
    }
}

#[test]
fn test_change_type_formatting() {
    assert_eq!(ChangeType::Major.to_string(), "major");
    assert_eq!(ChangeType::Minor.to_string(), "minor");
    assert_eq!(ChangeType::Patch.to_string(), "patch");
}

#[test]
fn test_default_configuration() {
    let config = Config::default();
    assert_eq!(
        config.packages.patterns,
        vec!["packages/*", "apps/*", "libs/*", "."]
    );
    assert!(config.packages.manual.is_empty());
    assert!(config.changelog.enabled);
    assert_eq!(config.changelog.file, "CHANGELOG.md");
    assert_eq!(config.changelog.format, "keep-a-changelog");
    assert!(config.changelog.template_path.is_none());
    assert!(config.post_apply.commands.is_empty());
    assert!(!config.publish.dry_run);
    assert!(config.publish.rust.registry.is_none());
    assert!(config.publish.packages.is_empty());
    assert!(has_package_sources(&config));
    assert_eq!(default_patterns().len(), 4);
    assert!(default_true());
    assert_eq!(default_changelog_file(), "CHANGELOG.md");
    assert_eq!(default_changelog_format(), "keep-a-changelog");
}

#[test]
fn test_configuration_without_package_sources() {
    let mut config = Config::default();
    config.packages.patterns = Vec::new();
    assert!(!has_package_sources(&config));
}

#[test]
fn test_changeset_workflow() {
    // A changeset is planned, framed as a file, and read back.
    let packages = vec![rust_package("test-project", "1.0.0")];
    let changeset = plan_changeset(
        &packages,
        Some("test-project".to_string()),
        Some("minor".to_string()),
        Some("Test changeset".to_string()),
        false,
        moment(),
    )
    .unwrap();
    assert_eq!(changeset.packages, vec!["test-project"]);
    assert_eq!(changeset.change_type, ChangeType::Minor);
    assert_eq!(changeset.description, "Test changeset");

    let front = "packages:\n- test-project\ntype: minor\n";
    let content = changeset_file_content(front, changeset.description.as_str());
    assert_eq!(
        content,
        "---\npackages:\n- test-project\ntype: minor\n---\n\nTest changeset"
    );
    let (f, d) = split_changeset_file(content.as_str()).unwrap();
    assert_eq!(f, "packages:\n- test-project\ntype: minor");
    assert_eq!(d, "Test changeset");

    let name = changeset_file_name(&moment(), "0a1b2c3d-0000-4000-8000-000000000000");
    assert_eq!(name, "20241201090507-0a1b2c3d.md");
    assert!(is_changeset_file_name(name.as_str()));
}

#[test]
fn test_plan_changeset_for_all_packages() {
    let packages = vec![rust_package("core", "1.0.0"), rust_package("api", "2.0.0")];
    let c = plan_changeset(
        &packages,
        None,
        Some("MAJOR".to_string()),
        Some("Breaking: Update API".to_string()),
        true,
        moment(),
    )
    .unwrap();
    assert_eq!(c.packages, vec!["core", "api"]);
    assert_eq!(c.change_type, ChangeType::Major);
    assert_eq!(c.created_at, moment());
}

#[test]
fn test_plan_changeset_trims_listed_names() {
    let packages = vec![rust_package("core", "1.0.0"), rust_package("api", "2.0.0")];
    let c = plan_changeset(
        &packages,
        Some(" core , api ".to_string()),
        Some("patch".to_string()),
        Some("Fix memory leak".to_string()),
        false,
        moment(),
    )
    .unwrap();
    assert_eq!(c.packages, vec!["core", "api"]);
    assert_eq!(c.change_type, ChangeType::Patch);
}

#[test]
fn test_plan_changeset_errors() {
    let none: Vec<Package> = Vec::new();
    let packages = vec![rust_package("core", "1.0.0")];
    let t = Some("minor".to_string());
    let m = Some("msg".to_string());

    let e = plan_changeset(&none, None, t.clone(), m.clone(), true, moment()).unwrap_err();
    assert_eq!(e, AddError::NoPackages);
    assert_eq!(e.message(), "No packages found");

    let e = plan_changeset(&packages, Some("core,web".to_string()), t.clone(), m.clone(), false, moment())
        .unwrap_err();
    assert_eq!(e, AddError::UnknownPackage("web".to_string()));
    assert_eq!(e.message(), "Unknown package: web");

    let two = vec![rust_package("core", "1.0.0"), rust_package("api", "1.0.0")];
    let e = plan_changeset(&two, None, t.clone(), m.clone(), false, moment()).unwrap_err();
    assert_eq!(e, AddError::NoTarget);
    assert_eq!(
        e.message(),
        "Must specify --package, --all, or use interactive mode"
    );

    let e = plan_changeset(&packages, None, None, m.clone(), true, moment()).unwrap_err();
    assert_eq!(e, AddError::MissingType);
    assert_eq!(e.message(), "Must specify --type");

    let e = plan_changeset(&packages, None, Some("huge".to_string()), m.clone(), true, moment())
        .unwrap_err();
    assert_eq!(e.message(), "Invalid change type: huge");
    assert!(matches!(e, AddError::InvalidType(_)));

    let e = plan_changeset(&packages, None, t.clone(), None, true, moment()).unwrap_err();
    assert_eq!(e, AddError::MissingMessage);
    assert_eq!(e.message(), "Must specify --message");
}

#[test]
fn test_single_package_add_without_target() {
    let packages = vec![rust_package("my-rust-project", "1.0.0")];
    let c = plan_changeset(
        &packages,
        None,
        Some("minor".to_string()),
        Some("Add OAuth support".to_string()),
        false,
        moment(),
    )
    .unwrap();
    assert_eq!(c.packages, vec!["my-rust-project"]);
    assert_eq!(c.change_type, ChangeType::Minor);
    assert_eq!(c.description, "Add OAuth support");
}
