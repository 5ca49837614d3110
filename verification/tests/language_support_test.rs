use verset::changeset::plan_version_updates;
use verset::detect::{
    detect_go_package, detect_node_package, detect_rust_package, extract_go_version,
    extract_python_version, python_package_from_init, python_package_from_pyproject,
    read_version, sort_by_name,
};
use verset::semver_value::{calculate_next_version, SemVer};
use verset::timestamp::Timestamp;
use verset::version::update_version;
use verset::{ChangeType, Changeset, PackageType};

fn v(text: &str) -> SemVer {
    SemVer::parse(text).unwrap()
}

fn changeset(name: &str, kind: ChangeType, text: &str) -> Changeset {
    Changeset {
        packages: vec![name.to_string()],
        change_type: kind,
        description: text.to_string(),
        created_at: Timestamp {
            year: 2024,
            month: 1,
            day: 2,
            hour: 3,
            minute: 4,
            second: 5,
            nanosecond: 0,
        },
    }
}

#[test]
fn test_rust_package_detection_and_update() {
    let cargo_toml = r#"[package]
name = "test-rust-package"
version = "1.2.3"
edition = "2021"

[dependencies]
serde = "1.0"
"#;
    let p = detect_rust_package(".", "Cargo.toml", cargo_toml).unwrap();
    assert_eq!(p.name, "test-rust-package");
    assert_eq!(p.current_version, v("1.2.3"));
    assert!(matches!(p.package_type, PackageType::Rust));
    assert_eq!(p.version_path, "package.version");

    let updated = update_version(cargo_toml, "Cargo.toml", &p.package_type, &p.version_path, &v("2.0.0"))
        .unwrap();
    assert!(updated.contains("version = \"2.0.0\""));
    assert!(updated.contains("serde = \"1.0\""));
    let again = read_version(updated.as_str(), "Cargo.toml", &PackageType::Rust, "package.version")
        .unwrap();
    assert_eq!(again, v("2.0.0"));
}

#[test]
fn test_nodejs_package_detection_and_update() {
    let package_json = r#"{
  "name": "test-node-package",
  "version": "0.1.0",
  "description": "Test package",
  "main": "index.js",
  "dependencies": {
    "express": "^4.18.0"
  }
}"#;
    let p = detect_node_package(".", &Some("project".to_string()), "package.json", package_json)
        .unwrap();
    assert_eq!(p.name, "test-node-package");
    assert_eq!(p.current_version, v("0.1.0"));
    assert!(matches!(p.package_type, PackageType::Node));

    let updated = update_version(package_json, "package.json", &p.package_type, &p.version_path, &v("1.0.0"))
        .unwrap();
    assert!(updated.contains("\"version\": \"1.0.0\""));
    assert!(updated.contains("\"express\": \"^4.18.0\""));
    let again = read_version(updated.as_str(), "package.json", &PackageType::Node, "version").unwrap();
    assert_eq!(again, v("1.0.0"));
}

#[test]
fn test_python_pyproject_detection_and_update() {
    let pyproject_toml = r#"[project]
name = "test-python-package"
version = "3.2.1"
description = "Test Python package"
requires-python = ">=3.8"

[project.dependencies]
requests = ">=2.28.0"
"#;
    let p = python_package_from_pyproject(".", &Some("dir".to_string()), "pyproject.toml", pyproject_toml)
        .unwrap()
        .unwrap();
    assert_eq!(p.name, "test-python-package");
    assert_eq!(p.current_version, v("3.2.1"));
    assert!(matches!(p.package_type, PackageType::Python));
    assert_eq!(p.version_path, "project.version");

    let updated = update_version(pyproject_toml, "pyproject.toml", &p.package_type, &p.version_path, &v("4.0.0"))
        .unwrap();
    assert!(updated.contains("version = \"4.0.0\""));
    let again = read_version(updated.as_str(), "pyproject.toml", &PackageType::Python, "project.version")
        .unwrap();
    assert_eq!(again, v("4.0.0"));
}

#[test]
fn test_python_poetry_detection_and_update() {
    let pyproject_toml = r#"[tool.poetry]
name = "test-poetry-package"
version = "2.1.0"
description = "Test Poetry package"
authors = ["Test Author <test@example.com>"]

[tool.poetry.dependencies]
python = "^3.8"
requests = "^2.28.0"
"#;
    let p = python_package_from_pyproject(".", &Some("dir".to_string()), "pyproject.toml", pyproject_toml)
        .unwrap()
        .unwrap();
    assert_eq!(p.name, "test-poetry-package");
    assert_eq!(p.current_version, v("2.1.0"));
    assert!(matches!(p.package_type, PackageType::Python));
    assert_eq!(p.version_path, "tool.poetry.version");

    let updated = update_version(pyproject_toml, "pyproject.toml", &p.package_type, &p.version_path, &v("3.0.0"))
        .unwrap();
    assert!(updated.contains("version = \"3.0.0\""));
}

#[test]
fn test_python_init_py_detection_and_update() {
    let init_py = r#""""My test package."""

__version__ = "1.5.2"
__author__ = "Test Author"

def hello():
    return "Hello, World!"
"#;
    let pyproject_toml = r#"[project]
name = "my_package"
description = "Test package"
"#;
    let dir_name = Some("my_package".to_string());
    let none = python_package_from_pyproject(".", &dir_name, "pyproject.toml", pyproject_toml).unwrap();
    assert!(none.is_none());
    let p = python_package_from_init(".", &dir_name, "__init__.py", init_py).unwrap().unwrap();
    assert_eq!(p.name, "my_package");
    assert_eq!(p.current_version, v("1.5.2"));
    assert!(matches!(p.package_type, PackageType::Python));
    assert_eq!(p.version_path, "__version__");

    let updated = update_version(init_py, "__init__.py", &p.package_type, &p.version_path, &v("2.0.0"))
        .unwrap();
    assert!(updated.contains("__version__ = \"2.0.0\""));
    assert_eq!(extract_python_version(updated.as_str()), Some("2.0.0".to_string()));
}

#[test]
fn test_go_package_detection() {
    let version_go = r#"package main

const Version = "1.3.0"
const AppName = "MyApp"
"#;
    let p = detect_go_package(
        ".",
        &Some("myapp".to_string()),
        "go.mod",
        &Some(("version.go".to_string(), version_go.to_string())),
    )
    .unwrap();
    assert_eq!(p.current_version, v("1.3.0"));
    assert!(matches!(p.package_type, PackageType::Go));
    assert_eq!(p.version_file, "version.go");
    assert_eq!(p.version_path, "Version");
    assert_eq!(extract_go_version(version_go), Some("1.3.0".to_string()));
}

#[test]
fn test_go_package_without_version_file() {
    let p = detect_go_package(".", &Some("myapp".to_string()), "go.mod", &None).unwrap();
    assert_eq!(p.name, "myapp");
    assert_eq!(p.current_version, v("0.0.0"));
    assert_eq!(p.version_file, "go.mod");
    assert_eq!(p.version_path, "");
}

#[test]
fn test_monorepo_multi_language_detection() {
    let cargo_toml = r#"[package]
name = "my-rust-lib"
version = "1.0.0"
edition = "2021"
"#;
    let package_json = r#"{
  "name": "my-node-app",
  "version": "2.0.0",
  "main": "index.js"
}"#;
    let pyproject_toml = r#"[project]
name = "my-python-lib"
version = "3.0.0"
"#;
    let found = vec![
        detect_rust_package("packages/rust-lib", "packages/rust-lib/Cargo.toml", cargo_toml).unwrap(),
        detect_node_package(
            "packages/node-app",
            &Some("node-app".to_string()),
            "packages/node-app/package.json",
            package_json,
        )
        .unwrap(),
        python_package_from_pyproject(
            "packages/python-lib",
            &Some("python-lib".to_string()),
            "packages/python-lib/pyproject.toml",
            pyproject_toml,
        )
        .unwrap()
        .unwrap(),
    ];
    let packages = sort_by_name(found);
    assert_eq!(packages.len(), 3);

    let rust_pkg = packages.iter().find(|p| p.name == "my-rust-lib").unwrap();
    assert_eq!(rust_pkg.current_version, v("1.0.0"));
    assert!(matches!(rust_pkg.package_type, PackageType::Rust));

    let node_pkg = packages.iter().find(|p| p.name == "my-node-app").unwrap();
    assert_eq!(node_pkg.current_version, v("2.0.0"));
    assert!(matches!(node_pkg.package_type, PackageType::Node));

    let python_pkg = packages.iter().find(|p| p.name == "my-python-lib").unwrap();
    assert_eq!(python_pkg.current_version, v("3.0.0"));
    assert!(matches!(python_pkg.package_type, PackageType::Python));

    let names: Vec<&str> = packages.iter().map(|p| p.name.as_str()).collect();
    assert_eq!(names, vec!["my-node-app", "my-python-lib", "my-rust-lib"]);
}

#[test]
fn test_version_increment_logic() {
    let cargo_toml = r#"[package]
name = "version-test"
version = "1.2.3"
edition = "2021"
"#;
    let mut content = cargo_toml.to_string();
    let steps = vec![
        (ChangeType::Patch, "Fix bug", "1.2.4"),
        (ChangeType::Minor, "Add feature", "1.3.0"),
        (ChangeType::Major, "Breaking change", "2.0.0"),
    ];
    for (kind, text, expected) in steps {
        let p = detect_rust_package(".", "Cargo.toml", content.as_str()).unwrap();
        let packages = vec![p];
        let changesets = vec![changeset("version-test", kind, text)];
        let updates = plan_version_updates(&packages, &changesets, &None);
        assert_eq!(updates.len(), 1);
        content = update_version(
            content.as_str(),
            "Cargo.toml",
            &PackageType::Rust,
            "package.version",
            &updates[0].next,
        )
        .unwrap();
        let again = detect_rust_package(".", "Cargo.toml", content.as_str()).unwrap();
        assert_eq!(again.current_version, v(expected));
    }
}

#[test]
fn test_next_version_exact_values() {
    let cur = v("1.2.3");
    assert_eq!(calculate_next_version(&cur, &vec![]).to_string(), "1.2.3");
    assert_eq!(calculate_next_version(&cur, &vec![ChangeType::Patch]).to_string(), "1.2.4");
    assert_eq!(
        calculate_next_version(&cur, &vec![ChangeType::Patch, ChangeType::Minor]).to_string(),
        "1.3.0"
    );
    assert_eq!(
        calculate_next_version(&cur, &vec![ChangeType::Patch, ChangeType::Major, ChangeType::Minor])
            .to_string(),
        "2.0.0"
    );
}
