use verset::changelog::{insert_entry, render_changelog, render_entry};
use verset::changeset::{
    changeset_shown, filter_names_package, filter_selects, format_changes, is_changeset_file_name, new_changeset_file_name, plan_status,
    plan_version_updates, split_changeset_file, VersionUpdate,
};
use verset::config::{Config, PackagePublishConfig};
use verset::detect::{
    choose_manifest, extract_go_version, plan_sources, sort_texts, extract_python_version, name_lt, parse_package_type,
    placeholder_package, read_version, DetectError, Manifest,
};
use verset::document::{path_of, set_path, split_path, Node, SetError};
use verset::interactive::{
    change_type_choices, finish_interactive, package_choices, InteractiveError,
};
use verset::package::name_column_width;
use verset::publish::{get_publish_command, select_for_publish};
use verset::semver_value::{bump_fits, SemVer};
use verset::text::{chars_of, string_of, trim_str};
use verset::timestamp::Timestamp;
use verset::version::{update_go_version, update_python_init_version, update_version, UpdateError};
use verset::{ChangeType, Changeset, Package, PackageType};

fn day(year: i32, month: u32, d: u32) -> Timestamp {
    Timestamp {
        year,
        month,
        day: d,
        hour: 0,
        minute: 0,
        second: 0,
        nanosecond: 0,
    }
}

fn pkg(name: &str, version: &str, t: PackageType) -> Package {
    Package {
        name: name.to_string(),
        path: format!("packages/{}", name),
        package_type: t,
        version_file: "Cargo.toml".to_string(),
        version_path: "package.version".to_string(),
        current_version: SemVer::parse(version).unwrap(),
    }
}

fn cs(names: &[&str], kind: ChangeType, text: &str) -> Changeset {
    Changeset {
        packages: names.iter().map(|n| n.to_string()).collect(),
        change_type: kind,
        description: text.to_string(),
        created_at: day(2024, 12, 1),
    }
}

// ----- change kinds and package types -----

#[test]
fn test_change_type_parse_ignores_case() {
    assert_eq!(ChangeType::parse("MaJoR").unwrap(), ChangeType::Major);
    assert_eq!(ChangeType::parse("minor").unwrap(), ChangeType::Minor);
    assert_eq!("PATCH".parse::<ChangeType>().unwrap(), ChangeType::Patch);
    let e = ChangeType::parse("breaking").unwrap_err();
    assert_eq!(e.text, "breaking");
    assert_eq!(e.message(), "Invalid change type: breaking");
}

#[test]
fn test_change_type_round_trip() {
    for t in [ChangeType::Major, ChangeType::Minor, ChangeType::Patch] {
        assert_eq!(ChangeType::parse(t.to_string().as_str()).unwrap(), t);
    }
}

#[test]
fn test_package_type_labels() {
    assert_eq!(PackageType::Rust.to_string(), "Rust");
    assert_eq!(PackageType::Node.to_string(), "Node.js");
    assert_eq!(PackageType::Python.to_string(), "Python");
    assert_eq!(PackageType::Go.to_string(), "Go");
    assert_eq!(PackageType::Java.to_string(), "Java");
    assert_eq!(PackageType::Dotnet.to_string(), ".NET");
    let c = PackageType::Custom { command: "make release".to_string() };
    assert_eq!(c.to_string(), "Custom (make release)");
}

#[test]
fn test_parse_package_type() {
    assert_eq!(parse_package_type("Rust").unwrap(), PackageType::Rust);
    assert_eq!(parse_package_type("NodeJS").unwrap(), PackageType::Node);
    assert_eq!(parse_package_type("node").unwrap(), PackageType::Node);
    assert_eq!(parse_package_type("python").unwrap(), PackageType::Python);
    assert_eq!(parse_package_type("GO").unwrap(), PackageType::Go);
    assert_eq!(parse_package_type("java").unwrap(), PackageType::Java);
    assert_eq!(parse_package_type(".NET").unwrap(), PackageType::Dotnet);
    assert_eq!(parse_package_type("dotnet").unwrap(), PackageType::Dotnet);
    let e = parse_package_type("cobol").unwrap_err();
    assert_eq!(e.text, "cobol");
    assert_eq!(e.message(), "Unknown package type: cobol");
}

// ----- versions -----

#[test]
fn test_semver_parse_and_write() {
    let v = SemVer::parse("1.0.0-rc.1+build.7").unwrap();
    assert_eq!((v.major, v.minor, v.patch), (1, 0, 0));
    assert_eq!(v.pre, "rc.1");
    assert_eq!(v.build, "build.7");
    assert_eq!(v.to_string(), "1.0.0-rc.1+build.7");
    assert!(SemVer::parse("01.0.0").is_none());
    assert!(SemVer::parse("1.0").is_none());
    assert!(SemVer::parse("not-a-version").is_none());
    let w = SemVer::new(4, 5, 6);
    assert_eq!(w.to_string(), "4.5.6");
    assert_eq!(SemVer::parse(w.to_string().as_str()).unwrap(), w);
}

#[test]
fn test_bump_fits() {
    let top = SemVer::new(u64::MAX, 3, 4);
    assert!(bump_fits(&top, &vec![]));
    assert!(bump_fits(&top, &vec![ChangeType::Patch, ChangeType::Minor]));
    assert!(!bump_fits(&top, &vec![ChangeType::Major]));
    let p = SemVer::new(1, 2, u64::MAX);
    assert!(!bump_fits(&p, &vec![ChangeType::Patch]));
    assert!(bump_fits(&p, &vec![ChangeType::Patch, ChangeType::Minor]));
}

#[test]
fn test_format_changes() {
    assert_eq!(format_changes(&vec![]), "");
    assert_eq!(format_changes(&vec![ChangeType::Patch]), "1 patch");
    assert_eq!(
        format_changes(&vec![ChangeType::Patch, ChangeType::Major, ChangeType::Patch]),
        "1 major, 2 patchs"
    );
    assert_eq!(
        format_changes(&vec![ChangeType::Minor, ChangeType::Minor, ChangeType::Minor, ChangeType::Major]),
        "1 major, 3 minors"
    );
}

// ----- timestamps -----

#[test]
fn test_timestamp_texts() {
    let t = Timestamp {
        year: 2024,
        month: 3,
        day: 9,
        hour: 7,
        minute: 8,
        second: 59,
        nanosecond: 1_500_000_000,
    };
    assert!(t.is_valid());
    assert_eq!(t.compact(), "20240309070860");
    assert_eq!(t.date(), "2024-03-09");
    assert_eq!(day(999, 1, 2).date(), "0999-01-02");
    assert_eq!(day(12345, 1, 2).date(), "+12345-01-02");
    assert_eq!(day(-5, 1, 2).date(), "-0005-01-02");
    assert!(!day(2024, 13, 1).is_valid());
}

// ----- changeset files -----

#[test]
fn test_new_changeset_file_name() {
    let t = Timestamp {
        year: 2024,
        month: 12,
        day: 1,
        hour: 10,
        minute: 20,
        second: 30,
        nanosecond: 0,
    };
    let a = new_changeset_file_name(&t);
    let b = new_changeset_file_name(&t);
    assert_eq!(a.len(), 26);
    assert!(a.starts_with("20241201102030-"));
    assert!(a.ends_with(".md"));
    let id = &a[15..23];
    assert!(id.chars().all(|c| c.is_ascii_digit() || ('a'..='f').contains(&c)));
    assert!(is_changeset_file_name(a.as_str()));
    assert_ne!(a, b);
}

#[test]
fn test_changeset_file_names() {
    assert!(is_changeset_file_name("a.md"));
    assert!(is_changeset_file_name("x.y.md"));
    assert!(!is_changeset_file_name(".md"));
    assert!(!is_changeset_file_name("notes.MD"));
    assert!(!is_changeset_file_name("amd"));
    assert!(!is_changeset_file_name("a.txt"));
}

#[test]
fn test_split_changeset_file_without_frame() {
    assert!(split_changeset_file("no front matter").is_none());
    assert!(split_changeset_file("---\ntype: minor\nno end").is_none());
    let (f, d) = split_changeset_file("---\ntype: minor\n---\n\n  text  \n").unwrap();
    assert_eq!(f, "type: minor");
    assert_eq!(d, "text");
}

// ----- status -----

#[test]
fn test_plan_status() {
    let packages = vec![
        pkg("api", "0.9.0", PackageType::Rust),
        pkg("core", "1.0.0", PackageType::Rust),
        pkg("web", "2.0.0", PackageType::Node),
    ];
    let changesets = vec![
        cs(&["core"], ChangeType::Patch, "a"),
        cs(&["core", "web"], ChangeType::Minor, "b"),
        cs(&["core"], ChangeType::Patch, "c"),
    ];
    let rows = plan_status(&packages, &changesets, &None);
    assert_eq!(rows.len(), 3);
    assert_eq!(rows[0].name, "api");
    assert!(rows[0].next.is_none());
    let (v, s) = rows[1].next.as_ref().unwrap();
    assert_eq!(v.to_string(), "1.1.0");
    assert_eq!(s, "1 minor, 2 patchs");
    let (v, s) = rows[2].next.as_ref().unwrap();
    assert_eq!(v.to_string(), "2.1.0");
    assert_eq!(s, "1 minor");

    let only_web = Some("web".to_string());
    let rows = plan_status(&packages, &changesets, &only_web);
    assert_eq!(rows.len(), 1);
    assert_eq!(rows[0].name, "web");
    assert!(!changeset_shown(&changesets[0], &only_web));
    assert!(changeset_shown(&changesets[1], &only_web));
    assert!(changeset_shown(&changesets[0], &None));
}

#[test]
fn test_status_filter_names_one_package() {
    let packages = vec![
        pkg("api", "0.9.0", PackageType::Rust),
        pkg("core", "1.0.0", PackageType::Rust),
    ];
    let changesets = vec![cs(&["core", "api"], ChangeType::Minor, "a")];
    for f in [" core", "core,api", "core "] {
        let filter = Some(f.to_string());
        assert!(plan_status(&packages, &changesets, &filter).is_empty());
        assert!(!changeset_shown(&changesets[0], &filter));
        assert!(!filter_names_package(&filter, "core"));
    }
    let core = Some("core".to_string());
    let rows = plan_status(&packages, &changesets, &core);
    assert_eq!(rows.len(), 1);
    assert_eq!(rows[0].next.as_ref().unwrap().0.to_string(), "1.1.0");
    assert!(filter_names_package(&core, "core"));
    assert!(filter_names_package(&None, "api"));
}

#[test]
fn test_apply_filter_lists_names() {
    let list = Some("core, api".to_string());
    assert!(filter_selects(&list, "core"));
    assert!(filter_selects(&list, "api"));
    assert!(!filter_selects(&list, "web"));
    assert!(filter_selects(&None, "web"));
    let packages = vec![
        pkg("api", "2.0.0", PackageType::Rust),
        pkg("core", "1.0.0", PackageType::Rust),
        pkg("web", "3.0.0", PackageType::Rust),
    ];
    let changesets = vec![cs(&["core", "api", "web"], ChangeType::Patch, "a")];
    let updates = plan_version_updates(&packages, &changesets, &Some("core,api".to_string()));
    let names: Vec<&str> = updates.iter().map(|u| u.package.as_str()).collect();
    assert_eq!(names.len(), 2);
    assert!(names.contains(&"core") && names.contains(&"api"));
}

#[test]
fn test_go_version_file_in_toml_or_json() {
    let toml_text = "[app]\nversion = \"0.3.0\"\n";
    let v = read_version(toml_text, "release.toml", &PackageType::Go, "app.version").unwrap();
    assert_eq!(v.to_string(), "0.3.0");
    let out = update_version(toml_text, "release.toml", &PackageType::Go, "app.version", &SemVer::new(0, 4, 0)).unwrap();
    let back = read_version(out.as_str(), "release.toml", &PackageType::Go, "app.version").unwrap();
    assert_eq!(back.to_string(), "0.4.0");
    let json_text = "{\"version\": \"2.0.1\", \"name\": \"svc\"}";
    let v = read_version(json_text, "meta.json", &PackageType::Go, "version").unwrap();
    assert_eq!(v.to_string(), "2.0.1");
    let out = update_version(json_text, "meta.json", &PackageType::Go, "version", &SemVer::new(2, 0, 2)).unwrap();
    let j: serde_json::Value = serde_json::from_str(&out).unwrap();
    assert_eq!(j["version"], "2.0.2");
    assert_eq!(j["name"], "svc");
}

#[test]
fn test_status_announces_applied_versions() {
    let packages = vec![
        pkg("core", "1.4.2", PackageType::Rust),
        pkg("web", "0.0.9", PackageType::Node),
    ];
    let changesets = vec![
        cs(&["web"], ChangeType::Patch, "a"),
        cs(&["core", "web"], ChangeType::Minor, "b"),
    ];
    let rows = plan_status(&packages, &changesets, &None);
    let updates = plan_version_updates(&packages, &changesets, &None);
    for u in &updates {
        let row = rows.iter().find(|r| r.name == u.package).unwrap();
        let (next, _) = row.next.as_ref().unwrap();
        assert_eq!(next, &u.next);
        assert_eq!(row.current, u.current);
    }
    assert_eq!(updates.len(), 2);
}

// ----- changelog -----

#[test]
fn test_render_changelog_new_file() {
    let changesets = vec![
        cs(&["a", "b"], ChangeType::Major, "Big"),
        cs(&["a"], ChangeType::Minor, "Feat"),
        cs(&["b"], ChangeType::Patch, "Fix"),
    ];
    let updates = vec![VersionUpdate {
        package: "a".to_string(),
        current: SemVer::new(1, 0, 0),
        next: SemVer::new(2, 0, 0),
    }];
    let text = render_changelog(&None, &day(2024, 12, 1), &changesets, &updates);
    let expected = "# Changelog\n\nAll notable changes to this project will be documented in this file.\n\n\
## [2.0.0] - 2024-12-01\n\n\
### Version Updates\n\n- **a**: 1.0.0 → 2.0.0\n\n\
### Breaking Changes\n\n- Big\n  - Affects: a, b\n\n\
### Added\n\n- Feat\n\n\
### Fixed\n\n- Fix\n\n";
    assert_eq!(text, expected);
}

#[test]
fn test_render_changelog_inserts_before_releases() {
    let existing = Some("# Changelog\n\nIntro\n\n## [old] - old\n\n- Old item\n".to_string());
    let changesets = vec![cs(&["a"], ChangeType::Patch, "New fix")];
    let updates: Vec<VersionUpdate> = Vec::new();
    let text = render_changelog(&existing, &day(2025, 1, 31), &changesets, &updates);
    assert_eq!(
        text,
        "# Changelog\n\nIntro\n\n## [2025-01-31] - 2025-01-31\n\n### Fixed\n\n- New fix\n\n## [old] - old\n\n- Old item\n"
    );
}

#[test]
fn test_changelog_keeps_existing_lines() {
    let existing = chars_of("line one\r\n## [x]\nline three");
    let entry = chars_of("ENTRY\n");
    let out = string_of(&insert_entry(&existing, &entry));
    assert_eq!(out, "line one\nENTRY\n## [x]\nline three\n");
    let entry_only = render_entry(&day(2024, 1, 1), &vec![], &vec![]);
    assert_eq!(string_of(&entry_only), "## [2024-01-01] - 2024-01-01\n\n");
    let two = vec![
        VersionUpdate { package: "a".to_string(), current: SemVer::new(1, 0, 0), next: SemVer::new(1, 1, 0) },
        VersionUpdate { package: "b".to_string(), current: SemVer::new(0, 1, 0), next: SemVer::new(0, 1, 1) },
    ];
    let heading = string_of(&render_entry(&day(2024, 1, 1), &vec![], &two));
    assert!(heading.starts_with("## [2024-01-01] - 2024-01-01\n\n### Version Updates\n\n- **a**: 1.0.0 → 1.1.0\n- **b**: 0.1.0 → 0.1.1\n\n"));
}

// ----- publishing -----

#[test]
fn test_publish_commands() {
    let mut config = Config::default();
    let none: Option<String> = None;
    assert_eq!(get_publish_command(&PackageType::Rust, &config, "core", &none), "cargo publish");
    assert_eq!(get_publish_command(&PackageType::Node, &config, "web", &none), "npm publish");
    assert_eq!(get_publish_command(&PackageType::Python, &config, "py", &none), "poetry publish");
    assert_eq!(get_publish_command(&PackageType::Go, &config, "go", &none), "go mod publish");
    assert_eq!(get_publish_command(&PackageType::Java, &config, "j", &none), "mvn deploy");
    assert_eq!(get_publish_command(&PackageType::Dotnet, &config, "d", &none), "dotnet nuget push");
    let custom = PackageType::Custom { command: "make publish".to_string() };
    assert_eq!(get_publish_command(&custom, &config, "c", &none), "make publish");

    config.publish.rust.registry = Some("https://crates.io".to_string());
    config.publish.python.command = Some("twine upload dist/*".to_string());
    assert_eq!(
        get_publish_command(&PackageType::Rust, &config, "core", &none),
        "cargo publish --registry https://crates.io"
    );
    let given = Some("custom-registry.com".to_string());
    assert_eq!(
        get_publish_command(&PackageType::Rust, &config, "core", &given),
        "cargo publish --registry custom-registry.com"
    );
    assert_eq!(
        get_publish_command(&PackageType::Node, &config, "web", &given),
        "npm publish --registry custom-registry.com"
    );
    assert_eq!(get_publish_command(&PackageType::Python, &config, "py", &given), "twine upload dist/*");

    config.publish.node.command = Some("yarn npm publish".to_string());
    assert_eq!(get_publish_command(&PackageType::Node, &config, "web", &none), "yarn npm publish");
    config.publish.node.command = None;

    config.publish.packages.push(PackagePublishConfig { name: "web".to_string(), commands: vec![] });
    config.publish.packages.push(PackagePublishConfig {
        name: "web".to_string(),
        commands: vec!["npm run build".to_string(), "npm publish --registry https://npm.company.com".to_string()],
    });
    assert_eq!(
        get_publish_command(&PackageType::Node, &config, "web", &given),
        "npm run build && npm publish --registry https://npm.company.com"
    );
}

#[test]
fn test_select_for_publish() {
    let packages = vec![
        pkg("a", "1.0.0", PackageType::Rust),
        pkg("b", "1.0.0", PackageType::Rust),
        pkg("c", "1.0.0", PackageType::Rust),
    ];
    let all = select_for_publish(packages.clone(), &None);
    assert_eq!(all.len(), 3);
    let some = select_for_publish(packages, &Some(" c , a".to_string()));
    let names: Vec<&str> = some.iter().map(|p| p.name.as_str()).collect();
    assert_eq!(names, vec!["a", "c"]);
}

// ----- listing -----

#[test]
fn test_name_column_width() {
    assert_eq!(name_column_width(&vec![]), 0);
    let packages = vec![pkg("ab", "1.0.0", PackageType::Rust), pkg("été", "1.0.0", PackageType::Rust)];
    assert_eq!(name_column_width(&packages), 5);
}

// ----- interactive choices -----

#[test]
fn test_interactive_choices() {
    assert_eq!(package_choices(&vec![]).unwrap_err(), InteractiveError::NoPackages);
    assert_eq!(InteractiveError::NoPackages.message(), "No packages found");
    let packages = vec![pkg("x", "1.0.0", PackageType::Rust), pkg("y", "1.0.0", PackageType::Rust)];
    assert_eq!(package_choices(&packages).unwrap(), vec!["x", "y"]);
    assert_eq!(change_type_choices(), vec!["patch", "minor", "major"]);
}

#[test]
fn test_finish_interactive() {
    let names = vec!["x".to_string(), "y".to_string()];
    let t = day(2024, 5, 6);
    assert!(finish_interactive(&names, &vec![], 0, "text", t).unwrap().is_none());
    let e = finish_interactive(&names, &vec![1], 0, "   ", t).unwrap_err();
    assert_eq!(e, InteractiveError::EmptyDescription);
    assert_eq!(e.message(), "Description cannot be empty");
    let c = finish_interactive(&names, &vec![1, 0], 1, "  Add it \n", t).unwrap().unwrap();
    assert_eq!(c.packages, vec!["y", "x"]);
    assert_eq!(c.change_type, ChangeType::Minor);
    assert_eq!(c.description, "Add it");
    assert_eq!(c.created_at, t);
    let c = finish_interactive(&names, &vec![0], 2, "x", t).unwrap().unwrap();
    assert_eq!(c.change_type, ChangeType::Major);
}

// ----- reading versions -----

#[test]
fn test_extract_versions_from_sources() {
    assert_eq!(extract_python_version("__version__ = '0.4.1'\n"), Some("0.4.1".to_string()));
    assert_eq!(
        extract_python_version("# __version__ is set below\n__version__ = \"1.2.3\""),
        Some("1.2.3".to_string())
    );
    assert_eq!(extract_python_version("VERSION = \"1.0.0\""), None);
    assert_eq!(extract_go_version("const Version = \"0.9.0\"\r\n"), Some("0.9.0".to_string()));
    assert_eq!(extract_go_version("var Version string"), None);
}

#[test]
fn test_read_version_errors() {
    let rust = PackageType::Rust;
    assert_eq!(
        read_version("[package]\nname = \"x\"\n", "Cargo.toml", &rust, "package.version").unwrap_err(),
        DetectError::Missing("Failed to read version from Cargo.toml".to_string())
    );
    assert_eq!(
        read_version("[package]\nversion = \"x.y\"\n", "Cargo.toml", &rust, "package.version").unwrap_err(),
        DetectError::Invalid("Invalid version in Cargo.toml".to_string())
    );
    assert_eq!(
        read_version("not = [valid", "Cargo.toml", &rust, "package.version").unwrap_err(),
        DetectError::Syntax
    );
    assert_eq!(
        read_version("{}", "package.json", &PackageType::Node, "version").unwrap_err(),
        DetectError::Missing("Failed to read version from package.json".to_string())
    );
    assert_eq!(
        read_version("x = 1\n", "__init__.py", &PackageType::Python, "__version__").unwrap_err(),
        DetectError::Missing("Failed to read Python version".to_string())
    );
    assert_eq!(
        read_version("__version__ = 'bad'\n", "__init__.py", &PackageType::Python, "__version__").unwrap_err(),
        DetectError::Invalid("Invalid version in __init__.py".to_string())
    );
    assert_eq!(
        read_version("<project/>", "pom.xml", &PackageType::Java, "project.version").unwrap_err(),
        DetectError::Missing("Unable to parse version file".to_string())
    );
    assert_eq!(
        read_version("{\"a\": {\"v\": \"1\"}}", "x.json", &PackageType::Java, "a.v").unwrap_err(),
        DetectError::Invalid("Invalid version in JSON file".to_string())
    );
}

#[test]
fn test_read_version_nested_paths() {
    let v = read_version("[a.b]\nversion = \"3.4.5\"\n", "v.toml", &PackageType::Dotnet, "a.b.version")
        .unwrap();
    assert_eq!(v.to_string(), "3.4.5");
    let v = read_version("{\"meta\": {\"version\": \"0.0.7\"}}", "v.json", &PackageType::Java, "meta.version")
        .unwrap();
    assert_eq!(v.to_string(), "0.0.7");
    assert_eq!(
        read_version("[a]\nx = 1\n", "v.toml", &PackageType::Java, "a.version").unwrap_err(),
        DetectError::Missing("Failed to read version from TOML file".to_string())
    );
}

// ----- writing versions -----

#[test]
fn test_update_version_errors() {
    let v = SemVer::new(2, 0, 0);
    assert_eq!(
        update_python_init_version("name = 'x'\n", &v).unwrap_err(),
        UpdateError::NoInitVersion
    );
    assert_eq!(
        update_version("[package]\nname = \"x\"\n", "Cargo.toml", &PackageType::Rust, "package.version", &v)
            .unwrap_err(),
        UpdateError::IndexMissing
    );
    assert_eq!(
        update_version("not toml [", "Cargo.toml", &PackageType::Rust, "package.version", &v).unwrap_err(),
        UpdateError::Syntax
    );
    assert_eq!(
        update_version("[1, 2]", "package.json", &PackageType::Node, "version", &v).unwrap_err(),
        UpdateError::NotIndexable
    );
    assert_eq!(
        update_version("{", "package.json", &PackageType::Node, "version", &v).unwrap_err(),
        UpdateError::Syntax
    );
    assert_eq!(
        update_version("[project]\nname = \"x\"\n", "pyproject.toml", &PackageType::Python, "tool.poetry.version", &v)
            .unwrap_err(),
        UpdateError::NotFound("tool".to_string())
    );
    assert_eq!(
        update_version("name = \"x\"\n", "pyproject.toml", &PackageType::Python, "name.version", &v)
            .unwrap_err(),
        UpdateError::NotTable
    );
    assert_eq!(
        update_version("{\"a\": \"s\"}", "v.json", &PackageType::Java, "a.version", &v).unwrap_err(),
        UpdateError::NotObject
    );
    assert_eq!(
        update_version("<project/>", "pom.xml", &PackageType::Java, "project.version", &v).unwrap_err(),
        UpdateError::Unrecognized
    );
}

#[test]
fn test_update_version_json_null_and_nested() {
    let v = SemVer::new(1, 2, 3);
    let out = update_version("null", "package.json", &PackageType::Node, "version", &v).unwrap();
    assert_eq!(out, "{\n  \"version\": \"1.2.3\"\n}");
    let out = update_version("{\"meta\": {\"version\": \"0.1.0\"}}", "v.json", &PackageType::Java, "meta.version", &v)
        .unwrap();
    let back = read_version(out.as_str(), "v.json", &PackageType::Java, "meta.version").unwrap();
    assert_eq!(back, v);
}

#[test]
fn test_update_python_init_keeps_other_lines() {
    let content = "# pkg\n__version__='0.1.0'\nx = 1";
    let out = update_python_init_version(content, &SemVer::new(0, 2, 0)).unwrap();
    assert_eq!(out, "# pkg\n__version__= '0.2.0'\nx = 1");
    assert_eq!(extract_python_version(out.as_str()), Some("0.2.0".to_string()));
}

// ----- documents -----

#[test]
fn test_document_set_then_read() {
    let doc: Node<u8> = Node::Table(vec![
        ("name".to_string(), Node::Str("x".to_string())),
        ("inner".to_string(), Node::Table(vec![("n".to_string(), Node::Other(7))])),
    ]);
    let path = split_path("inner.version");
    assert_eq!(path.len(), 2);
    let doc = set_path(doc, &path, 0, Node::Str("9.9.9".to_string())).unwrap();
    assert_eq!(doc.text_at(&path), Some("9.9.9".to_string()));
    assert_eq!(doc.text_at(&path_of(&["name"])), Some("x".to_string()));
    assert!(doc.get_path(&path_of(&["inner", "n"])).is_some());
    let bad = set_path(doc, &path_of(&["missing", "v"]), 0, Node::Null).unwrap_err();
    assert_eq!(bad, SetError::NotFound("missing".to_string()));
}

// ----- detection helpers -----

#[test]
fn test_placeholder_and_manifest_choice() {
    let p = placeholder_package("svc", &Some("svc".to_string()), PackageType::Java, "svc/pom.xml", "project.version")
        .unwrap();
    assert_eq!(p.current_version.to_string(), "0.0.0");
    assert_eq!(p.version_path, "project.version");
    assert_eq!(
        placeholder_package("/", &None, PackageType::Java, "pom.xml", "project.version").unwrap_err(),
        DetectError::NoDirName
    );
    assert_eq!(choose_manifest(true, true, false, false, false, false, false), Some(Manifest::Cargo));
    assert_eq!(choose_manifest(false, false, true, true, false, false, false), Some(Manifest::Pyproject));
    assert_eq!(choose_manifest(false, false, false, false, false, false, true), Some(Manifest::GradleKts));
    assert_eq!(choose_manifest(false, false, false, false, false, false, false), None);
    assert!(name_lt(&chars_of("a-b"), &chars_of("a_b")));
    assert!(!name_lt(&chars_of("b"), &chars_of("B")));
    assert_eq!(trim_str("  hi \t"), "hi");
}

#[test]
fn test_update_go_version() {
    let version_go = "package main\n\nconst Version = \"1.3.0\"\nconst AppName = \"MyApp\"\n";
    let out = update_version(version_go, "version.go", &PackageType::Go, "Version", &SemVer::new(1, 4, 0)).unwrap();
    assert_eq!(out, "package main\n\nconst Version = \"1.4.0\"\nconst AppName = \"MyApp\"");
    assert_eq!(extract_go_version(out.as_str()), Some("1.4.0".to_string()));
    let back = read_version(out.as_str(), "version.go", &PackageType::Go, "Version").unwrap();
    assert_eq!(back.to_string(), "1.4.0");
    assert_eq!(
        update_go_version("module x\n", &SemVer::new(1, 0, 0)).unwrap_err(),
        UpdateError::NoGoVersion
    );
}

#[test]
fn test_update_keeps_other_values() {
    let cargo = "[package]\nname = \"keep\"\nversion = \"1.0.0\"\n\n[dependencies]\nserde = \"1.0\"\n";
    let out = update_version(cargo, "Cargo.toml", &PackageType::Rust, "package.version", &SemVer::new(1, 0, 1)).unwrap();
    let v: toml::Value = toml::from_str(&out).unwrap();
    assert_eq!(v["package"]["version"].as_str(), Some("1.0.1"));
    assert_eq!(v["package"]["name"].as_str(), Some("keep"));
    assert_eq!(v["dependencies"]["serde"].as_str(), Some("1.0"));
}

#[test]
fn test_update_gives_back_the_document() {
    let cargo = "[package]\nname = \"keep\"\nversion = \"1.0.0\"\nkeywords = [\"a\", \"b\"]\npublish = false\n\n[[bin]]\nname = \"x\"\n\n[features]\ndefault = [\"std\"]\nlevel = 3\n";
    let out = update_version(cargo, "Cargo.toml", &PackageType::Rust, "package.version", &SemVer::new(2, 0, 0)).unwrap();
    let mut before: toml::Value = toml::from_str(cargo).unwrap();
    before["package"]["version"] = toml::Value::String("2.0.0".to_string());
    let after: toml::Value = toml::from_str(&out).unwrap();
    assert_eq!(after, before);
    let json = "{\"name\": \"w\", \"version\": \"0.1.0\", \"files\": [\"a\", {\"b\": null}], \"private\": true}";
    let out = update_version(json, "package.json", &PackageType::Node, "version", &SemVer::new(0, 2, 0)).unwrap();
    let mut before: serde_json::Value = serde_json::from_str(json).unwrap();
    before["version"] = serde_json::Value::String("0.2.0".to_string());
    let after: serde_json::Value = serde_json::from_str(&out).unwrap();
    assert_eq!(after, before);
}

#[test]
fn test_plan_sources_manual_first() {
    let manual = vec!["packages/core".to_string(), "packages/core".to_string()];
    let matched = vec![
        "packages/core".to_string(),
        "packages/web".to_string(),
        "packages/web".to_string(),
    ];
    let (m, f) = plan_sources(&manual, &matched);
    assert_eq!(m, vec![true, false]);
    assert_eq!(f, vec![false, true, false]);
}

#[test]
fn test_sort_texts() {
    let names = vec![
        "20240102000000-bbbb.md".to_string(),
        "20240101000000-cccc.md".to_string(),
        "20240102000000-aaaa.md".to_string(),
    ];
    assert_eq!(
        sort_texts(names),
        vec!["20240101000000-cccc.md", "20240102000000-aaaa.md", "20240102000000-bbbb.md"]
    );
}
