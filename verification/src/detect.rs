//! Package detection: reading names and versions out of the files that
//! different ecosystems keep them in.
use vstd::prelude::*;

use crate::changeset::opt_text;
use crate::document::{
    as_text, child, json_document, node_view, parse_json, parse_toml, path_of, path_parts,
    split_path, text_at, toml_document, Node, NodeView,
};
use crate::semver_value::{semver_parse, triple_text, SemVer};
use crate::text::{
    strip_cr, occurs_at, lemma_index_of_is, chars_eq_str, chars_of, contains, contains_seq, find_char, index_of, last_index_of,
    lemma_index_of, lemma_last_index_of, lines, lines_vec, rfind_char, slice, string_of, views,
};
use crate::{ascii_lower, ascii_lower_vec, Package, PackageType};

verus! {

// ---------------------------------------------------------------------------
// Package types named in the configuration
// ---------------------------------------------------------------------------

/// The package type a configuration names, in any case of letters.
pub open spec fn package_type_named(s: Seq<char>) -> Option<PackageType> {
    let l = ascii_lower(s);
    if l == "rust"@ {
        Some(PackageType::Rust)
    } else if l == "node"@ || l == "nodejs"@ {
        Some(PackageType::Node)
    } else if l == "python"@ {
        Some(PackageType::Python)
    } else if l == "go"@ {
        Some(PackageType::Go)
    } else if l == "java"@ {
        Some(PackageType::Java)
    } else if l == "dotnet"@ || l == ".net"@ {
        Some(PackageType::Dotnet)
    } else {
        None
    }
}

/// A package type that could not be read from the configuration.
#[derive(Debug, PartialEq, Eq)]
pub struct UnknownPackageType {
    pub text: String,
}

impl UnknownPackageType {
    /// The message: `Unknown package type: <text>`.
    pub fn message(&self) -> (r: String)
        ensures
            r@ == "Unknown package type: "@ + self.text@,
    {
        let mut v = chars_of("Unknown package type: ");
        crate::text::extend_str(&mut v, self.text.as_str());
        string_of(&v)
    }
}

/// Reads the package type of a package declared in the configuration. Letter
/// case is ignored (lower-casing gives one of the names exactly when ASCII
/// lower-casing does, for these names).
pub fn parse_package_type(type_str: &str) -> (r: Result<PackageType, UnknownPackageType>)
    ensures
        match r {
            Ok(t) => package_type_named(type_str@) == Some(t),
            Err(e) => package_type_named(type_str@) is None && e.text@ == type_str@,
        },
{
    let v = chars_of(type_str);
    let l = ascii_lower_vec(&v);
    if chars_eq_str(&l, "rust") {
        Ok(PackageType::Rust)
    } else if chars_eq_str(&l, "node") || chars_eq_str(&l, "nodejs") {
        Ok(PackageType::Node)
    } else if chars_eq_str(&l, "python") {
        Ok(PackageType::Python)
    } else if chars_eq_str(&l, "go") {
        Ok(PackageType::Go)
    } else if chars_eq_str(&l, "java") {
        Ok(PackageType::Java)
    } else if chars_eq_str(&l, "dotnet") || chars_eq_str(&l, ".net") {
        Ok(PackageType::Dotnet)
    } else {
        Err(UnknownPackageType { text: String::from_str(type_str) })
    }
}

// ---------------------------------------------------------------------------
// Versions written in source files
// ---------------------------------------------------------------------------

/// The text between the first and the last `q` of a line, when they differ.
pub open spec fn quoted(line: Seq<char>, q: char) -> Option<Seq<char>> {
    match (index_of(line, q), last_index_of(line, q)) {
        (Some(s), Some(e)) => if s < e {
            Some(line.subrange((s + 1) as int, e as int))
        } else {
            None
        },
        _ => None,
    }
}

/// The version a line of `__init__.py` gives: a line that mentions
/// `__version__` and quotes a text in double quotes, or else in single quotes.
pub open spec fn python_line_version(line: Seq<char>) -> Option<Seq<char>> {
    if !contains(line, "__version__"@) {
        None
    } else if index_of(line, '"') is Some {
        quoted(line, '"')
    } else {
        quoted(line, '\'')
    }
}

/// The version a line of `version.go` gives: a line that mentions `Version`
/// and `=` and quotes a text in double quotes.
pub open spec fn go_line_version(line: Seq<char>) -> Option<Seq<char>> {
    if contains(line, "Version"@) && index_of(line, '=') is Some {
        quoted(line, '"')
    } else {
        None
    }
}

/// The first version that a line of `ls` gives, by `go` (Go) or not (Python).
pub open spec fn first_line_version(ls: Seq<Seq<char>>, go: bool) -> Option<Seq<char>>
    decreases ls.len(),
{
    if ls.len() == 0 {
        None
    } else {
        let here = if go {
            go_line_version(ls[0])
        } else {
            python_line_version(ls[0])
        };
        match here {
            Some(v) => Some(v),
            None => first_line_version(ls.drop_first(), go),
        }
    }
}

/// A carriage return at the end of a line changes nothing of the version
/// the line gives.
pub proof fn lemma_python_line_version_strip_cr(x: Seq<char>)
    ensures
        python_line_version(strip_cr(x)) == python_line_version(x),
{
    if x.len() > 0 && x.last() == '\r' {
        let y = x.drop_last();
        let p = "__version__"@;
        reveal_strlit("__version__");
        assert(p.len() == 11 && p[10] == '_');
        assert(contains(y, p) == contains(x, p)) by {
            if contains(y, p) {
                let i = choose|i: int| occurs_at(y, p, i);
                assert(x.subrange(i, i + 11) =~= y.subrange(i, i + 11));
                assert(occurs_at(x, p, i));
            }
            if contains(x, p) {
                let i = choose|i: int| occurs_at(x, p, i);
                if i + 11 == x.len() {
                    assert(x.subrange(i, i + 11)[10] == x.last());
                }
                assert(y.subrange(i, i + 11) =~= x.subrange(i, i + 11));
                assert(occurs_at(y, p, i));
            }
        }
        lemma_same_quotes(x, '"');
        lemma_same_quotes(x, '\'');
    }
}

/// Dropping a final carriage return keeps where `q` occurs first and last, and
/// what it quotes.
proof fn lemma_same_quotes(x: Seq<char>, q: char)
    requires
        x.len() > 0,
        x.last() == '\r',
        q != '\r',
    ensures
        index_of(x.drop_last(), q) == index_of(x, q),
        last_index_of(x.drop_last(), q) == last_index_of(x, q),
        quoted(x.drop_last(), q) == quoted(x, q),
{
    let y = x.drop_last();
    lemma_index_of(x, q);
    match index_of(x, q) {
        Some(i) => {
            assert(i < y.len());
            lemma_index_of_is(y, q, i as int);
        },
        None => {
            crate::text::lemma_index_of_none(y, q);
        },
    }
    lemma_last_index_of(y, q);
    match (index_of(x, q), last_index_of(x, q)) {
        (Some(a), Some(b)) => {
            if a < b {
                assert(y.subrange((a + 1) as int, b as int) =~= x.subrange((a + 1) as int, b as int));
            }
        },
        _ => {},
    }
}

/// The first version that lines give is that of the first line giving one.
pub proof fn lemma_first_line_version_at(ls: Seq<Seq<char>>, k: int, v: Seq<char>)
    requires
        0 <= k < ls.len(),
        forall|j: int| 0 <= j < k ==> python_line_version(#[trigger] ls[j]) is None,
        python_line_version(ls[k]) == Some(v),
    ensures
        first_line_version(ls, false) == Some(v),
    decreases k,
{
    if k > 0 {
        assert forall|j: int| 0 <= j < k - 1 implies python_line_version(
            #[trigger] ls.drop_first()[j],
        ) is None by {
            assert(ls.drop_first()[j] == ls[j + 1]);
        }
        assert(python_line_version(ls[0]) is None);
        lemma_first_line_version_at(ls.drop_first(), k - 1, v);
    }
}

fn quoted_in(line: &Vec<char>, q: char) -> (r: Option<Vec<char>>)
    ensures
        match r {
            Some(v) => quoted(line@, q) == Some(v@),
            None => quoted(line@, q) is None,
        },
{
    proof {
        lemma_last_index_of(line@, q);
    }
    match find_char(line, q) {
        None => None,
        Some(s) => match rfind_char(line, q) {
            None => None,
            Some(e) => {
                if s < e {
                    Some(slice(line, s + 1, e))
                } else {
                    None
                }
            },
        },
    }
}

fn line_version(line: &Vec<char>, go: bool) -> (r: Option<Vec<char>>)
    ensures
        match r {
            Some(v) => (if go {
                go_line_version(line@)
            } else {
                python_line_version(line@)
            }) == Some(v@),
            None => (if go {
                go_line_version(line@)
            } else {
                python_line_version(line@)
            }) is None,
        },
{
    if go {
        let key = chars_of("Version");
        if contains_seq(line, &key) && find_char(line, '=').is_some() {
            quoted_in(line, '"')
        } else {
            None
        }
    } else {
        let key = chars_of("__version__");
        if !contains_seq(line, &key) {
            None
        } else if find_char(line, '"').is_some() {
            quoted_in(line, '"')
        } else {
            quoted_in(line, '\'')
        }
    }
}

fn first_version(content: &str, go: bool) -> (r: Option<String>)
    ensures
        match r {
            Some(v) => first_line_version(lines(content@), go) == Some(v@),
            None => first_line_version(lines(content@), go) is None,
        },
{
    let c = chars_of(content);
    let ls = lines_vec(&c);
    assert(views(ls@).skip(0) =~= views(ls@));
    for i in 0..ls.len()
        invariant
            views(ls@) == lines(content@),
            first_line_version(lines(content@), go) == first_line_version(
                views(ls@).skip(i as int),
                go,
            ),
    {
        assert(views(ls@).skip(i as int)[0] == ls@[i as int]@);
        assert(views(ls@).skip(i as int).drop_first() =~= views(ls@).skip(i + 1));
        match line_version(&ls[i], go) {
            Some(v) => {
                return Some(string_of(&v));
            },
            None => {},
        }
    }
    assert(views(ls@).skip(ls.len() as int).len() == 0);
    None
}

/// The version that `__init__.py` declares: the quoted text on the first line
/// that mentions `__version__` and quotes one.
pub fn extract_python_version(content: &str) -> (r: Option<String>)
    ensures
        match r {
            Some(v) => first_line_version(lines(content@), false) == Some(v@),
            None => first_line_version(lines(content@), false) is None,
        },
{
    first_version(content, false)
}

/// The version that `version.go` declares: the quoted text on the first line
/// that mentions `Version` and `=` and quotes one.
pub fn extract_go_version(content: &str) -> (r: Option<String>)
    ensures
        match r {
            Some(v) => first_line_version(lines(content@), true) == Some(v@),
            None => first_line_version(lines(content@), true) is None,
        },
{
    first_version(content, true)
}

// ---------------------------------------------------------------------------
// Reading versions and packages out of manifests
// ---------------------------------------------------------------------------

/// A version as plain values.
pub type VersionView = (u64, u64, u64, Seq<char>, Seq<char>);

/// Why a version or a package could not be read, as plain values.
pub enum DetectFailure {
    /// The file is not valid TOML or JSON.
    Syntax,
    /// A value that must be there is not; the message says which.
    Missing(Seq<char>),
    /// A version text was refused; the message says where it came from.
    Invalid(Seq<char>),
    /// This version text was refused.
    BadVersion(Seq<char>),
    /// The package's directory has no name to fall back on.
    NoDirName,
}

/// Why a version or a package could not be read.
#[derive(Debug, PartialEq, Eq)]
pub enum DetectError {
    /// The file is not valid TOML or JSON.
    Syntax,
    /// A value that must be there is not; the message says which.
    Missing(String),
    /// A version text was refused; the message says where it came from.
    Invalid(String),
    /// This version text was refused.
    BadVersion(String),
    /// The package's directory has no name to fall back on.
    NoDirName,
}

impl DetectError {
    /// This error as plain values.
    pub open spec fn failure(&self) -> DetectFailure {
        match self {
            DetectError::Syntax => DetectFailure::Syntax,
            DetectError::Missing(m) => DetectFailure::Missing(m@),
            DetectError::Invalid(m) => DetectFailure::Invalid(m@),
            DetectError::BadVersion(v) => DetectFailure::BadVersion(v@),
            DetectError::NoDirName => DetectFailure::NoDirName,
        }
    }
}

/// The version that a version text gives, with the messages for a missing
/// and for a refused text.
pub open spec fn version_of(text: Option<Seq<char>>, missing: Seq<char>, invalid: Seq<char>) -> Result<
    VersionView,
    DetectFailure,
> {
    match text {
        None => Err(DetectFailure::Missing(missing)),
        Some(s) => match semver_parse(s) {
            Some(v) => Ok(v),
            None => Err(DetectFailure::Invalid(invalid)),
        },
    }
}

/// The version a package's version file holds, by package type: `Cargo.toml`
/// at `package.version`, `package.json` at `version`, a Go package's
/// `version.go` by its `Version = "..."` line, `__init__.py` by its `__version__` line,
/// `pyproject.toml` and other TOML or JSON files at the configured dotted
/// path. Maven, Gradle and .NET project files are not read: they are neither
/// TOML nor JSON.
pub open spec fn read_version_outcome(
    content: Seq<char>,
    file_name: Seq<char>,
    t: PackageType,
    version_path: Seq<char>,
) -> Result<VersionView, DetectFailure> {
    match t {
        PackageType::Rust => match toml_document(content) {
            None => Err(DetectFailure::Syntax),
            Some(d) => version_of(
                text_at(d, seq!["package"@, "version"@]),
                "Failed to read version from Cargo.toml"@,
                "Invalid version in Cargo.toml"@,
            ),
        },
        PackageType::Node => match json_document(content) {
            None => Err(DetectFailure::Syntax),
            Some(d) => version_of(
                text_at(d, seq!["version"@]),
                "Failed to read version from package.json"@,
                "Invalid version in package.json"@,
            ),
        },
        PackageType::Go if file_name == "version.go"@ => match first_line_version(
            lines(content),
            true,
        ) {
            Some(s) => version_of(Some(s), seq![], "Invalid version in version.go"@),
            None => Err(DetectFailure::Missing("Failed to read Go version"@)),
        },
        PackageType::Python => if file_name == "__init__.py"@ {
            match first_line_version(lines(content), false) {
                Some(s) => version_of(Some(s), seq![], "Invalid version in __init__.py"@),
                None => Err(DetectFailure::Missing("Failed to read Python version"@)),
            }
        } else {
            match toml_document(content) {
                None => Err(DetectFailure::Syntax),
                Some(d) => version_of(
                    text_at(d, path_parts(version_path)),
                    "Failed to read version from pyproject.toml"@,
                    "Invalid version in pyproject.toml"@,
                ),
            }
        },
        _ => match toml_document(content) {
            Some(d) => version_of(
                text_at(d, path_parts(version_path)),
                "Failed to read version from TOML file"@,
                "Invalid version in TOML file"@,
            ),
            None => match json_document(content) {
                Some(d) => version_of(
                    text_at(d, path_parts(version_path)),
                    "Failed to read version from JSON file"@,
                    "Invalid version in JSON file"@,
                ),
                None => Err(DetectFailure::Missing("Unable to parse version file"@)),
            },
        },
    }
}

fn version_from(text: Option<String>, missing: &str, invalid: &str) -> (r: Result<
    SemVer,
    DetectError,
>)
    ensures
        match version_of(opt_text(text), missing@, invalid@) {
            Ok(v) => r matches Ok(x) && x@ == v,
            Err(f) => r matches Err(e) && e.failure() == f,
        },
{
    match text {
        None => Err(DetectError::Missing(String::from_str(missing))),
        Some(s) => match SemVer::parse(s.as_str()) {
            Some(v) => Ok(v),
            None => Err(DetectError::Invalid(String::from_str(invalid))),
        },
    }
}

/// Reads the version that a version file holds, given its text and its file
/// name.
pub fn read_version(content: &str, file_name: &str, package_type: &PackageType, version_path: &str) -> (r:
    Result<SemVer, DetectError>)
    ensures
        match read_version_outcome(content@, file_name@, *package_type, version_path@) {
            Ok(v) => r matches Ok(x) && x@ == v,
            Err(f) => r matches Err(e) && e.failure() == f,
        },
{
    match package_type {
        PackageType::Rust => match parse_toml(content) {
            None => Err(DetectError::Syntax),
            Some(d) => {
                let path = path_of(&["package", "version"]);
                assert(crate::text::views(path@) =~= seq!["package"@, "version"@]);
                version_from(
                    d.text_at(&path),
                    "Failed to read version from Cargo.toml",
                    "Invalid version in Cargo.toml",
                )
            },
        },
        PackageType::Node => match parse_json(content) {
            None => Err(DetectError::Syntax),
            Some(d) => {
                let path = path_of(&["version"]);
                assert(crate::text::views(path@) =~= seq!["version"@]);
                version_from(
                    d.text_at(&path),
                    "Failed to read version from package.json",
                    "Invalid version in package.json",
                )
            },
        },
        PackageType::Go if chars_eq_str(&chars_of(file_name), "version.go") => match extract_go_version(
            content,
        ) {
            Some(s) => version_from(Some(s), "", "Invalid version in version.go"),
            None => Err(DetectError::Missing(String::from_str("Failed to read Go version"))),
        },
        PackageType::Python => {
            let f = chars_of(file_name);
            if chars_eq_str(&f, "__init__.py") {
                match extract_python_version(content) {
                    Some(s) => version_from(Some(s), "", "Invalid version in __init__.py"),
                    None => Err(DetectError::Missing(String::from_str("Failed to read Python version"))),
                }
            } else {
                match parse_toml(content) {
                    None => Err(DetectError::Syntax),
                    Some(d) => {
                        let path = split_path(version_path);
                        version_from(
                            d.text_at(&path),
                            "Failed to read version from pyproject.toml",
                            "Invalid version in pyproject.toml",
                        )
                    },
                }
            }
        },
        _ => match parse_toml(content) {
            Some(d) => {
                let path = split_path(version_path);
                version_from(
                    d.text_at(&path),
                    "Failed to read version from TOML file",
                    "Invalid version in TOML file",
                )
            },
            None => match parse_json(content) {
                Some(d) => {
                    let path = split_path(version_path);
                    version_from(
                        d.text_at(&path),
                        "Failed to read version from JSON file",
                        "Invalid version in JSON file",
                    )
                },
                None => Err(DetectError::Missing(String::from_str("Unable to parse version file"))),
            },
        },
    }
}

/// A package as plain values: name, directory, type, version file, version
/// path and version.
pub open spec fn package_is(
    p: Package,
    name: Seq<char>,
    dir: Seq<char>,
    t: PackageType,
    file: Seq<char>,
    version_path: Seq<char>,
    v: VersionView,
) -> bool {
    &&& p.name@ == name
    &&& p.path@ == dir
    &&& p.package_type == t
    &&& p.version_file@ == file
    &&& p.version_path@ == version_path
    &&& p.current_version@ == v
}

/// The text held under `key` in a value.
pub open spec fn text_child(n: NodeView, key: Seq<char>) -> Option<Seq<char>> {
    as_text(child(n, key))
}

fn child_text<L>(n: &Node<L>, key: &str) -> (r: Option<String>)
    ensures
        match r {
            Some(s) => text_child(node_view(*n), key@) == Some(s@),
            None => text_child(node_view(*n), key@) is None,
        },
{
    let k = chars_of(key);
    match n.get(&k) {
        Some(Node::Str(s)) => Some(s.clone()),
        _ => None,
    }
}

fn make_package(
    name: String,
    dir: &str,
    t: PackageType,
    file: &str,
    version_path: &str,
    v: SemVer,
) -> (r: Package)
    ensures
        package_is(r, name@, dir@, t, file@, version_path@, v@),
{
    Package {
        name,
        path: String::from_str(dir),
        package_type: t,
        version_file: String::from_str(file),
        version_path: String::from_str(version_path),
        current_version: v,
    }
}

/// What `Cargo.toml` gives: the package's name and version, or the first
/// thing missing.
pub open spec fn rust_outcome(content: Seq<char>) -> Result<(Seq<char>, VersionView), DetectFailure> {
    match toml_document(content) {
        None => Err(DetectFailure::Syntax),
        Some(d) => match child(d, "package"@) {
            None => Err(DetectFailure::Missing("No [package] section in Cargo.toml"@)),
            Some(p) => match text_child(p, "name"@) {
                None => Err(DetectFailure::Missing("No package name in Cargo.toml"@)),
                Some(n) => match text_child(p, "version"@) {
                    None => Err(DetectFailure::Missing("No package version in Cargo.toml"@)),
                    Some(vs) => match semver_parse(vs) {
                        None => Err(DetectFailure::BadVersion(vs)),
                        Some(v) => Ok((n, v)),
                    },
                },
            },
        },
    }
}

/// Reads a Rust package from the text of its `Cargo.toml`.
pub fn detect_rust_package(dir: &str, manifest: &str, content: &str) -> (r: Result<
    Package,
    DetectError,
>)
    ensures
        match rust_outcome(content@) {
            Ok((n, v)) => r matches Ok(p) && package_is(
                p,
                n,
                dir@,
                PackageType::Rust,
                manifest@,
                "package.version"@,
                v,
            ),
            Err(f) => r matches Err(e) && e.failure() == f,
        },
{
    let d = match parse_toml(content) {
        None => {
            return Err(DetectError::Syntax);
        },
        Some(d) => d,
    };
    let key = chars_of("package");
    let p = match d.get(&key) {
        None => {
            return Err(DetectError::Missing(String::from_str("No [package] section in Cargo.toml")));
        },
        Some(p) => p,
    };
    let name = match child_text(p, "name") {
        None => {
            return Err(DetectError::Missing(String::from_str("No package name in Cargo.toml")));
        },
        Some(n) => n,
    };
    let vs = match child_text(p, "version") {
        None => {
            return Err(DetectError::Missing(String::from_str("No package version in Cargo.toml")));
        },
        Some(v) => v,
    };
    match SemVer::parse(vs.as_str()) {
        None => Err(DetectError::BadVersion(vs)),
        Some(v) => Ok(make_package(name, dir, PackageType::Rust, manifest, "package.version", v)),
    }
}

/// The name a package takes: its own, else its directory's.
pub open spec fn name_or_dir(own: Option<Seq<char>>, dir_name: Option<Seq<char>>) -> Option<
    Seq<char>,
> {
    match own {
        Some(n) => Some(n),
        None => dir_name,
    }
}

/// What `package.json` gives: the package's name (its own or its
/// directory's) and version, or the first thing missing.
pub open spec fn node_outcome(content: Seq<char>, dir_name: Option<Seq<char>>) -> Result<
    (Seq<char>, VersionView),
    DetectFailure,
> {
    match json_document(content) {
        None => Err(DetectFailure::Syntax),
        Some(d) => match name_or_dir(text_child(d, "name"@), dir_name) {
            None => Err(DetectFailure::NoDirName),
            Some(n) => match text_child(d, "version"@) {
                None => Err(DetectFailure::Missing("No version in package.json"@)),
                Some(vs) => match semver_parse(vs) {
                    None => Err(DetectFailure::BadVersion(vs)),
                    Some(v) => Ok((n, v)),
                },
            },
        },
    }
}

fn own_or_dir(own: Option<String>, dir_name: &Option<String>) -> (r: Option<String>)
    ensures
        opt_text(r) == name_or_dir(opt_text(own), opt_text(*dir_name)),
{
    match own {
        Some(n) => Some(n),
        None => match dir_name {
            Some(d) => Some(d.clone()),
            None => None,
        },
    }
}

/// Reads a Node.js package from the text of its `package.json`; a package
/// without a name takes its directory's.
pub fn detect_node_package(
    dir: &str,
    dir_name: &Option<String>,
    manifest: &str,
    content: &str,
) -> (r: Result<Package, DetectError>)
    ensures
        match node_outcome(content@, opt_text(*dir_name)) {
            Ok((n, v)) => r matches Ok(p) && package_is(
                p,
                n,
                dir@,
                PackageType::Node,
                manifest@,
                "version"@,
                v,
            ),
            Err(f) => r matches Err(e) && e.failure() == f,
        },
{
    let d = match parse_json(content) {
        None => {
            return Err(DetectError::Syntax);
        },
        Some(d) => d,
    };
    let name = match own_or_dir(child_text(&d, "name"), dir_name) {
        None => {
            return Err(DetectError::NoDirName);
        },
        Some(n) => n,
    };
    let vs = match child_text(&d, "version") {
        None => {
            return Err(DetectError::Missing(String::from_str("No version in package.json")));
        },
        Some(v) => v,
    };
    match SemVer::parse(vs.as_str()) {
        None => Err(DetectError::BadVersion(vs)),
        Some(v) => Ok(make_package(name, dir, PackageType::Node, manifest, "version", v)),
    }
}

/// What one table of `pyproject.toml` (`[project]` or `[tool.poetry]`) gives:
/// nothing when it has no version, else the name and version.
pub open spec fn python_section_outcome(section: NodeView, dir_name: Option<Seq<char>>) -> Result<
    Option<(Seq<char>, VersionView)>,
    DetectFailure,
> {
    match name_or_dir(text_child(section, "name"@), dir_name) {
        None => Err(DetectFailure::NoDirName),
        Some(n) => match text_child(section, "version"@) {
            None => Ok(None),
            Some(vs) => match semver_parse(vs) {
                None => Err(DetectFailure::BadVersion(vs)),
                Some(v) => Ok(Some((n, v))),
            },
        },
    }
}

/// What `pyproject.toml` gives: the version in `[project]`, else in
/// `[tool.poetry]`, with the version path it was found at; nothing when
/// neither has one.
pub open spec fn pyproject_outcome(content: Seq<char>, dir_name: Option<Seq<char>>) -> Result<
    Option<(Seq<char>, VersionView, Seq<char>)>,
    DetectFailure,
> {
    match toml_document(content) {
        None => Err(DetectFailure::Syntax),
        Some(d) => {
            let project: Result<Option<(Seq<char>, VersionView)>, DetectFailure> = match child(
                d,
                "project"@,
            ) {
                Some(pr) => python_section_outcome(pr, dir_name),
                None => Ok(None),
            };
            match project {
                Err(f) => Err(f),
                Ok(Some((n, v))) => Ok(Some((n, v, "project.version"@))),
                Ok(None) => match child(d, "tool"@) {
                    Some(tool) => match child(tool, "poetry"@) {
                        Some(po) => match python_section_outcome(po, dir_name) {
                            Err(f) => Err(f),
                            Ok(Some((n, v))) => Ok(Some((n, v, "tool.poetry.version"@))),
                            Ok(None) => Ok(None),
                        },
                        None => Ok(None),
                    },
                    None => Ok(None),
                },
            }
        },
    }
}

/// A `pyproject.toml` whose `[project]` table gives no version (its name, or
/// else the directory's, resolves, but it holds no version text), or that has
/// no `[project]` table, is the package that `[tool.poetry]` describes: its
/// name, its version, read at `tool.poetry.version`.
pub proof fn law_poetry_version_when_project_has_none(
    content: Seq<char>,
    dir_name: Option<Seq<char>>,
    d: NodeView,
    n: Seq<char>,
    vs: Seq<char>,
    v: VersionView,
)
    requires
        toml_document(content) == Some(d),
        child(d, "project"@) matches Some(pr) ==> name_or_dir(text_child(pr, "name"@), dir_name)
            is Some && text_child(pr, "version"@) is None,
        child(d, "tool"@) matches Some(tool) && child(tool, "poetry"@) matches Some(po) && name_or_dir(
            text_child(po, "name"@),
            dir_name,
        ) == Some(n) && text_child(po, "version"@) == Some(vs),
        semver_parse(vs) == Some(v),
    ensures
        pyproject_outcome(content, dir_name) == Ok::<_, DetectFailure>(
            Some((n, v, "tool.poetry.version"@)),
        ),
{
}

fn python_section<L>(section: &Node<L>, dir_name: &Option<String>) -> (r: Result<
    Option<(String, SemVer)>,
    DetectError,
>)
    ensures
        match python_section_outcome(node_view(*section), opt_text(*dir_name)) {
            Ok(None) => r matches Ok(None),
            Ok(Some((n, v))) => r matches Ok(Some((a, b))) && a@ == n && b@ == v,
            Err(f) => r matches Err(e) && e.failure() == f,
        },
{
    let name = match own_or_dir(child_text(section, "name"), dir_name) {
        None => {
            return Err(DetectError::NoDirName);
        },
        Some(n) => n,
    };
    match child_text(section, "version") {
        None => Ok(None),
        Some(vs) => match SemVer::parse(vs.as_str()) {
            None => Err(DetectError::BadVersion(vs)),
            Some(v) => Ok(Some((name, v))),
        },
    }
}

/// Reads a Python package from the text of its `pyproject.toml`: the version
/// in `[project]`, else in `[tool.poetry]`; `None` when neither has one, in
/// which case `__init__.py` is looked at next.
pub fn python_package_from_pyproject(
    dir: &str,
    dir_name: &Option<String>,
    manifest: &str,
    content: &str,
) -> (r: Result<Option<Package>, DetectError>)
    ensures
        match pyproject_outcome(content@, opt_text(*dir_name)) {
            Ok(None) => r matches Ok(None),
            Ok(Some((n, v, vp))) => r matches Ok(Some(p)) && package_is(
                p,
                n,
                dir@,
                PackageType::Python,
                manifest@,
                vp,
                v,
            ),
            Err(f) => r matches Err(e) && e.failure() == f,
        },
{
    let d = match parse_toml(content) {
        None => {
            return Err(DetectError::Syntax);
        },
        Some(d) => d,
    };
    let key = chars_of("project");
    match d.get(&key) {
        Some(pr) => match python_section(pr, dir_name) {
            Err(e) => {
                return Err(e);
            },
            Ok(Some((n, v))) => {
                return Ok(
                    Some(make_package(n, dir, PackageType::Python, manifest, "project.version", v)),
                );
            },
            Ok(None) => {},
        },
        None => {},
    }
    let tool_key = chars_of("tool");
    match d.get(&tool_key) {
        Some(tool) => {
            let poetry_key = chars_of("poetry");
            match tool.get(&poetry_key) {
                Some(po) => match python_section(po, dir_name) {
                    Err(e) => Err(e),
                    Ok(Some((n, v))) => Ok(
                        Some(
                            make_package(
                                n,
                                dir,
                                PackageType::Python,
                                manifest,
                                "tool.poetry.version",
                                v,
                            ),
                        ),
                    ),
                    Ok(None) => Ok(None),
                },
                None => Ok(None),
            }
        },
        None => Ok(None),
    }
}

/// What `__init__.py` gives: nothing without a version line, else the
/// version, named after the directory.
pub open spec fn init_outcome(content: Seq<char>, dir_name: Option<Seq<char>>) -> Result<
    Option<(Seq<char>, VersionView)>,
    DetectFailure,
> {
    match first_line_version(lines(content), false) {
        None => Ok(None),
        Some(vs) => match semver_parse(vs) {
            None => Err(DetectFailure::BadVersion(vs)),
            Some(v) => match dir_name {
                None => Err(DetectFailure::NoDirName),
                Some(n) => Ok(Some((n, v))),
            },
        },
    }
}

/// Reads a Python package from the text of its `__init__.py`.
pub fn python_package_from_init(
    dir: &str,
    dir_name: &Option<String>,
    init_file: &str,
    content: &str,
) -> (r: Result<Option<Package>, DetectError>)
    ensures
        match init_outcome(content@, opt_text(*dir_name)) {
            Ok(None) => r matches Ok(None),
            Ok(Some((n, v))) => r matches Ok(Some(p)) && package_is(
                p,
                n,
                dir@,
                PackageType::Python,
                init_file@,
                "__version__"@,
                v,
            ),
            Err(f) => r matches Err(e) && e.failure() == f,
        },
{
    match extract_python_version(content) {
        None => Ok(None),
        Some(vs) => match SemVer::parse(vs.as_str()) {
            None => Err(DetectError::BadVersion(vs)),
            Some(v) => match dir_name {
                None => Err(DetectError::NoDirName),
                Some(n) => Ok(
                    Some(
                        make_package(
                            n.clone(),
                            dir,
                            PackageType::Python,
                            init_file,
                            "__version__",
                            v,
                        ),
                    ),
                ),
            },
        },
    }
}

/// The version `0.0.0`.
pub open spec fn zero_version() -> VersionView {
    (0, 0, 0, Seq::empty(), Seq::empty())
}

fn version_zero() -> (r: SemVer)
    ensures
        r@ == zero_version(),
{
    proof {
        reveal_strlit("0.0.0");
        reveal_strlit(".");
        assert("0.0.0"@ =~= triple_text(0, 0, 0));
    }
    match SemVer::parse("0.0.0") {
        Some(v) => v,
        None => {
            assert(false);
            SemVer::new(0, 0, 0)
        },
    }
}

/// What a Go module gives: the version in `version.go` when it declares one,
/// else `0.0.0` recorded against `go.mod` with an empty version path.
pub open spec fn go_outcome(
    dir_name: Option<Seq<char>>,
    go_mod: Seq<char>,
    version_go: Option<(Seq<char>, Seq<char>)>,
) -> Result<(Seq<char>, Seq<char>, Seq<char>, VersionView), DetectFailure> {
    match dir_name {
        None => Err(DetectFailure::NoDirName),
        Some(n) => {
            let found = match version_go {
                Some((file, content)) => match first_line_version(lines(content), true) {
                    Some(vs) => Some((file, vs)),
                    None => None,
                },
                None => None,
            };
            match found {
                Some((file, vs)) => match semver_parse(vs) {
                    None => Err(DetectFailure::BadVersion(vs)),
                    Some(v) => Ok((n, file, "Version"@, v)),
                },
                None => Ok((n, go_mod, seq![], zero_version())),
            }
        },
    }
}

/// Reads a Go package: named after its directory, versioned by
/// `version.go` (its path and text, when it exists) or else `0.0.0`.
pub fn detect_go_package(
    dir: &str,
    dir_name: &Option<String>,
    go_mod: &str,
    version_go: &Option<(String, String)>,
) -> (r: Result<Package, DetectError>)
    ensures
        match go_outcome(
            opt_text(*dir_name),
            go_mod@,
            match version_go {
                Some((f, c)) => Some((f@, c@)),
                None => None,
            },
        ) {
            Ok((n, file, vp, v)) => r matches Ok(p) && package_is(
                p,
                n,
                dir@,
                PackageType::Go,
                file,
                vp,
                v,
            ),
            Err(f) => r matches Err(e) && e.failure() == f,
        },
{
    let name = match dir_name {
        None => {
            return Err(DetectError::NoDirName);
        },
        Some(n) => n.clone(),
    };
    match version_go {
        Some((file, content)) => match extract_go_version(content.as_str()) {
            Some(vs) => {
                return match SemVer::parse(vs.as_str()) {
                    None => Err(DetectError::BadVersion(vs)),
                    Some(v) => Ok(make_package(name, dir, PackageType::Go, file.as_str(), "Version", v)),
                };
            },
            None => {},
        },
        None => {},
    }
    let v = version_zero();
    proof {
        reveal_strlit("");
        assert(""@ =~= Seq::<char>::empty());
    }
    let r = make_package(name, dir, PackageType::Go, go_mod, "", v);
    assert(package_is(r, opt_text(*dir_name)->0, dir@, PackageType::Go, go_mod@, seq![], zero_version()));
    Ok(r)
}

/// A package whose version is not read (Maven, Gradle, .NET): `0.0.0`,
/// named by `name` (the directory's, or the project file's stem for .NET).
pub fn placeholder_package(
    dir: &str,
    name: &Option<String>,
    package_type: PackageType,
    file: &str,
    version_path: &str,
) -> (r: Result<Package, DetectError>)
    ensures
        match opt_text(*name) {
            None => r == Err::<Package, DetectError>(DetectError::NoDirName),
            Some(n) => r matches Ok(p) && package_is(
                p,
                n,
                dir@,
                package_type,
                file@,
                version_path@,
                zero_version(),
            ),
        },
{
    match name {
        None => Err(DetectError::NoDirName),
        Some(n) => {
            let v = version_zero();
            Ok(make_package(n.clone(), dir, package_type, file, version_path, v))
        },
    }
}

/// The manifest that decides what kind of package a directory holds.
#[derive(Debug, Clone, Copy, PartialEq, Eq, Structural)]
pub enum Manifest {
    Cargo,
    PackageJson,
    Pyproject,
    GoMod,
    Pom,
    Gradle,
    GradleKts,
}

/// The manifest looked at, of those present: `Cargo.toml`, `package.json`,
/// `pyproject.toml`, `go.mod`, `pom.xml`, `build.gradle`, `build.gradle.kts`,
/// the first in that order; `None` when none is (a `.csproj` is looked for
/// next).
pub fn choose_manifest(
    cargo: bool,
    package_json: bool,
    pyproject: bool,
    go_mod: bool,
    pom: bool,
    gradle: bool,
    gradle_kts: bool,
) -> (r: Option<Manifest>)
    ensures
        r == if cargo {
            Some(Manifest::Cargo)
        } else if package_json {
            Some(Manifest::PackageJson)
        } else if pyproject {
            Some(Manifest::Pyproject)
        } else if go_mod {
            Some(Manifest::GoMod)
        } else if pom {
            Some(Manifest::Pom)
        } else if gradle {
            Some(Manifest::Gradle)
        } else if gradle_kts {
            Some(Manifest::GradleKts)
        } else {
            None
        },
{
    if cargo {
        Some(Manifest::Cargo)
    } else if package_json {
        Some(Manifest::PackageJson)
    } else if pyproject {
        Some(Manifest::Pyproject)
    } else if go_mod {
        Some(Manifest::GoMod)
    } else if pom {
        Some(Manifest::Pom)
    } else if gradle {
        Some(Manifest::Gradle)
    } else if gradle_kts {
        Some(Manifest::GradleKts)
    } else {
        None
    }
}

// ---------------------------------------------------------------------------
// Ordering packages by name
// ---------------------------------------------------------------------------

/// `a` comes before `b` in the order of `String`: character by character by
/// code point (the order of their UTF-8 bytes), a proper prefix first.
pub open spec fn text_lt(a: Seq<char>, b: Seq<char>) -> bool
    decreases a.len(),
{
    if a.len() == 0 {
        b.len() > 0
    } else if b.len() == 0 {
        false
    } else if a[0] < b[0] {
        true
    } else if a[0] == b[0] {
        text_lt(a.drop_first(), b.drop_first())
    } else {
        false
    }
}

proof fn lemma_text_lt_irreflexive(a: Seq<char>)
    ensures
        !text_lt(a, a),
    decreases a.len(),
{
    if a.len() > 0 {
        lemma_text_lt_irreflexive(a.drop_first());
    }
}

proof fn lemma_text_lt_transitive(a: Seq<char>, b: Seq<char>, c: Seq<char>)
    requires
        text_lt(a, b),
        text_lt(b, c),
    ensures
        text_lt(a, c),
    decreases a.len(),
{
    if a.len() > 0 && b.len() > 0 && c.len() > 0 && a[0] == b[0] && b[0] == c[0] {
        lemma_text_lt_transitive(a.drop_first(), b.drop_first(), c.drop_first());
    }
}

proof fn lemma_text_lt_total(a: Seq<char>, b: Seq<char>)
    ensures
        a == b || text_lt(a, b) || text_lt(b, a),
    decreases a.len(),
{
    if a.len() > 0 && b.len() > 0 && a[0] == b[0] {
        lemma_text_lt_total(a.drop_first(), b.drop_first());
        if a.drop_first() == b.drop_first() {
            assert(a =~= seq![a[0]] + a.drop_first());
            assert(b =~= seq![b[0]] + b.drop_first());
        }
    } else if a.len() == 0 && b.len() == 0 {
        assert(a =~= b);
    }
}

/// Whether `a` comes before `b` in the order of `String`.
pub fn name_lt(a: &Vec<char>, b: &Vec<char>) -> (r: bool)
    ensures
        r == text_lt(a@, b@),
{
    let mut i: usize = 0;
    assert(a@.skip(0) =~= a@);
    assert(b@.skip(0) =~= b@);
    while i < a.len() && i < b.len() && a[i] == b[i]
        invariant
            i <= a.len(),
            i <= b.len(),
            forall|k: int| 0 <= k < i ==> a@[k] == b@[k],
            text_lt(a@, b@) == text_lt(a@.skip(i as int), b@.skip(i as int)),
        decreases a.len() - i,
    {
        proof {
            assert(a@.skip(i as int).drop_first() =~= a@.skip(i + 1));
            assert(b@.skip(i as int).drop_first() =~= b@.skip(i + 1));
        }
        i += 1;
    }
    if i == a.len() {
        i < b.len()
    } else if i == b.len() {
        false
    } else {
        a[i] < b[i]
    }
}

fn name_before(p: &Vec<char>, q: &Package) -> (r: bool)
    ensures
        r == text_lt(p@, q.name@),
{
    let qn = chars_of(q.name.as_str());
    name_lt(p, &qn)
}

/// Packages ordered by name, keeping the order of packages with equal names:
/// the order in which detection lists packages.
pub open spec fn sorted_by_name(ps: Seq<Package>) -> bool {
    forall|k: int, l: int| 0 <= k < l < ps.len() ==> !text_lt(ps[l].name@, ps[k].name@)
}

/// `r` holds the packages of `ps` at the positions `perm` gives, each once,
/// with packages of equal names in their first order.
pub open spec fn stable_arrangement(r: Seq<Package>, ps: Seq<Package>, perm: Seq<int>) -> bool {
    &&& perm.len() == r.len() == ps.len()
    &&& forall|k: int| 0 <= k < perm.len() ==> 0 <= #[trigger] perm[k] < ps.len()
    &&& forall|k: int, l: int| 0 <= k < l < perm.len() ==> perm[k] != perm[l]
    &&& forall|k: int| 0 <= k < r.len() ==> #[trigger] r[k] == ps[perm[k]]
    &&& forall|k: int, l: int|
        0 <= k < l < r.len() && r[k].name@ == r[l].name@ ==> perm[k] < perm[l]
}

/// Orders packages by name; packages of equal names keep their order.
pub fn sort_by_name(packages: Vec<Package>) -> (r: Vec<Package>)
    ensures
        sorted_by_name(r@),
        exists|perm: Seq<int>| stable_arrangement(r@, packages@, perm),
{
    let mut r: Vec<Package> = Vec::new();
    let ghost mut perm: Seq<int> = seq![];
    let n = packages.len();
    let mut src = packages;
    let ghost orig = src@;
    let mut i: usize = 0;
    while i < n
        invariant
            n == orig.len(),
            i <= n,
            src@.len() == n,
            forall|k: int| i <= k < n ==> #[trigger] src@[k] == orig[k],
            r@.len() == i,
            perm.len() == i,
            forall|k: int| 0 <= k < perm.len() ==> 0 <= #[trigger] perm[k] < i,
            forall|k: int, l: int| 0 <= k < l < perm.len() ==> perm[k] != perm[l],
            forall|k: int| 0 <= k < r@.len() ==> #[trigger] r@[k] == orig[perm[k]],
            forall|k: int, l: int|
                0 <= k < l < r@.len() && r@[k].name@ == r@[l].name@ ==> perm[k] < perm[l],
            sorted_by_name(r@),
        decreases n - i,
    {
        let p = src[i].clone();
        let pn = chars_of(p.name.as_str());
        let mut pos: usize = 0;
        while pos < r.len() && !name_before(&pn, &r[pos])
            invariant
                pos <= r@.len(),
                forall|k: int| 0 <= k < pos ==> !text_lt(pn@, #[trigger] r@[k].name@),
            decreases r@.len() - pos,
        {
            pos += 1;
        }
        proof {
            if pos < r@.len() {
                assert(text_lt(pn@, r@[pos as int].name@));
            }
        }
        let ghost old_r = r@;
        let ghost old_perm = perm;
        r.insert(pos, p);
        proof {
            perm = old_perm.insert(pos as int, i as int);
            assert forall|k: int, l: int| 0 <= k < l < r@.len() implies !text_lt(
                r@[l].name@,
                r@[k].name@,
            ) by {
                if k < pos && l == pos {
                } else if k == pos && l > pos {
                    let x = old_r[pos as int].name@;
                    let y = old_r[l - 1].name@;
                    if l - 1 > pos {
                        assert(!text_lt(y, x));
                        lemma_text_lt_total(x, y);
                        if x != y {
                            lemma_text_lt_transitive(pn@, x, y);
                        }
                    }
                    lemma_text_lt_irreflexive(pn@);
                    if text_lt(y, pn@) {
                        lemma_text_lt_transitive(pn@, y, pn@);
                    }
                } else if k < pos && l > pos {
                    assert(!text_lt(old_r[l - 1].name@, old_r[k].name@));
                } else if l < pos {
                } else {
                    assert(!text_lt(old_r[l - 1].name@, old_r[k - 1].name@));
                }
            }
            assert forall|k: int, l: int|
                0 <= k < l < r@.len() && r@[k].name@ == r@[l].name@ implies perm[k] < perm[l] by {
                if k == pos {
                    let y = old_r[l - 1].name@;
                    if l - 1 > pos {
                        let x = old_r[pos as int].name@;
                        assert(!text_lt(y, x));
                        lemma_text_lt_total(x, y);
                        if x != y {
                            lemma_text_lt_transitive(pn@, x, y);
                        }
                    }
                    lemma_text_lt_irreflexive(pn@);
                } else if l == pos {
                } else if k < pos && l > pos {
                } else if l < pos {
                } else {
                }
            }
        }
        i += 1;
    }
    proof {
        assert(stable_arrangement(r@, orig, perm));
    }
    r
}

/// Texts in the order of `String`.
pub open spec fn texts_sorted(ts: Seq<String>) -> bool {
    forall|k: int, l: int| 0 <= k < l < ts.len() ==> !text_lt(ts[l]@, ts[k]@)
}

/// `r` holds the texts of `ts` at the positions `perm` gives, each once, with
/// equal texts in their first order.
pub open spec fn stable_text_arrangement(r: Seq<String>, ts: Seq<String>, perm: Seq<int>) -> bool {
    &&& perm.len() == r.len() == ts.len()
    &&& forall|k: int| 0 <= k < perm.len() ==> 0 <= #[trigger] perm[k] < ts.len()
    &&& forall|k: int, l: int| 0 <= k < l < perm.len() ==> perm[k] != perm[l]
    &&& forall|k: int| 0 <= k < r.len() ==> #[trigger] r[k] == ts[perm[k]]
    &&& forall|k: int, l: int| 0 <= k < l < r.len() && r[k]@ == r[l]@ ==> perm[k] < perm[l]
}

fn text_before(p: &Vec<char>, q: &String) -> (r: bool)
    ensures
        r == text_lt(p@, q@),
{
    let qn = chars_of(q.as_str());
    name_lt(p, &qn)
}

/// Orders texts (the names of the pending changeset files, which order them);
/// equal texts keep their order.
pub fn sort_texts(texts: Vec<String>) -> (r: Vec<String>)
    ensures
        texts_sorted(r@),
        exists|perm: Seq<int>| stable_text_arrangement(r@, texts@, perm),
{
    let mut r: Vec<String> = Vec::new();
    let ghost mut perm: Seq<int> = seq![];
    let n = texts.len();
    let mut src = texts;
    let ghost orig = src@;
    let mut i: usize = 0;
    while i < n
        invariant
            n == orig.len(),
            i <= n,
            src@.len() == n,
            forall|k: int| i <= k < n ==> #[trigger] src@[k] == orig[k],
            r@.len() == i,
            perm.len() == i,
            forall|k: int| 0 <= k < perm.len() ==> 0 <= #[trigger] perm[k] < i,
            forall|k: int, l: int| 0 <= k < l < perm.len() ==> perm[k] != perm[l],
            forall|k: int| 0 <= k < r@.len() ==> #[trigger] r@[k] == orig[perm[k]],
            forall|k: int, l: int|
                0 <= k < l < r@.len() && r@[k]@ == r@[l]@ ==> perm[k] < perm[l],
            texts_sorted(r@),
        decreases n - i,
    {
        let p = src[i].clone();
        let pn = chars_of(p.as_str());
        let mut pos: usize = 0;
        while pos < r.len() && !text_before(&pn, &r[pos])
            invariant
                pos <= r@.len(),
                forall|k: int| 0 <= k < pos ==> !text_lt(pn@, #[trigger] r@[k]@),
            decreases r@.len() - pos,
        {
            pos += 1;
        }
        proof {
            if pos < r@.len() {
                assert(text_lt(pn@, r@[pos as int]@));
            }
        }
        let ghost old_r = r@;
        let ghost old_perm = perm;
        r.insert(pos, p);
        proof {
            perm = old_perm.insert(pos as int, i as int);
            assert forall|k: int, l: int| 0 <= k < l < r@.len() implies !text_lt(
                r@[l]@,
                r@[k]@,
            ) by {
                if k < pos && l == pos {
                } else if k == pos && l > pos {
                    let x = old_r[pos as int]@;
                    let y = old_r[l - 1]@;
                    if l - 1 > pos {
                        assert(!text_lt(y, x));
                        lemma_text_lt_total(x, y);
                        if x != y {
                            lemma_text_lt_transitive(pn@, x, y);
                        }
                    }
                    lemma_text_lt_irreflexive(pn@);
                    if text_lt(y, pn@) {
                        lemma_text_lt_transitive(pn@, y, pn@);
                    }
                } else if k < pos && l > pos {
                    assert(!text_lt(old_r[l - 1]@, old_r[k]@));
                } else if l < pos {
                } else {
                    assert(!text_lt(old_r[l - 1]@, old_r[k - 1]@));
                }
            }
            assert forall|k: int, l: int|
                0 <= k < l < r@.len() && r@[k]@ == r@[l]@ implies perm[k] < perm[l] by {
                if k == pos {
                    let y = old_r[l - 1]@;
                    if l - 1 > pos {
                        let x = old_r[pos as int]@;
                        assert(!text_lt(y, x));
                        lemma_text_lt_total(x, y);
                        if x != y {
                            lemma_text_lt_transitive(pn@, x, y);
                        }
                    }
                    lemma_text_lt_irreflexive(pn@);
                } else if l == pos {
                } else if k < pos && l > pos {
                } else if l < pos {
                } else {
                }
            }
        }
        i += 1;
    }
    proof {
        assert(stable_text_arrangement(r@, orig, perm));
    }
    r
}

// ---------------------------------------------------------------------------
// Which directories are looked at
// ---------------------------------------------------------------------------

/// Whether `paths[i]` is the first of `paths` with its text.
pub open spec fn first_with(paths: Seq<String>, i: int) -> bool {
    forall|j: int| 0 <= j < i ==> paths[j]@ != paths[i]@
}

/// Whether `p` is the text of one of `paths`.
pub open spec fn listed_path(paths: Seq<String>, p: Seq<char>) -> bool {
    exists|j: int| 0 <= j < paths.len() && paths[j]@ == p
}

/// Whether `paths[i]` is the first of `paths` with its text, by an exec scan.
fn is_first(paths: &Vec<String>, i: usize) -> (r: bool)
    requires
        i < paths.len(),
    ensures
        r == first_with(paths@, i as int),
{
    let p = chars_of(paths[i].as_str());
    for j in 0..i
        invariant
            i < paths.len(),
            p@ == paths@[i as int]@,
            forall|k: int| 0 <= k < j ==> paths@[k]@ != paths@[i as int]@,
    {
        let q = chars_of(paths[j].as_str());
        if crate::text::chars_eq(&q, &p) {
            return false;
        }
    }
    true
}

/// Whether `p` is the text of one of `paths`.
fn is_listed(paths: &Vec<String>, p: &String) -> (r: bool)
    ensures
        r == listed_path(paths@, p@),
{
    let pc = chars_of(p.as_str());
    for j in 0..paths.len()
        invariant
            pc@ == p@,
            forall|k: int| 0 <= k < j ==> paths@[k]@ != p@,
    {
        let q = chars_of(paths[j].as_str());
        if crate::text::chars_eq(&q, &pc) {
            return true;
        }
    }
    false
}

/// Which directories package detection looks at, each path once: the manual
/// entries first, each at the first entry of its path, then the directories
/// that the patterns matched, each at its first match and only when no manual
/// entry has its path. The result marks, for each manual entry and for each
/// matched directory, whether it is looked at.
pub fn plan_sources(manual: &Vec<String>, matched: &Vec<String>) -> (r: (Vec<bool>, Vec<bool>))
    ensures
        r.0@.len() == manual.len(),
        r.1@.len() == matched.len(),
        forall|i: int| 0 <= i < manual.len() ==> #[trigger] r.0@[i] == first_with(manual@, i),
        forall|i: int|
            0 <= i < matched.len() ==> #[trigger] r.1@[i] == (first_with(matched@, i)
                && !listed_path(manual@, matched@[i]@)),
{
    let mut a: Vec<bool> = Vec::new();
    for i in 0..manual.len()
        invariant
            a@.len() == i,
            forall|k: int| 0 <= k < i ==> #[trigger] a@[k] == first_with(manual@, k),
    {
        let f = is_first(manual, i);
        a.push(f);
    }
    let mut b: Vec<bool> = Vec::new();
    for i in 0..matched.len()
        invariant
            b@.len() == i,
            forall|k: int|
                0 <= k < i ==> #[trigger] b@[k] == (first_with(matched@, k) && !listed_path(
                    manual@,
                    matched@[k]@,
                )),
    {
        let f = is_first(matched, i) && !is_listed(manual, &matched[i]);
        b.push(f);
    }
    (a, b)
}

/// Every path is looked at once: of all the entries that share a path, exactly
/// one is marked, a manual entry when there is one.
pub proof fn law_each_path_once(manual: Seq<String>, matched: Seq<String>, p: Seq<char>)
    ensures
        listed_path(manual, p) ==> exists|i: int|
            0 <= i < manual.len() && manual[i]@ == p && first_with(manual, i),
        listed_path(manual, p) ==> forall|i: int|
            0 <= i < matched.len() && matched[i]@ == p ==> !(first_with(matched, i)
                && !listed_path(manual, matched[i]@)),
        forall|i: int, j: int|
            0 <= i < j < manual.len() && manual[i]@ == p && manual[j]@ == p ==> !first_with(manual, j),
        forall|i: int, j: int|
            0 <= i < j < matched.len() && matched[i]@ == p && matched[j]@ == p ==> !first_with(
                matched,
                j,
            ),
{
    if listed_path(manual, p) {
        let k = choose|k: int| 0 <= k < manual.len() && manual[k]@ == p;
        lemma_first_of(manual, p, k);
    }
}

/// A listed text has a first entry.
proof fn lemma_first_of(paths: Seq<String>, p: Seq<char>, k: int)
    requires
        0 <= k < paths.len(),
        paths[k]@ == p,
    ensures
        exists|i: int| 0 <= i < paths.len() && paths[i]@ == p && first_with(paths, i),
    decreases k,
{
    if first_with(paths, k) {
    } else {
        let j = choose|j: int| 0 <= j < k && paths[j]@ == paths[k]@;
        lemma_first_of(paths, p, j);
    }
}

} // verus!
