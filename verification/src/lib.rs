//! Changeset management for packages of any language: change kinds, semantic
//! versions, changeset files, changelogs, package detection and publishing.
pub mod changelog;
pub mod changeset;
pub mod config;
pub mod detect;
pub mod document;
pub mod interactive;
pub mod package;
pub mod publish;
pub mod semver_value;
pub mod text;
pub mod timestamp;
pub mod version;

use vstd::prelude::*;

use crate::semver_value::SemVer;
use crate::text::{chars_of, chars_eq_str, string_of};
use crate::timestamp::Timestamp;

verus! {

/// The kind of a change, which decides how a version is bumped.
#[derive(Debug, Clone, Copy, PartialEq, Eq, Structural)]
pub enum ChangeType {
    Major,
    Minor,
    Patch,
}

/// `s` with ASCII capital letters made small; every other character is kept.
pub open spec fn ascii_lower(s: Seq<char>) -> Seq<char> {
    Seq::new(s.len(), |i: int| if 'A' <= s[i] && s[i] <= 'Z' {
        ((s[i] as u32) + 32) as char
    } else {
        s[i]
    })
}

/// `c` with an ASCII capital letter made small.
pub fn ascii_lower_char(c: char) -> (r: char)
    ensures
        r == (if 'A' <= c && c <= 'Z' { ((c as u32) + 32) as char } else { c }),
{
    if 'A' <= c && c <= 'Z' {
        let b = (c as u8) + 32;
        b as char
    } else {
        c
    }
}

/// `s` with ASCII capital letters made small.
pub fn ascii_lower_vec(s: &Vec<char>) -> (r: Vec<char>)
    ensures
        r@ == ascii_lower(s@),
{
    let mut r: Vec<char> = Vec::new();
    for i in 0..s.len()
        invariant
            r@.len() == i,
            forall|j: int| 0 <= j < i ==> r@[j] == ascii_lower(s@)[j],
    {
        let c = ascii_lower_char(s[i]);
        r.push(c);
    }
    assert(r@ == ascii_lower(s@));
    r
}

/// The name of a change kind, as it is written in changeset files.
pub open spec fn change_type_name(t: ChangeType) -> Seq<char> {
    match t {
        ChangeType::Major => "major"@,
        ChangeType::Minor => "minor"@,
        ChangeType::Patch => "patch"@,
    }
}

/// The change kind that `s` names, in any case of letters.
pub open spec fn read_change_type(s: Seq<char>) -> Option<ChangeType> {
    if ascii_lower(s) == change_type_name(ChangeType::Major) {
        Some(ChangeType::Major)
    } else if ascii_lower(s) == change_type_name(ChangeType::Minor) {
        Some(ChangeType::Minor)
    } else if ascii_lower(s) == change_type_name(ChangeType::Patch) {
        Some(ChangeType::Patch)
    } else {
        None
    }
}

/// A change kind that could not be read.
#[derive(Debug, PartialEq, Eq)]
pub struct InvalidChangeType {
    /// The text that named no change kind.
    pub text: String,
}

impl InvalidChangeType {
    /// The message: `Invalid change type: <text>`.
    pub fn message(&self) -> (r: String)
        ensures
            r@ == "Invalid change type: "@ + self.text@,
    {
        let mut v = chars_of("Invalid change type: ");
        let t = chars_of(self.text.as_str());
        crate::text::extend(&mut v, &t);
        string_of(&v)
    }
}

impl ChangeType {
    /// The name of this change kind: `major`, `minor` or `patch`.
    pub fn to_string(&self) -> (r: String)
        ensures
            r@ == change_type_name(*self),
    {
        match self {
            ChangeType::Major => String::from_str("major"),
            ChangeType::Minor => String::from_str("minor"),
            ChangeType::Patch => String::from_str("patch"),
        }
    }

    /// Reads a change kind, ignoring the case of letters. Lower-casing a text
    /// gives one of the three names exactly when its ASCII lower-casing does.
    pub fn parse(s: &str) -> (r: Result<ChangeType, InvalidChangeType>)
        ensures
            match r {
                Ok(t) => read_change_type(s@) == Some(t),
                Err(e) => read_change_type(s@) is None && e.text@ == s@,
            },
    {
        proof {
            law_change_type_round_trip(ChangeType::Major);
        }
        let v = chars_of(s);
        let l = ascii_lower_vec(&v);
        if chars_eq_str(&l, "major") {
            Ok(ChangeType::Major)
        } else if chars_eq_str(&l, "minor") {
            Ok(ChangeType::Minor)
        } else if chars_eq_str(&l, "patch") {
            Ok(ChangeType::Patch)
        } else {
            Err(InvalidChangeType { text: String::from_str(s) })
        }
    }
}

impl std::str::FromStr for ChangeType {
    type Err = InvalidChangeType;

    fn from_str(s: &str) -> (r: Result<ChangeType, InvalidChangeType>)
        ensures
            match r {
                Ok(t) => read_change_type(s@) == Some(t),
                Err(e) => read_change_type(s@) is None && e.text@ == s@,
            },
    {
        ChangeType::parse(s)
    }
}

/// Reading back the name of a change kind gives the same kind.
pub proof fn law_change_type_round_trip(t: ChangeType)
    ensures
        read_change_type(change_type_name(t)) == Some(t),
        ascii_lower(change_type_name(t)) == change_type_name(t),
        forall|u: ChangeType| change_type_name(u) == change_type_name(t) ==> u == t,
{
    reveal_strlit("major");
    reveal_strlit("minor");
    reveal_strlit("patch");
    assert(ascii_lower(change_type_name(t)) =~= change_type_name(t));
    assert(change_type_name(ChangeType::Major)[1] != change_type_name(ChangeType::Minor)[1]);
    assert(change_type_name(ChangeType::Major)[0] != change_type_name(ChangeType::Patch)[0]);
    assert(change_type_name(ChangeType::Minor)[0] != change_type_name(ChangeType::Patch)[0]);
}

/// The ecosystem a package belongs to.
#[derive(Debug, PartialEq, Eq)]
pub enum PackageType {
    Rust,
    Node,
    Python,
    Go,
    Java,
    Dotnet,
    Custom { command: String },
}

/// How a package type is shown to people.
pub open spec fn package_type_label(t: PackageType) -> Seq<char> {
    match t {
        PackageType::Rust => "Rust"@,
        PackageType::Node => "Node.js"@,
        PackageType::Python => "Python"@,
        PackageType::Go => "Go"@,
        PackageType::Java => "Java"@,
        PackageType::Dotnet => ".NET"@,
        PackageType::Custom { command } => "Custom ("@ + command@ + ")"@,
    }
}

impl Clone for PackageType {
    fn clone(&self) -> (r: Self)
        ensures
            r == *self,
    {
        match self {
            PackageType::Rust => PackageType::Rust,
            PackageType::Node => PackageType::Node,
            PackageType::Python => PackageType::Python,
            PackageType::Go => PackageType::Go,
            PackageType::Java => PackageType::Java,
            PackageType::Dotnet => PackageType::Dotnet,
            PackageType::Custom { command } => PackageType::Custom { command: command.clone() },
        }
    }
}

impl PackageType {
    /// How this package type is shown: `Rust`, `Node.js`, ..., `Custom (<command>)`.
    pub fn to_string(&self) -> (r: String)
        ensures
            r@ == package_type_label(*self),
    {
        match self {
            PackageType::Rust => String::from_str("Rust"),
            PackageType::Node => String::from_str("Node.js"),
            PackageType::Python => String::from_str("Python"),
            PackageType::Go => String::from_str("Go"),
            PackageType::Java => String::from_str("Java"),
            PackageType::Dotnet => String::from_str(".NET"),
            PackageType::Custom { command } => {
                let mut v = chars_of("Custom (");
                let c = chars_of(command.as_str());
                crate::text::extend(&mut v, &c);
                crate::text::extend_str(&mut v, ")");
                string_of(&v)
            },
        }
    }
}

/// A recorded change: which packages it touches, its kind and its text.
#[derive(Debug)]
pub struct Changeset {
    pub packages: Vec<String>,
    pub change_type: ChangeType,
    pub description: String,
    pub created_at: Timestamp,
}

/// A package found in the repository, with the file that holds its version.
#[derive(Debug)]
pub struct Package {
    pub name: String,
    pub path: String,
    pub package_type: PackageType,
    pub version_file: String,
    pub version_path: String,
    pub current_version: SemVer,
}

impl Clone for Package {
    fn clone(&self) -> (r: Self)
        ensures
            r == *self,
    {
        Package {
            name: self.name.clone(),
            path: self.path.clone(),
            package_type: self.package_type.clone(),
            version_file: self.version_file.clone(),
            version_path: self.version_path.clone(),
            current_version: self.current_version.clone(),
        }
    }
}

} // verus!
