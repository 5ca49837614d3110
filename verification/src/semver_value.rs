//! Semantic versions as plain values, written and bumped by verified code and
//! read by the `semver` crate.
use vstd::prelude::*;

use crate::text::{chars_of, decimal, extend, push_decimal, string_of};
use crate::ChangeType;

verus! {

/// A semantic version: three numbers, a pre-release text and a build text
/// (each empty when absent).
#[derive(Debug, PartialEq, Eq)]
pub struct SemVer {
    pub major: u64,
    pub minor: u64,
    pub patch: u64,
    pub pre: String,
    pub build: String,
}

impl View for SemVer {
    type V = (u64, u64, u64, Seq<char>, Seq<char>);

    open spec fn view(&self) -> (u64, u64, u64, Seq<char>, Seq<char>) {
        (self.major, self.minor, self.patch, self.pre@, self.build@)
    }
}

impl Clone for SemVer {
    fn clone(&self) -> (r: Self)
        ensures
            r == *self,
    {
        SemVer {
            major: self.major,
            minor: self.minor,
            patch: self.patch,
            pre: self.pre.clone(),
            build: self.build.clone(),
        }
    }
}

/// The text of `major.minor.patch`.
pub open spec fn triple_text(major: nat, minor: nat, patch: nat) -> Seq<char> {
    decimal(major) + "."@ + decimal(minor) + "."@ + decimal(patch)
}

/// The text of a version: `major.minor.patch`, then `-pre` and `+build` when
/// they are not empty.
pub open spec fn version_text(v: (u64, u64, u64, Seq<char>, Seq<char>)) -> Seq<char> {
    triple_text(v.0 as nat, v.1 as nat, v.2 as nat) + (if v.3.len() > 0 {
        "-"@ + v.3
    } else {
        Seq::empty()
    }) + (if v.4.len() > 0 {
        "+"@ + v.4
    } else {
        Seq::empty()
    })
}

/// What `semver::Version::parse` gives for a text, as plain values; `None`
/// where it reports an error.
pub uninterp spec fn semver_parse(text: Seq<char>) -> Option<(u64, u64, u64, Seq<char>, Seq<char>)>;

/// Reads a version with `semver::Version::parse`. The grammar it accepts (three
/// numbers without leading zeros, then optional pre-release and build
/// identifiers) is named `semver_parse` and not written out. Its source shows
/// two facts stated here: a parsed version is written back as the text it was
/// read from, and a bare `major.minor.patch` of shortest decimals is read as
/// those three numbers with no pre-release and no build.
#[verifier::external_body]
fn semver_parse_text(text: &str) -> (r: Option<SemVer>)
    ensures
        match r {
            Some(v) => semver_parse(text@) == Some(v@),
            None => semver_parse(text@) is None,
        },
        r matches Some(v) ==> version_text(v@) == text@,
        r is None ==> forall|a: u64, b: u64, c: u64|
            text@ != #[trigger] triple_text(a as nat, b as nat, c as nat),
        r matches Some(v) ==> forall|a: u64, b: u64, c: u64|
            text@ == #[trigger] triple_text(a as nat, b as nat, c as nat) ==> v@ == (
                a,
                b,
                c,
                Seq::<char>::empty(),
                Seq::<char>::empty(),
            ),
{
    match semver::Version::parse(text) {
        Ok(v) => Some(
            SemVer {
                major: v.major,
                minor: v.minor,
                patch: v.patch,
                pre: v.pre.as_str().to_string(),
                build: v.build.as_str().to_string(),
            },
        ),
        Err(_) => None,
    }
}

/// The next version's numbers when the kinds marked present occur: the highest
/// kind grows its number and restarts the lower ones at zero.
pub open spec fn next_for_kinds(v: (u64, u64, u64), major: bool, minor: bool, patch: bool) -> (
    int,
    int,
    int,
) {
    if major {
        (v.0 + 1, 0, 0)
    } else if minor {
        (v.0 as int, v.1 + 1, 0)
    } else if patch {
        (v.0 as int, v.1 as int, v.2 + 1)
    } else {
        (v.0 as int, v.1 as int, v.2 as int)
    }
}

/// Highest change kind among `changes`: the next version's numbers.
pub open spec fn next_numbers(v: (u64, u64, u64), changes: Seq<ChangeType>) -> (int, int, int) {
    next_for_kinds(
        v,
        changes.contains(ChangeType::Major),
        changes.contains(ChangeType::Minor),
        changes.contains(ChangeType::Patch),
    )
}

/// The numbers fit in `u64`.
pub open spec fn fits(n: (int, int, int)) -> bool {
    0 <= n.0 <= u64::MAX && 0 <= n.1 <= u64::MAX && 0 <= n.2 <= u64::MAX
}

/// The next version fits in the numbers' range.
pub open spec fn can_bump(v: (u64, u64, u64), changes: Seq<ChangeType>) -> bool {
    fits(next_numbers(v, changes))
}

/// A version that reading its own text gives back, as every version that
/// `SemVer::parse` reads is.
pub open spec fn reads_back(v: (u64, u64, u64, Seq<char>, Seq<char>)) -> bool {
    semver_parse(version_text(v)) == Some(v)
}

impl SemVer {
    /// `major.minor.patch` with no pre-release and no build.
    pub fn new(major: u64, minor: u64, patch: u64) -> (r: SemVer)
        ensures
            r@ == (major, minor, patch, Seq::<char>::empty(), Seq::<char>::empty()),
    {
        SemVer { major, minor, patch, pre: String::new(), build: String::new() }
    }

    /// Reads a version (`semver::Version::parse`); `None` where it is refused.
    pub fn parse(text: &str) -> (r: Option<SemVer>)
        ensures
            match r {
                Some(v) => semver_parse(text@) == Some(v@),
                None => semver_parse(text@) is None,
            },
            r matches Some(v) ==> version_text(v@) == text@ && reads_back(v@),
            r is None ==> forall|a: u64, b: u64, c: u64|
                text@ != #[trigger] triple_text(a as nat, b as nat, c as nat),
            r matches Some(v) ==> forall|a: u64, b: u64, c: u64|
                text@ == #[trigger] triple_text(a as nat, b as nat, c as nat) ==> v@ == (
                    a,
                    b,
                    c,
                    Seq::<char>::empty(),
                    Seq::<char>::empty(),
                ),
    {
        semver_parse_text(text)
    }

    /// Writes the version as `Display` for `semver::Version` does.
    pub fn to_string(&self) -> (r: String)
        ensures
            r@ == version_text(self@),
    {
        let mut v: Vec<char> = Vec::new();
        push_decimal(&mut v, self.major);
        v.push('.');
        push_decimal(&mut v, self.minor);
        v.push('.');
        push_decimal(&mut v, self.patch);
        let ghost t = v@;
        proof {
            reveal_strlit(".");
            assert(t =~= triple_text(self.major as nat, self.minor as nat, self.patch as nat));
        }
        let pre = chars_of(self.pre.as_str());
        if pre.len() > 0 {
            v.push('-');
            extend(&mut v, &pre);
        }
        let ghost u = v@;
        proof {
            reveal_strlit("-");
            assert(u =~= t + (if self.pre@.len() > 0 {
                "-"@ + self.pre@
            } else {
                Seq::empty()
            }));
        }
        let build = chars_of(self.build.as_str());
        if build.len() > 0 {
            v.push('+');
            extend(&mut v, &build);
        }
        proof {
            reveal_strlit("+");
            assert(v@ =~= u + (if self.build@.len() > 0 {
                "+"@ + self.build@
            } else {
                Seq::empty()
            }));
        }
        string_of(&v)
    }
}

/// Which change kinds occur: major, minor, patch.
fn kinds_present(changes: &Vec<ChangeType>) -> (r: (bool, bool, bool))
    ensures
        r == (
            changes@.contains(ChangeType::Major),
            changes@.contains(ChangeType::Minor),
            changes@.contains(ChangeType::Patch),
        ),
{
    let mut has_major = false;
    let mut has_minor = false;
    let mut has_patch = false;
    for i in 0..changes.len()
        invariant
            has_major == (exists|j: int| 0 <= j < i && changes@[j] == ChangeType::Major),
            has_minor == (exists|j: int| 0 <= j < i && changes@[j] == ChangeType::Minor),
            has_patch == (exists|j: int| 0 <= j < i && changes@[j] == ChangeType::Patch),
    {
        match changes[i] {
            ChangeType::Major => {
                has_major = true;
            },
            ChangeType::Minor => {
                has_minor = true;
            },
            ChangeType::Patch => {
                has_patch = true;
            },
        }
    }
    assert(has_major == changes@.contains(ChangeType::Major));
    assert(has_minor == changes@.contains(ChangeType::Minor));
    assert(has_patch == changes@.contains(ChangeType::Patch));
    (has_major, has_minor, has_patch)
}

/// Whether `changes` can be applied to `current` without running a number
/// past `u64::MAX`.
pub fn bump_fits(current: &SemVer, changes: &Vec<ChangeType>) -> (r: bool)
    ensures
        r == can_bump((current.major, current.minor, current.patch), changes@),
{
    let (has_major, has_minor, has_patch) = kinds_present(changes);
    if has_major {
        current.major < u64::MAX
    } else if has_minor {
        current.minor < u64::MAX
    } else if has_patch {
        current.patch < u64::MAX
    } else {
        true
    }
}

/// The version that follows `current` after `changes`: the highest change kind
/// decides which number grows, lower numbers restart at zero, and pre-release
/// and build are dropped.
pub fn calculate_next_version(current: &SemVer, changes: &Vec<ChangeType>) -> (r: SemVer)
    requires
        can_bump((current.major, current.minor, current.patch), changes@),
    ensures
        (r.major as int, r.minor as int, r.patch as int) == next_numbers(
            (current.major, current.minor, current.patch),
            changes@,
        ),
        r.pre@ == Seq::<char>::empty(),
        r.build@ == Seq::<char>::empty(),
{
    let (has_major, has_minor, has_patch) = kinds_present(changes);
    if has_major {
        SemVer::new(current.major + 1, 0, 0)
    } else if has_minor {
        SemVer::new(current.major, current.minor + 1, 0)
    } else if has_patch {
        SemVer::new(current.major, current.minor, current.patch + 1)
    } else {
        SemVer::new(current.major, current.minor, current.patch)
    }
}

/// Precedence of `a` over `b` on the numbers alone.
pub open spec fn numbers_greater(a: (int, int, int), b: (int, int, int)) -> bool {
    ||| a.0 > b.0
    ||| a.0 == b.0 && a.1 > b.1
    ||| a.0 == b.0 && a.1 == b.1 && a.2 > b.2
}

/// Any change moves the version up; no change keeps its numbers.
pub proof fn law_next_version_grows(v: (u64, u64, u64), changes: Seq<ChangeType>)
    ensures
        changes.len() > 0 ==> numbers_greater(next_numbers(v, changes), (v.0 as int, v.1 as int, v.2 as int)),
        changes.len() == 0 ==> next_numbers(v, changes) == (v.0 as int, v.1 as int, v.2 as int),
{
    if changes.len() > 0 {
        let t = changes[0];
        assert(changes.contains(t));
    }
}

/// Only which kinds occur matters: not their order or how often they occur.
pub proof fn law_next_version_depends_on_kinds(
    v: (u64, u64, u64),
    a: Seq<ChangeType>,
    b: Seq<ChangeType>,
)
    requires
        forall|t: ChangeType| a.contains(t) <==> b.contains(t),
    ensures
        next_numbers(v, a) == next_numbers(v, b),
{
    assert(a.contains(ChangeType::Major) == b.contains(ChangeType::Major));
    assert(a.contains(ChangeType::Minor) == b.contains(ChangeType::Minor));
    assert(a.contains(ChangeType::Patch) == b.contains(ChangeType::Patch));
}

/// A version written out is read back as the same version, when it carries no
/// pre-release and no build.
pub proof fn law_plain_version_round_trip(a: u64, b: u64, c: u64)
    ensures
        version_text((a, b, c, Seq::empty(), Seq::empty())) == triple_text(a as nat, b as nat, c as nat),
{
    assert(version_text((a, b, c, Seq::empty(), Seq::empty())) =~= triple_text(a as nat, b as nat, c as nat));
}

} // verus!
