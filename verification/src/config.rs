//! The repository's configuration (`.verset/config.toml`) and its defaults.
use vstd::prelude::*;

use crate::changeset::texts;

verus! {

/// The whole configuration.
#[derive(Debug)]
pub struct Config {
    pub packages: PackagesConfig,
    pub changelog: ChangelogConfig,
    pub post_apply: PostApplyConfig,
    pub publish: PublishConfig,
}

/// Where packages are found: glob patterns and packages declared by hand.
#[derive(Debug)]
pub struct PackagesConfig {
    pub patterns: Vec<String>,
    pub manual: Vec<ManualPackage>,
}

/// A package declared by hand, with the file and path that hold its version.
#[derive(Debug)]
pub struct ManualPackage {
    pub name: String,
    pub path: String,
    pub package_type: String,
    pub version_file: String,
    pub version_path: String,
}

/// How the changelog is kept.
#[derive(Debug)]
pub struct ChangelogConfig {
    pub enabled: bool,
    pub file: String,
    pub format: String,
    pub template_path: Option<String>,
}

/// Commands run after changesets are applied.
#[derive(Debug)]
pub struct PostApplyConfig {
    pub commands: Vec<String>,
}

/// How packages are published.
#[derive(Debug)]
pub struct PublishConfig {
    pub dry_run: bool,
    pub rust: LanguagePublishConfig,
    pub node: LanguagePublishConfig,
    pub python: LanguagePublishConfig,
    pub packages: Vec<PackagePublishConfig>,
}

/// Publishing settings for one language.
#[derive(Debug)]
pub struct LanguagePublishConfig {
    pub registry: Option<String>,
    pub command: Option<String>,
}

/// Publishing commands for one named package.
#[derive(Debug)]
pub struct PackagePublishConfig {
    pub name: String,
    pub commands: Vec<String>,
}

/// The patterns searched when none are configured.
pub open spec fn default_patterns_text() -> Seq<Seq<char>> {
    seq!["packages/*"@, "apps/*"@, "libs/*"@, "."@]
}

/// The patterns searched when none are configured: `packages/*`, `apps/*`,
/// `libs/*` and the repository itself.
pub fn default_patterns() -> (r: Vec<String>)
    ensures
        texts(r@) == default_patterns_text(),
{
    let mut r: Vec<String> = Vec::new();
    r.push(String::from_str("packages/*"));
    r.push(String::from_str("apps/*"));
    r.push(String::from_str("libs/*"));
    r.push(String::from_str("."));
    assert(texts(r@) =~= default_patterns_text());
    r
}

/// The changelog is kept unless the configuration says otherwise.
pub fn default_true() -> (r: bool)
    ensures
        r,
{
    true
}

/// The changelog file when none is configured: `CHANGELOG.md`.
pub fn default_changelog_file() -> (r: String)
    ensures
        r@ == "CHANGELOG.md"@,
{
    String::from_str("CHANGELOG.md")
}

/// The changelog format when none is configured: `keep-a-changelog`.
pub fn default_changelog_format() -> (r: String)
    ensures
        r@ == "keep-a-changelog"@,
{
    String::from_str("keep-a-changelog")
}

impl Default for ChangelogConfig {
    fn default() -> (r: Self)
        ensures
            r.enabled,
            r.file@ == "CHANGELOG.md"@,
            r.format@ == "keep-a-changelog"@,
            r.template_path is None,
    {
        ChangelogConfig {
            enabled: default_true(),
            file: default_changelog_file(),
            format: default_changelog_format(),
            template_path: None,
        }
    }
}

impl Default for LanguagePublishConfig {
    fn default() -> (r: Self)
        ensures
            r.registry is None,
            r.command is None,
    {
        LanguagePublishConfig { registry: None, command: None }
    }
}

impl Default for PostApplyConfig {
    fn default() -> (r: Self)
        ensures
            r.commands@.len() == 0,
    {
        PostApplyConfig { commands: Vec::new() }
    }
}

impl Default for PublishConfig {
    fn default() -> (r: Self)
        ensures
            !r.dry_run,
            r.rust.registry is None && r.rust.command is None,
            r.node.registry is None && r.node.command is None,
            r.python.registry is None && r.python.command is None,
            r.packages@.len() == 0,
    {
        PublishConfig {
            dry_run: false,
            rust: LanguagePublishConfig::default(),
            node: LanguagePublishConfig::default(),
            python: LanguagePublishConfig::default(),
            packages: Vec::new(),
        }
    }
}

impl Default for Config {
    fn default() -> (r: Self)
        ensures
            texts(r.packages.patterns@) == default_patterns_text(),
            r.packages.manual@.len() == 0,
            r.changelog.enabled,
            r.changelog.file@ == "CHANGELOG.md"@,
            r.changelog.format@ == "keep-a-changelog"@,
            r.changelog.template_path is None,
            r.post_apply.commands@.len() == 0,
            !r.publish.dry_run,
            r.publish.rust.registry is None && r.publish.rust.command is None,
            r.publish.node.registry is None && r.publish.node.command is None,
            r.publish.python.registry is None && r.publish.python.command is None,
            r.publish.packages@.len() == 0,
    {
        Config {
            packages: PackagesConfig { patterns: default_patterns(), manual: Vec::new() },
            changelog: ChangelogConfig::default(),
            post_apply: PostApplyConfig::default(),
            publish: PublishConfig::default(),
        }
    }
}

/// The configuration names somewhere to find packages: a pattern or a package
/// declared by hand. Validation refuses a configuration without either.
pub fn has_package_sources(config: &Config) -> (r: bool)
    ensures
        r == (config.packages.patterns@.len() > 0 || config.packages.manual@.len() > 0),
{
    config.packages.patterns.len() > 0 || config.packages.manual.len() > 0
}

} // verus!
