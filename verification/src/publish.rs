//! Publishing: which packages are published and with which command.
use vstd::prelude::*;

use crate::changeset::{opt_text, requested_names, texts};
use crate::config::{Config, PackagePublishConfig};
use crate::text::{
    chars_eq, chars_of, extend_str, join, join_vec, split_char, split_vec, string_of, trim,
    trim_vec, views,
};
use crate::{Package, PackageType};

verus! {

/// The index of the first package-specific entry for `name` that has commands.
pub open spec fn first_custom(ps: Seq<PackagePublishConfig>, name: Seq<char>) -> Option<int>
    decreases ps.len(),
{
    if ps.len() == 0 {
        None
    } else {
        match first_custom(ps.drop_last(), name) {
            Some(i) => Some(i),
            None => if ps.last().name@ == name && ps.last().commands@.len() > 0 {
                Some(ps.len() - 1)
            } else {
                None
            },
        }
    }
}

/// The registry flag, when a registry applies.
pub open spec fn registry_suffix(registry: Option<Seq<char>>) -> Seq<char> {
    match registry {
        Some(r) => " --registry "@ + r,
        None => seq![],
    }
}

/// The registry given on the command line, or else the configured one.
pub open spec fn registry_choice(given: Option<Seq<char>>, configured: Option<String>) -> Option<
    Seq<char>,
> {
    match given {
        Some(g) => Some(g),
        None => opt_text(configured),
    }
}

/// A language's configured command, or else its default.
pub open spec fn command_or(configured: Option<String>, default: Seq<char>) -> Seq<char> {
    match configured {
        Some(c) => c@,
        None => default,
    }
}

/// The command that publishes a package: the package's own commands joined
/// with ` && ` when the configuration has some, else its language's command
/// (the configured one when it is set, else the default), with the registry
/// flag for Rust and Node.js.
pub open spec fn publish_command_text(
    t: PackageType,
    config: Config,
    name: Seq<char>,
    registry: Option<Seq<char>>,
) -> Seq<char> {
    match first_custom(config.publish.packages@, name) {
        Some(i) => join(texts(config.publish.packages@[i].commands@), " && "@),
        None => match t {
            PackageType::Rust => command_or(config.publish.rust.command, "cargo publish"@)
                + registry_suffix(registry_choice(registry, config.publish.rust.registry)),
            PackageType::Node => command_or(config.publish.node.command, "npm publish"@)
                + registry_suffix(registry_choice(registry, config.publish.node.registry)),
            PackageType::Python => match config.publish.python.command {
                Some(c) => c@,
                None => "poetry publish"@,
            },
            PackageType::Go => "go mod publish"@,
            PackageType::Java => "mvn deploy"@,
            PackageType::Dotnet => "dotnet nuget push"@,
            PackageType::Custom { command } => command@,
        },
    }
}

/// The registry flag of a Rust or Node.js package without commands of its
/// own: its language's command is followed by ` --registry ` and the registry
/// given, or else the one configured for its language; with neither, the
/// command stands alone.
pub proof fn law_registry_flag(
    t: PackageType,
    config: Config,
    name: Seq<char>,
    registry: Option<Seq<char>>,
)
    requires
        t is Rust || t is Node,
        first_custom(config.publish.packages@, name) is None,
    ensures
        ({
            let (command, configured) = if t is Rust {
                (command_or(config.publish.rust.command, "cargo publish"@), config.publish.rust.registry)
            } else {
                (command_or(config.publish.node.command, "npm publish"@), config.publish.node.registry)
            };
            &&& registry matches Some(g) ==> publish_command_text(t, config, name, registry)
                == command + " --registry "@ + g
            &&& registry is None ==> (configured matches Some(r) ==> publish_command_text(
                t,
                config,
                name,
                registry,
            ) == command + " --registry "@ + r@)
            &&& registry is None && configured is None ==> publish_command_text(
                t,
                config,
                name,
                registry,
            ) == command
        }),
{
    assert(forall|c: Seq<char>, r: Seq<char>| c + (" --registry "@ + r) =~= c + " --registry "@ + r);
    assert(forall|c: Seq<char>| c + Seq::<char>::empty() =~= c);
}

fn find_custom(ps: &Vec<PackagePublishConfig>, name: &Vec<char>) -> (r: Option<usize>)
    ensures
        match r {
            Some(i) => first_custom(ps@, name@) == Some(i as int),
            None => first_custom(ps@, name@) is None,
        },
{
    for i in 0..ps.len()
        invariant
            first_custom(ps@.take(i as int), name@) is None,
    {
        assert(ps@.take(i + 1).drop_last() == ps@.take(i as int));
        let n = chars_of(ps[i].name.as_str());
        if chars_eq(&n, name) && ps[i].commands.len() > 0 {
            assert(first_custom(ps@.take(i + 1), name@) == Some(i as int));
            proof {
                lemma_first_custom_prefix(ps@, name@, i + 1);
            }
            return Some(i);
        }
    }
    assert(ps@.take(ps.len() as int) == ps@);
    None
}

proof fn lemma_first_custom_prefix(ps: Seq<PackagePublishConfig>, name: Seq<char>, n: int)
    requires
        0 <= n <= ps.len(),
        first_custom(ps.take(n), name) is Some,
    ensures
        first_custom(ps, name) == first_custom(ps.take(n), name),
    decreases ps.len() - n,
{
    if n < ps.len() {
        assert(ps.take(n + 1).drop_last() == ps.take(n));
        lemma_first_custom_prefix(ps, name, n + 1);
    } else {
        assert(ps.take(n) == ps);
    }
}

proof fn lemma_first_custom_bound(ps: Seq<PackagePublishConfig>, name: Seq<char>)
    ensures
        first_custom(ps, name) matches Some(i) ==> 0 <= i < ps.len(),
    decreases ps.len(),
{
    if ps.len() > 0 {
        lemma_first_custom_bound(ps.drop_last(), name);
    }
}

fn push_registry(out: &mut Vec<char>, given: &Option<String>, configured: &Option<String>)
    ensures
        final(out)@ == old(out)@ + registry_suffix(registry_choice(opt_text(*given), *configured)),
{
    let chosen: Option<&String> = match given {
        Some(g) => Some(g),
        None => match configured {
            Some(c) => Some(c),
            None => None,
        },
    };
    match chosen {
        Some(r) => {
            extend_str(out, " --registry ");
            extend_str(out, r.as_str());
        },
        None => {},
    }
}

/// The command that publishes a package.
pub fn get_publish_command(
    package_type: &PackageType,
    config: &Config,
    package_name: &str,
    registry: &Option<String>,
) -> (r: String)
    ensures
        r@ == publish_command_text(*package_type, *config, package_name@, opt_text(*registry)),
{
    let name = chars_of(package_name);
    match find_custom(&config.publish.packages, &name) {
        Some(i) => {
            proof {
                lemma_first_custom_bound(config.publish.packages@, name@);
            }
            let cmds = &config.publish.packages[i].commands;
            let mut parts: Vec<Vec<char>> = Vec::new();
            for k in 0..cmds.len()
                invariant
                    parts@.len() == k,
                    forall|j: int| 0 <= j < k ==> parts@[j]@ == cmds@[j]@,
            {
                parts.push(chars_of(cmds[k].as_str()));
            }
            assert(views(parts@) =~= texts(cmds@));
            let sep = chars_of(" && ");
            let joined = join_vec(&parts, &sep);
            return string_of(&joined);
        },
        None => {},
    }
    match package_type {
        PackageType::Rust => {
            let mut v = match &config.publish.rust.command {
                Some(c) => chars_of(c.as_str()),
                None => chars_of("cargo publish"),
            };
            push_registry(&mut v, registry, &config.publish.rust.registry);
            string_of(&v)
        },
        PackageType::Node => {
            let mut v = match &config.publish.node.command {
                Some(c) => chars_of(c.as_str()),
                None => chars_of("npm publish"),
            };
            push_registry(&mut v, registry, &config.publish.node.registry);
            string_of(&v)
        },
        PackageType::Python => match &config.publish.python.command {
            Some(c) => c.clone(),
            None => String::from_str("poetry publish"),
        },
        PackageType::Go => String::from_str("go mod publish"),
        PackageType::Java => String::from_str("mvn deploy"),
        PackageType::Dotnet => String::from_str("dotnet nuget push"),
        PackageType::Custom { command } => command.clone(),
    }
}

/// The packages whose names are among `names`, in their order.
pub open spec fn keep_named(ps: Seq<Package>, names: Seq<Seq<char>>) -> Seq<Package>
    decreases ps.len(),
{
    if ps.len() == 0 {
        seq![]
    } else if names.contains(ps.last().name@) {
        keep_named(ps.drop_last(), names).push(ps.last())
    } else {
        keep_named(ps.drop_last(), names)
    }
}

/// The packages to publish: all of them, or those named in a comma-separated
/// filter (names trimmed), in their order.
pub fn select_for_publish(packages: Vec<Package>, filter: &Option<String>) -> (r: Vec<Package>)
    ensures
        r@ == match opt_text(*filter) {
            Some(f) => keep_named(packages@, requested_names(f)),
            None => packages@,
        },
{
    match filter {
        None => packages,
        Some(f) => {
            let v = chars_of(f.as_str());
            let pieces = split_vec(&v, ',');
            let mut names: Vec<Vec<char>> = Vec::new();
            for i in 0..pieces.len()
                invariant
                    views(pieces@) == split_char(f@, ','),
                    names@.len() == i,
                    forall|k: int| 0 <= k < i ==> names@[k]@ == trim(split_char(f@, ',')[k]),
            {
                names.push(trim_vec(&pieces[i]));
            }
            assert(views(names@) =~= requested_names(f@));
            let mut r: Vec<Package> = Vec::new();
            for i in 0..packages.len()
                invariant
                    views(names@) == requested_names(f@),
                    r@ == keep_named(packages@.take(i as int), views(names@)),
            {
                assert(packages@.take(i + 1).drop_last() == packages@.take(i as int));
                let p = chars_of(packages[i].name.as_str());
                let mut found = false;
                for k in 0..names.len()
                    invariant
                        found == exists|j: int| 0 <= j < k && names@[j]@ == p@,
                {
                    if chars_eq(&names[k], &p) {
                        found = true;
                    }
                }
                assert(found == views(names@).contains(p@)) by {
                    if found {
                        let j = choose|j: int| 0 <= j < names.len() && names@[j]@ == p@;
                        assert(views(names@)[j] == p@);
                    }
                    if views(names@).contains(p@) {
                        let j = choose|j: int| 0 <= j < names.len() && views(names@)[j] == p@;
                        assert(names@[j]@ == p@);
                    }
                }
                if found {
                    r.push(packages[i].clone());
                }
            }
            assert(packages@.take(packages.len() as int) == packages@);
            r
        },
    }
}

} // verus!
