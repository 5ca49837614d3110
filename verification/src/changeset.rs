//! Changesets: how one is planned from the command line, how its file is
//! framed and named, and what pending changesets mean for each package.
use vstd::prelude::*;

use crate::semver_value::{calculate_next_version, can_bump, next_numbers, SemVer};
use crate::text::{
    chars_eq, chars_eq_str, chars_of, contains, decimal, extend, extend_str, find, find_seq,
    has_prefix, is_ws, join, join_vec, last_index_of, lemma_find, occurs_at, push_decimal,
    rfind_char, slice, split_char, split_vec, starts_with, string_of, trim, trim_vec, views,
};
use crate::timestamp::Timestamp;
use crate::{change_type_name, read_change_type, ChangeType, Changeset, InvalidChangeType, Package};

verus! {

/// The text held by an optional string.
pub open spec fn opt_text(o: Option<String>) -> Option<Seq<char>> {
    match o {
        Some(s) => Some(s@),
        None => None,
    }
}

/// The texts of a list of strings.
pub open spec fn texts(v: Seq<String>) -> Seq<Seq<char>> {
    Seq::new(v.len(), |i: int| v[i]@)
}

// ---------------------------------------------------------------------------
// Counting change kinds
// ---------------------------------------------------------------------------

/// How often `t` occurs in `changes`.
pub open spec fn count_kind(changes: Seq<ChangeType>, t: ChangeType) -> nat
    decreases changes.len(),
{
    if changes.len() == 0 {
        0
    } else {
        count_kind(changes.drop_last(), t) + if changes.last() == t {
            1nat
        } else {
            0nat
        }
    }
}

/// `n` changes of kind `t`, as `<n> <kind>` with a plural `s` above one.
pub open spec fn change_part(t: ChangeType, n: nat) -> Seq<char> {
    decimal(n) + " "@ + change_type_name(t) + (if n > 1 {
        "s"@
    } else {
        Seq::empty()
    })
}

/// The parts for those of `kinds` that occur in `changes`.
pub open spec fn change_parts(changes: Seq<ChangeType>, kinds: Seq<ChangeType>) -> Seq<Seq<char>>
    decreases kinds.len(),
{
    if kinds.len() == 0 {
        seq![]
    } else {
        let rest = change_parts(changes, kinds.drop_last());
        let n = count_kind(changes, kinds.last());
        if n > 0 {
            rest.push(change_part(kinds.last(), n))
        } else {
            rest
        }
    }
}

/// A summary of changes: one part per kind that occurs, major first, joined
/// with `, `.
pub open spec fn format_changes_text(changes: Seq<ChangeType>) -> Seq<char> {
    join(
        change_parts(changes, seq![ChangeType::Major, ChangeType::Minor, ChangeType::Patch]),
        ", "@,
    )
}

fn kind_part(t: ChangeType, n: usize) -> (r: Vec<char>)
    ensures
        r@ == change_part(t, n as nat),
{
    let mut v: Vec<char> = Vec::new();
    push_decimal(&mut v, n as u64);
    v.push(' ');
    let name = t.to_string();
    extend_str(&mut v, name.as_str());
    if n > 1 {
        v.push('s');
    }
    proof {
        reveal_strlit(" ");
        reveal_strlit("s");
    }
    assert(v@ =~= change_part(t, n as nat));
    v
}

/// Summarises a list of changes, e.g. `1 major, 2 patchs`: for each kind that
/// occurs, its count and name, with an `s` when the count is above one.
pub fn format_changes(changes: &Vec<ChangeType>) -> (r: String)
    ensures
        r@ == format_changes_text(changes@),
{
    let mut majors: usize = 0;
    let mut minors: usize = 0;
    let mut patches: usize = 0;
    for i in 0..changes.len()
        invariant
            majors == count_kind(changes@.take(i as int), ChangeType::Major),
            minors == count_kind(changes@.take(i as int), ChangeType::Minor),
            patches == count_kind(changes@.take(i as int), ChangeType::Patch),
            majors + minors + patches == i,
    {
        assert(changes@.take(i + 1).drop_last() == changes@.take(i as int));
        match changes[i] {
            ChangeType::Major => majors += 1,
            ChangeType::Minor => minors += 1,
            ChangeType::Patch => patches += 1,
        }
    }
    assert(changes@.take(changes.len() as int) == changes@);
    let ghost kinds = seq![ChangeType::Major, ChangeType::Minor, ChangeType::Patch];
    let mut parts: Vec<Vec<char>> = Vec::new();
    assert(kinds.take(0).len() == 0);
    assert(views(parts@) =~= change_parts(changes@, kinds.take(0)));
    if majors > 0 {
        let p = kind_part(ChangeType::Major, majors);
        parts.push(p);
    }
    assert(kinds.take(1).drop_last() =~= kinds.take(0));
    assert(views(parts@) =~= change_parts(changes@, kinds.take(1)));
    if minors > 0 {
        let p = kind_part(ChangeType::Minor, minors);
        parts.push(p);
    }
    assert(kinds.take(2).drop_last() =~= kinds.take(1));
    assert(views(parts@) =~= change_parts(changes@, kinds.take(2)));
    if patches > 0 {
        let p = kind_part(ChangeType::Patch, patches);
        parts.push(p);
    }
    assert(kinds.take(3).drop_last() =~= kinds.take(2));
    assert(kinds.take(3) == kinds);
    assert(views(parts@) =~= change_parts(changes@, kinds));
    let sep = chars_of(", ");
    let joined = join_vec(&parts, &sep);
    string_of(&joined)
}

/// How many kinds of change occur.
pub open spec fn kinds_present(changes: Seq<ChangeType>) -> nat {
    (if count_kind(changes, ChangeType::Major) > 0 { 1nat } else { 0nat }) + (if count_kind(
        changes,
        ChangeType::Minor,
    ) > 0 {
        1nat
    } else {
        0nat
    }) + (if count_kind(changes, ChangeType::Patch) > 0 { 1nat } else { 0nat })
}

/// A summary of changes is its parts joined with `, `: one part for each kind
/// that occurs, giving that kind's count, and no other part.
pub proof fn law_summary_one_part_per_kind(changes: Seq<ChangeType>)
    ensures
        exists|parts: Seq<Seq<char>>|
            {
                &&& format_changes_text(changes) == join(parts, ", "@)
                &&& parts.len() == kinds_present(changes)
                &&& forall|t: ChangeType|
                    count_kind(changes, t) > 0 ==> parts.contains(
                        #[trigger] change_part(t, count_kind(changes, t)),
                    )
                &&& forall|j: int|
                    0 <= j < parts.len() ==> exists|t: ChangeType|
                        count_kind(changes, t) > 0 && #[trigger] parts[j] == change_part(
                            t,
                            count_kind(changes, t),
                        )
            },
{
    let kinds = seq![ChangeType::Major, ChangeType::Minor, ChangeType::Patch];
    let p0 = change_parts(changes, kinds.take(0));
    let p1 = change_parts(changes, kinds.take(1));
    let p2 = change_parts(changes, kinds.take(2));
    let parts = change_parts(changes, kinds);
    assert(kinds.take(1).drop_last() =~= kinds.take(0));
    assert(kinds.take(2).drop_last() =~= kinds.take(1));
    assert(kinds.take(3) =~= kinds);
    assert(kinds.drop_last() =~= kinds.take(2));
    assert(p0 == Seq::<Seq<char>>::empty());
    let ma = count_kind(changes, ChangeType::Major);
    let mi = count_kind(changes, ChangeType::Minor);
    let pa = count_kind(changes, ChangeType::Patch);
    assert(p1 == if ma > 0 { p0.push(change_part(ChangeType::Major, ma)) } else { p0 });
    assert(p2 == if mi > 0 { p1.push(change_part(ChangeType::Minor, mi)) } else { p1 });
    assert(parts == if pa > 0 { p2.push(change_part(ChangeType::Patch, pa)) } else { p2 });
    assert forall|t: ChangeType| count_kind(changes, t) > 0 implies parts.contains(
        #[trigger] change_part(t, count_kind(changes, t)),
    ) by {
        let c = change_part(t, count_kind(changes, t));
        match t {
            ChangeType::Major => {
                assert(p1[p1.len() - 1] == c);
                assert(parts[p1.len() - 1] == c);
            },
            ChangeType::Minor => {
                assert(p2[p2.len() - 1] == c);
                assert(parts[p2.len() - 1] == c);
            },
            ChangeType::Patch => {
                assert(parts[parts.len() - 1] == c);
            },
        }
    }
    assert forall|j: int| 0 <= j < parts.len() implies exists|t: ChangeType|
        count_kind(changes, t) > 0 && #[trigger] parts[j] == change_part(
            t,
            count_kind(changes, t),
        ) by {
        if j < p1.len() {
            assert(parts[j] == change_part(ChangeType::Major, ma));
        } else if j < p2.len() {
            assert(parts[j] == change_part(ChangeType::Minor, mi));
        } else {
            assert(parts[j] == change_part(ChangeType::Patch, pa));
        }
    }
}

// ---------------------------------------------------------------------------
// What changesets mean for a package
// ---------------------------------------------------------------------------

/// How often `name` is listed in `names`.
pub open spec fn count_name(names: Seq<String>, name: Seq<char>) -> nat
    decreases names.len(),
{
    if names.len() == 0 {
        0
    } else {
        count_name(names.drop_last(), name) + if names.last()@ == name {
            1nat
        } else {
            0nat
        }
    }
}

/// The change kinds that `changesets` bring to the package `name`, in the
/// order in which they are listed: a changeset's kind once for every time it
/// lists the package.
pub open spec fn kinds_for(changesets: Seq<Changeset>, name: Seq<char>) -> Seq<ChangeType>
    decreases changesets.len(),
{
    if changesets.len() == 0 {
        seq![]
    } else {
        let c = changesets.last();
        kinds_for(changesets.drop_last(), name) + Seq::new(
            count_name(c.packages@, name),
            |k: int| c.change_type,
        )
    }
}

/// Whether a package name passes an optional filter: a comma-separated list
/// of package names, each trimmed.
pub open spec fn selected(filter: Option<Seq<char>>, name: Seq<char>) -> bool {
    match filter {
        Some(f) => requested_names(f).contains(name),
        None => true,
    }
}

/// Whether a package name passes the status report's optional filter: the
/// filter names one package, compared whole.
pub open spec fn named(filter: Option<Seq<char>>, name: Seq<char>) -> bool {
    match filter {
        Some(f) => name == f,
        None => true,
    }
}

/// Whether applying with `filter` takes the package called `name`.
pub fn filter_selects(filter: &Option<String>, name: &str) -> (r: bool)
    ensures
        r == selected(opt_text(*filter), name@),
{
    let names = filter_names(filter);
    passes(&names, &chars_of(name))
}

/// Whether the status report with `filter` shows the package called `name`.
pub fn filter_names_package(filter: &Option<String>, name: &str) -> (r: bool)
    ensures
        r == named(opt_text(*filter), name@),
{
    let f = filter_text(filter);
    is_named(&f, &chars_of(name))
}

/// The characters of a filter, when there is one.
fn filter_text(filter: &Option<String>) -> (r: Option<Vec<char>>)
    ensures
        match r {
            Some(f) => opt_text(*filter) == Some(f@),
            None => filter is None,
        },
{
    match filter {
        None => None,
        Some(f) => Some(chars_of(f.as_str())),
    }
}

/// Whether `name` is the one that a filter names.
fn is_named(filter: &Option<Vec<char>>, name: &Vec<char>) -> (r: bool)
    ensures
        r == match filter {
            Some(f) => name@ == f@,
            None => true,
        },
{
    match filter {
        Some(f) => chars_eq(name, f),
        None => true,
    }
}

/// The names that a filter lists, when there is one.
fn filter_names(filter: &Option<String>) -> (r: Option<Vec<Vec<char>>>)
    ensures
        match r {
            Some(ns) => opt_text(*filter) matches Some(f) && views(ns@) == requested_names(f),
            None => filter is None,
        },
{
    match filter {
        None => None,
        Some(f) => {
            let v = chars_of(f.as_str());
            let pieces = split_vec(&v, ',');
            let mut names: Vec<Vec<char>> = Vec::new();
            for i in 0..pieces.len()
                invariant
                    views(pieces@) == split_char(f@, ','),
                    names@.len() == i,
                    forall|k: int| 0 <= k < i ==> names@[k]@ == trim(split_char(f@, ',')[k]),
            {
                names.push(trim_vec(&pieces[i]));
            }
            assert(views(names@) =~= requested_names(f@));
            Some(names)
        },
    }
}

/// Whether `name` is among `names`.
fn name_in(names: &Vec<Vec<char>>, name: &Vec<char>) -> (r: bool)
    ensures
        r == views(names@).contains(name@),
{
    for k in 0..names.len()
        invariant
            forall|j: int| 0 <= j < k ==> names@[j]@ != name@,
    {
        if chars_eq(&names[k], name) {
            assert(views(names@)[k as int] == name@);
            return true;
        }
    }
    assert(!views(names@).contains(name@)) by {
        if views(names@).contains(name@) {
            let j = choose|j: int| 0 <= j < names.len() && views(names@)[j] == name@;
            assert(names@[j]@ == name@);
        }
    }
    false
}

/// Whether `name` passes the filter whose names are `names`.
fn passes(names: &Option<Vec<Vec<char>>>, name: &Vec<char>) -> (r: bool)
    ensures
        r == match names {
            Some(ns) => views(ns@).contains(name@),
            None => true,
        },
{
    match names {
        Some(ns) => name_in(ns, name),
        None => true,
    }
}

/// The changes a changeset brings, and its kind, to a list being gathered.
fn collect_kinds_of(c: &Changeset, name: &Vec<char>, out: &mut Vec<ChangeType>)
    ensures
        final(out)@ == old(out)@ + Seq::new(count_name(c.packages@, name@), |k: int| c.change_type),
{
    let ghost start = out@;
    for j in 0..c.packages.len()
        invariant
            out@ == start + Seq::new(
                count_name(c.packages@.take(j as int), name@),
                |k: int| c.change_type,
            ),
    {
        assert(c.packages@.take(j + 1).drop_last() == c.packages@.take(j as int));
        let p = chars_of(c.packages[j].as_str());
        if chars_eq(&p, name) {
            let ghost before = out@;
            out.push(c.change_type);
            assert(out@ =~= start + Seq::new(
                count_name(c.packages@.take(j + 1), name@),
                |k: int| c.change_type,
            ));
        } else {
            assert(out@ =~= start + Seq::new(
                count_name(c.packages@.take(j + 1), name@),
                |k: int| c.change_type,
            ));
        }
    }
    assert(c.packages@.take(c.packages.len() as int) == c.packages@);
}

/// The change kinds that `changesets` bring to the package `name`.
pub fn collect_kinds(changesets: &Vec<Changeset>, name: &Vec<char>) -> (r: Vec<ChangeType>)
    ensures
        r@ == kinds_for(changesets@, name@),
{
    let mut out: Vec<ChangeType> = Vec::new();
    for i in 0..changesets.len()
        invariant
            out@ == kinds_for(changesets@.take(i as int), name@),
    {
        assert(changesets@.take(i + 1).drop_last() == changesets@.take(i as int));
        collect_kinds_of(&changesets[i], name, &mut out);
    }
    assert(changesets@.take(changesets.len() as int) == changesets@);
    out
}

/// The index of the first package called `name`.
pub open spec fn first_package(packages: Seq<Package>, name: Seq<char>) -> Option<int>
    decreases packages.len(),
{
    if packages.len() == 0 {
        None
    } else {
        match first_package(packages.drop_last(), name) {
            Some(i) => Some(i),
            None => if packages.last().name@ == name {
                Some(packages.len() - 1)
            } else {
                None
            },
        }
    }
}

proof fn lemma_first_package(packages: Seq<Package>, name: Seq<char>)
    ensures
        match first_package(packages, name) {
            Some(i) => 0 <= i < packages.len() && packages[i].name@ == name && forall|j: int|
                0 <= j < i ==> packages[j].name@ != name,
            None => forall|j: int| 0 <= j < packages.len() ==> packages[j].name@ != name,
        },
    decreases packages.len(),
{
    if packages.len() > 0 {
        lemma_first_package(packages.drop_last(), name);
        assert forall|j: int| 0 <= j < packages.len() - 1 implies packages[j] == packages.drop_last()[j] by {}
    }
}

/// The numbers of a package's current version.
pub open spec fn numbers(v: SemVer) -> (u64, u64, u64) {
    (v.major, v.minor, v.patch)
}

/// Applying changes cannot run a version number past `u64::MAX`: the first
/// package of every name that the filter passes can take its changes.
pub open spec fn updates_fit(
    packages: Seq<Package>,
    changesets: Seq<Changeset>,
    filter: Option<Seq<char>>,
) -> bool {
    forall|p: int|
        0 <= p < packages.len() && selected(filter, packages[p].name@) && first_package(
            packages,
            packages[p].name@,
        ) == Some(p) ==> can_bump(
            numbers(packages[p].current_version),
            #[trigger] kinds_for(changesets, packages[p].name@),
        )
}

/// One package's move from its current version to the next.
#[derive(Debug)]
pub struct VersionUpdate {
    pub package: String,
    pub current: SemVer,
    pub next: SemVer,
}

/// What an update states: the filter passes its package's name, changesets
/// list that name, its current version is that of the first package of the
/// name, and its next version follows from the kinds listed, with no
/// pre-release and no build.
pub open spec fn update_ok(
    u: VersionUpdate,
    packages: Seq<Package>,
    changesets: Seq<Changeset>,
    filter: Option<Seq<char>>,
) -> bool {
    let name = u.package@;
    &&& selected(filter, name)
    &&& kinds_for(changesets, name).len() > 0
    &&& first_package(packages, name) matches Some(p) && u.current == packages[p].current_version
    &&& (u.next.major as int, u.next.minor as int, u.next.patch as int) == next_numbers(
        numbers(u.current),
        kinds_for(changesets, name),
    )
    &&& u.next.pre@ == Seq::<char>::empty()
    &&& u.next.build@ == Seq::<char>::empty()
}

/// Whether `name` is already among the first `n` updates.
fn listed(updates: &Vec<VersionUpdate>, name: &Vec<char>) -> (r: bool)
    ensures
        r == exists|k: int| 0 <= k < updates.len() && updates@[k].package@ == name@,
{
    for k in 0..updates.len()
        invariant
            forall|j: int| 0 <= j < k ==> updates@[j].package@ != name@,
    {
        let p = chars_of(updates[k].package.as_str());
        if chars_eq(&p, name) {
            return true;
        }
    }
    false
}

/// The first package called `name`.
fn find_package(packages: &Vec<Package>, name: &Vec<char>) -> (r: Option<usize>)
    ensures
        match r {
            Some(i) => first_package(packages@, name@) == Some(i as int),
            None => first_package(packages@, name@) is None,
        },
{
    proof {
        lemma_first_package(packages@, name@);
    }
    for i in 0..packages.len()
        invariant
            forall|j: int| 0 <= j < i ==> packages@[j].name@ != name@,
            match first_package(packages@, name@) {
                Some(k) => 0 <= k < packages.len() && packages@[k].name@ == name@ && forall|j: int|
                    0 <= j < k ==> packages@[j].name@ != name@,
                None => forall|j: int| 0 <= j < packages.len() ==> packages@[j].name@ != name@,
            },
    {
        let p = chars_of(packages[i].name.as_str());
        if chars_eq(&p, name) {
            return Some(i);
        }
    }
    None
}

/// The version updates that pending changesets call for. A package gets one
/// when the filter passes its name, some changeset lists it, and a package of
/// that name exists; its current version is that of the first such package and
/// its next version follows from the kinds of all changesets that list it.
/// Names that no package carries are passed over. Each name occurs once.
pub fn plan_version_updates(
    packages: &Vec<Package>,
    changesets: &Vec<Changeset>,
    filter: &Option<String>,
) -> (r: Vec<VersionUpdate>)
    requires
        updates_fit(packages@, changesets@, opt_text(*filter)),
    ensures
        forall|k: int, l: int|
            0 <= k < l < r.len() ==> r@[k].package@ != r@[l].package@,
        forall|k: int|
                0 <= k < r.len() ==> update_ok(#[trigger] r@[k], packages@, changesets@, opt_text(*filter)),
        forall|i: int, j: int|
            0 <= i < changesets.len() && 0 <= j < changesets@[i].packages.len() && selected(
                opt_text(*filter),
                changesets@[i].packages@[j]@,
            ) && first_package(packages@, changesets@[i].packages@[j]@) is Some ==> exists|k: int|
                0 <= k < r.len() && r@[k].package@ == #[trigger] changesets@[i].packages@[j]@,
{
    let mut updates: Vec<VersionUpdate> = Vec::new();
    let filter_chars = filter_names(filter);
    for i in 0..changesets.len()
        invariant
            updates_fit(packages@, changesets@, opt_text(*filter)),
            match filter_chars {
                Some(ns) => opt_text(*filter) matches Some(f) && views(ns@) == requested_names(f),
                None => filter is None,
            },
            forall|k: int, l: int|
                0 <= k < l < updates.len() ==> updates@[k].package@ != updates@[l].package@,
            forall|k: int|
                0 <= k < updates.len() ==> update_ok(#[trigger] updates@[k], packages@, changesets@, opt_text(*filter)),
            forall|a: int, j: int|
                0 <= a < i && 0 <= j < changesets@[a].packages.len() && selected(
                    opt_text(*filter),
                    changesets@[a].packages@[j]@,
                ) && first_package(packages@, changesets@[a].packages@[j]@) is Some ==> exists|
                    k: int,
                | 0 <= k < updates.len() && updates@[k].package@
                    == #[trigger] changesets@[a].packages@[j]@,
    {
        let c = &changesets[i];
        for j in 0..c.packages.len()
            invariant
                0 <= i < changesets.len(),
                c == changesets@[i as int],
                updates_fit(packages@, changesets@, opt_text(*filter)),
                match filter_chars {
                    Some(ns) => opt_text(*filter) matches Some(f) && views(ns@) == requested_names(
                        f,
                    ),
                    None => filter is None,
                },
                forall|k: int, l: int|
                    0 <= k < l < updates.len() ==> updates@[k].package@ != updates@[l].package@,
                forall|k: int|
                0 <= k < updates.len() ==> update_ok(#[trigger] updates@[k], packages@, changesets@, opt_text(*filter)),
                forall|a: int, jj: int|
                    (0 <= a < i || (a == i && 0 <= jj < j)) && 0 <= jj
                        < changesets@[a].packages.len() && selected(
                        opt_text(*filter),
                        changesets@[a].packages@[jj]@,
                    ) && first_package(packages@, changesets@[a].packages@[jj]@) is Some
                        ==> exists|k: int|
                        0 <= k < updates.len() && updates@[k].package@
                            == #[trigger] changesets@[a].packages@[jj]@,
        {
            let name = chars_of(c.packages[j].as_str());
            let passes = passes(&filter_chars, &name);
            let ghost old_updates = updates@;
            let already = if passes {
                listed(&updates, &name)
            } else {
                false
            };
            if passes && !already {
                match find_package(packages, &name) {
                    Some(p) => {
                        proof {
                            lemma_kinds_for_listed(changesets@, i as int, j as int);
                            lemma_first_package(packages@, name@);
                        }
                        let kinds = collect_kinds(changesets, &name);
                        let current = packages[p].current_version.clone();
                        assert(can_bump(numbers(packages@[p as int].current_version), kinds@));
                        let next = calculate_next_version(&current, &kinds);
                        let ghost before = updates@;
                        updates.push(
                            VersionUpdate { package: c.packages[j].clone(), current, next },
                        );
                        assert(updates@[updates.len() - 1].package@ == name@);
                    },
                    None => {},
                }
            }
            proof {
                assert(updates@.len() >= old_updates.len());
                assert(forall|k: int| 0 <= k < old_updates.len() ==> updates@[k] == old_updates[k]);
                assert forall|a: int, jj: int|
                    (0 <= a < i || (a == i && 0 <= jj < j + 1)) && 0 <= jj
                        < changesets@[a].packages.len() && selected(
                        opt_text(*filter),
                        changesets@[a].packages@[jj]@,
                    ) && first_package(packages@, changesets@[a].packages@[jj]@) is Some implies exists|k: int|
                        0 <= k < updates.len() && updates@[k].package@
                            == #[trigger] changesets@[a].packages@[jj]@ by {
                    if a == i && jj == j {
                        if already {
                            let k0 = choose|k: int| 0 <= k < old_updates.len() && old_updates[k].package@ == name@;
                            assert(updates@[k0].package@ == name@);
                        } else {
                            assert(updates@[updates.len() - 1].package@ == name@);
                        }
                    } else {
                        let k0 = choose|k: int|
                            0 <= k < old_updates.len() && old_updates[k].package@
                                == #[trigger] changesets@[a].packages@[jj]@;
                        assert(updates@[k0].package@ == changesets@[a].packages@[jj]@);
                    }
                }
            }
        }
    }
    updates
}

proof fn lemma_kinds_for_listed(changesets: Seq<Changeset>, i: int, j: int)
    requires
        0 <= i < changesets.len(),
        0 <= j < changesets[i].packages.len(),
    ensures
        kinds_for(changesets, changesets[i].packages@[j]@).len() > 0,
    decreases changesets.len(),
{
    let name = changesets[i].packages@[j]@;
    if i == changesets.len() - 1 {
        lemma_count_name_listed(changesets[i].packages@, j);
    } else {
        lemma_kinds_for_listed(changesets.drop_last(), i, j);
    }
}

proof fn lemma_count_name_listed(names: Seq<String>, j: int)
    requires
        0 <= j < names.len(),
    ensures
        count_name(names, names[j]@) > 0,
    decreases names.len(),
{
    if j < names.len() - 1 {
        lemma_count_name_listed(names.drop_last(), j);
    }
}

/// A changeset file was applied: some package it lists got a version update.
pub open spec fn was_applied(file_packages: Seq<String>, updates: Seq<VersionUpdate>) -> bool {
    exists|i: int, k: int|
        0 <= i < file_packages.len() && 0 <= k < updates.len() && #[trigger] file_packages[i]@
            == #[trigger] updates[k].package@
}

/// Whether a changeset file is removed after applying: exactly when it was
/// applied, that is when some package it lists got one of `updates`; a
/// changeset that nothing was applied from stays pending.
pub fn should_remove_changeset(file_packages: &Vec<String>, updates: &Vec<VersionUpdate>) -> (r:
    bool)
    ensures
        r == was_applied(file_packages@, updates@),
{
    for i in 0..file_packages.len()
        invariant
            forall|a: int, k: int|
                0 <= a < i && 0 <= k < updates.len() ==> file_packages@[a]@
                    != updates@[k].package@,
    {
        let p = chars_of(file_packages[i].as_str());
        for k in 0..updates.len()
            invariant
                0 <= i < file_packages.len(),
                p@ == file_packages@[i as int]@,
                forall|a: int, j: int|
                    0 <= a < i && 0 <= j < updates.len() ==> file_packages@[a]@
                        != updates@[j].package@,
                forall|j: int| 0 <= j < k ==> file_packages@[i as int]@ != updates@[j].package@,
        {
            let u = chars_of(updates[k].package.as_str());
            if chars_eq(&p, &u) {
                assert(file_packages@[i as int]@ == updates@[k as int].package@);
                return true;
            }
        }
    }
    assert(!was_applied(file_packages@, updates@));
    false
}

/// A changeset file is removed when any package it lists, wherever it stands
/// in the list, got one of the updates.
pub proof fn law_removed_when_any_listed_package_updated(
    file_packages: Seq<String>,
    updates: Seq<VersionUpdate>,
    i: int,
    k: int,
)
    requires
        0 <= i < file_packages.len(),
        0 <= k < updates.len(),
        file_packages[i]@ == updates[k].package@,
    ensures
        was_applied(file_packages, updates),
{
}

/// A changeset file none of whose packages got an update stays pending.
pub proof fn law_kept_when_no_listed_package_updated(
    file_packages: Seq<String>,
    updates: Seq<VersionUpdate>,
)
    requires
        forall|i: int, k: int|
            0 <= i < file_packages.len() && 0 <= k < updates.len() ==> file_packages[i]@
                != updates[k].package@,
    ensures
        !was_applied(file_packages, updates),
{
}

// ---------------------------------------------------------------------------
// Status
// ---------------------------------------------------------------------------

/// One line of the status report for a package.
#[derive(Debug)]
pub struct StatusRow {
    pub name: String,
    pub current: SemVer,
    /// The next version and a summary of the changes, when changesets list the package.
    pub next: Option<(SemVer, String)>,
}

/// Every package that the status filter names (each package, without one)
/// can take the changes listed for it.
pub open spec fn status_fits(
    packages: Seq<Package>,
    changesets: Seq<Changeset>,
    filter: Option<Seq<char>>,
) -> bool {
    forall|p: int|
        0 <= p < packages.len() && named(filter, packages[p].name@) ==> can_bump(
            numbers(packages[p].current_version),
            #[trigger] kinds_for(changesets, packages[p].name@),
        )
}

/// What the row of a package states.
pub open spec fn status_row_ok(row: StatusRow, p: Package, changesets: Seq<Changeset>) -> bool {
    let kinds = kinds_for(changesets, p.name@);
    &&& row.name == p.name
    &&& row.current == p.current_version
    &&& if kinds.len() > 0 {
        row.next matches Some((v, s)) && (v.major as int, v.minor as int, v.patch as int)
            == next_numbers(numbers(p.current_version), kinds) && v.pre@ == Seq::<char>::empty()
            && v.build@ == Seq::<char>::empty() && s@ == format_changes_text(kinds)
    } else {
        row.next is None
    }
}

/// The status report: for each package that the filter names (the filter is
/// one package name, compared whole; without one, each package), in order,
/// its current version and, when changesets list it, its next version and a
/// summary of those changes.
pub fn plan_status(
    packages: &Vec<Package>,
    changesets: &Vec<Changeset>,
    filter: &Option<String>,
) -> (r: Vec<StatusRow>)
    requires
        status_fits(packages@, changesets@, opt_text(*filter)),
    ensures
        exists|idx: Seq<int>|
            {
                &&& idx.len() == r.len()
                &&& forall|k: int, l: int| 0 <= k < l < idx.len() ==> idx[k] < idx[l]
                &&& forall|k: int|
                    0 <= k < idx.len() ==> 0 <= #[trigger] idx[k] < packages.len()
                        && status_row_ok(r@[k], packages@[idx[k]], changesets@)
                &&& forall|p: int|
                    0 <= p < packages.len() ==> (named(
                        opt_text(*filter),
                        packages@[p].name@,
                    ) <==> idx.contains(p))
            },
{
    let mut rows: Vec<StatusRow> = Vec::new();
    let ghost mut idx: Seq<int> = seq![];
    let filter_chars = filter_text(filter);
    for i in 0..packages.len()
        invariant
            status_fits(packages@, changesets@, opt_text(*filter)),
            match filter_chars {
                Some(f) => opt_text(*filter) == Some(f@),
                None => filter is None,
            },
            idx.len() == rows.len(),
            forall|k: int, l: int| 0 <= k < l < idx.len() ==> idx[k] < idx[l],
            forall|k: int|
                0 <= k < idx.len() ==> 0 <= #[trigger] idx[k] < i && status_row_ok(
                    rows@[k],
                    packages@[idx[k]],
                    changesets@,
                ),
            forall|p: int|
                0 <= p < i ==> (named(opt_text(*filter), packages@[p].name@) <==> idx.contains(
                    p,
                )),
    {
        let name = chars_of(packages[i].name.as_str());
        let passes = is_named(&filter_chars, &name);
        if passes {
            let kinds = collect_kinds(changesets, &name);
            let next = if kinds.len() > 0 {
                assert(can_bump(numbers(packages@[i as int].current_version), kinds@));
                let v = calculate_next_version(&packages[i].current_version, &kinds);
                let s = format_changes(&kinds);
                Some((v, s))
            } else {
                None
            };
            rows.push(
                StatusRow {
                    name: packages[i].name.clone(),
                    current: packages[i].current_version.clone(),
                    next,
                },
            );
            proof {
                let old_idx = idx;
                idx = idx.push(i as int);
                assert forall|p: int| 0 <= p < i + 1 implies (named(
                    opt_text(*filter),
                    packages@[p].name@,
                ) <==> idx.contains(p)) by {
                    if p < i {
                        if old_idx.contains(p) {
                            let w = choose|w: int| 0 <= w < old_idx.len() && old_idx[w] == p;
                            assert(idx[w] == p);
                        }
                        if idx.contains(p) {
                            let w = choose|w: int| 0 <= w < idx.len() && idx[w] == p;
                            assert(w < old_idx.len());
                            assert(old_idx[w] == p);
                        }
                    } else {
                        assert(idx[idx.len() - 1] == p);
                    }
                }
            }
        } else {
            proof {
                assert forall|p: int| 0 <= p < i + 1 implies (named(
                    opt_text(*filter),
                    packages@[p].name@,
                ) <==> idx.contains(p)) by {
                    if p == i && idx.contains(p) {
                        let w = choose|w: int| 0 <= w < idx.len() && idx[w] == p;
                        assert(idx[w] < i);
                    }
                }
            }
        }
    }
    rows
}

/// The status report announces the version that applying the pending
/// changesets writes: for a package whose name no earlier package carries,
/// its row and its update start from the same version and end at the same
/// next version.
pub proof fn law_status_matches_apply(
    packages: Seq<Package>,
    changesets: Seq<Changeset>,
    filter: Option<Seq<char>>,
    p: int,
    row: StatusRow,
    u: VersionUpdate,
)
    requires
        0 <= p < packages.len(),
        first_package(packages, packages[p].name@) == Some(p),
        status_row_ok(row, packages[p], changesets),
        update_ok(u, packages, changesets, filter),
        u.package@ == packages[p].name@,
    ensures
        row.current == u.current,
        row.next matches Some((v, _)) && v.major == u.next.major && v.minor == u.next.minor
            && v.patch == u.next.patch && v.pre@ == u.next.pre@ && v.build@ == u.next.build@,
{
}

/// Whether the status report shows a changeset: always without a filter, and
/// with one when the changeset lists the package that the filter names.
pub fn changeset_shown(changeset: &Changeset, filter: &Option<String>) -> (r: bool)
    ensures
        r == (filter is None || exists|i: int|
            0 <= i < changeset.packages.len() && named(
                opt_text(*filter),
                #[trigger] changeset.packages@[i]@,
            )),
{
    let f = filter_text(filter);
    match f {
        None => true,
        Some(fc) => {
            for i in 0..changeset.packages.len()
                invariant
                    opt_text(*filter) == Some(fc@),
                    forall|j: int|
                        0 <= j < i ==> !named(opt_text(*filter), #[trigger] changeset.packages@[j]@),
            {
                let p = chars_of(changeset.packages[i].as_str());
                if chars_eq(&p, &fc) {
                    assert(named(opt_text(*filter), changeset.packages@[i as int]@));
                    return true;
                }
            }
            false
        },
    }
}

// ---------------------------------------------------------------------------
// Planning a changeset from the command line
// ---------------------------------------------------------------------------

/// Why a changeset could not be planned, as plain values.
pub enum AddFailure {
    NoPackages,
    UnknownPackage(Seq<char>),
    NoTarget,
    MissingType,
    InvalidType(Seq<char>),
    MissingMessage,
}

/// Why a changeset could not be planned.
#[derive(Debug, PartialEq, Eq)]
pub enum AddError {
    /// No package was detected.
    NoPackages,
    /// A requested package is not among the detected ones.
    UnknownPackage(String),
    /// Neither a package list nor "all packages" was given, and there are
    /// several packages to choose from.
    NoTarget,
    /// No change kind was given.
    MissingType,
    /// The change kind names none of the three kinds.
    InvalidType(InvalidChangeType),
    /// No description was given.
    MissingMessage,
}

impl AddError {
    /// This error as plain values.
    pub open spec fn failure(&self) -> AddFailure {
        match self {
            AddError::NoPackages => AddFailure::NoPackages,
            AddError::UnknownPackage(n) => AddFailure::UnknownPackage(n@),
            AddError::NoTarget => AddFailure::NoTarget,
            AddError::MissingType => AddFailure::MissingType,
            AddError::InvalidType(e) => AddFailure::InvalidType(e.text@),
            AddError::MissingMessage => AddFailure::MissingMessage,
        }
    }

    /// The message shown for this error.
    pub fn message(&self) -> (r: String)
        ensures
            r@ == match self.failure() {
                AddFailure::NoPackages => "No packages found"@,
                AddFailure::UnknownPackage(n) => "Unknown package: "@ + n,
                AddFailure::NoTarget => "Must specify --package, --all, or use interactive mode"@,
                AddFailure::MissingType => "Must specify --type"@,
                AddFailure::InvalidType(s) => "Invalid change type: "@ + s,
                AddFailure::MissingMessage => "Must specify --message"@,
            },
    {
        match self {
            AddError::NoPackages => String::from_str("No packages found"),
            AddError::UnknownPackage(n) => {
                let mut v = chars_of("Unknown package: ");
                extend_str(&mut v, n.as_str());
                string_of(&v)
            },
            AddError::NoTarget => String::from_str(
                "Must specify --package, --all, or use interactive mode",
            ),
            AddError::MissingType => String::from_str("Must specify --type"),
            AddError::InvalidType(e) => e.message(),
            AddError::MissingMessage => String::from_str("Must specify --message"),
        }
    }
}

/// The package names requested by a comma-separated list, each trimmed.
pub open spec fn requested_names(list: Seq<char>) -> Seq<Seq<char>> {
    Seq::new(split_char(list, ',').len(), |i: int| trim(split_char(list, ',')[i]))
}

/// The names of the detected packages.
pub open spec fn package_names(packages: Seq<Package>) -> Seq<Seq<char>> {
    Seq::new(packages.len(), |i: int| packages[i].name@)
}

/// The first of `names` that is not among `known`.
pub open spec fn first_unknown(names: Seq<Seq<char>>, known: Seq<Seq<char>>) -> Option<Seq<char>>
    decreases names.len(),
{
    if names.len() == 0 {
        None
    } else if !known.contains(names[0]) {
        Some(names[0])
    } else {
        first_unknown(names.drop_first(), known)
    }
}

/// What planning gives for detected package names and the command's options:
/// the target names, the kind and the description, or the first failure in
/// the order the checks are made.
pub open spec fn plan_outcome(
    known: Seq<Seq<char>>,
    package: Option<Seq<char>>,
    change_type: Option<Seq<char>>,
    message: Option<Seq<char>>,
    all: bool,
) -> Result<(Seq<Seq<char>>, ChangeType, Seq<char>), AddFailure> {
    if known.len() == 0 {
        Err(AddFailure::NoPackages)
    } else {
        let targets: Result<Seq<Seq<char>>, AddFailure> = if all {
            Ok(known)
        } else {
            match package {
                Some(list) => match first_unknown(requested_names(list), known) {
                    Some(n) => Err(AddFailure::UnknownPackage(n)),
                    None => Ok(requested_names(list)),
                },
                None => if known.len() == 1 {
                    Ok(known)
                } else {
                    Err(AddFailure::NoTarget)
                },
            }
        };
        match targets {
            Err(e) => Err(e),
            Ok(names) => match change_type {
                None => Err(AddFailure::MissingType),
                Some(s) => match read_change_type(s) {
                    None => Err(AddFailure::InvalidType(s)),
                    Some(t) => match message {
                        None => Err(AddFailure::MissingMessage),
                        Some(m) => Ok((names, t, m)),
                    },
                },
            },
        }
    }
}

fn is_known(packages: &Vec<Package>, name: &Vec<char>) -> (r: bool)
    ensures
        r == package_names(packages@).contains(name@),
{
    for i in 0..packages.len()
        invariant
            forall|j: int| 0 <= j < i ==> packages@[j].name@ != name@,
    {
        let p = chars_of(packages[i].name.as_str());
        if chars_eq(&p, name) {
            assert(package_names(packages@)[i as int] == name@);
            return true;
        }
    }
    assert(!package_names(packages@).contains(name@)) by {
        if package_names(packages@).contains(name@) {
            let w = choose|w: int| 0 <= w < packages.len() && package_names(packages@)[w] == name@;
            assert(packages@[w].name@ == name@);
        }
    }
    false
}

/// The trimmed names of a comma-separated list.
fn split_names(list: &str) -> (r: Vec<String>)
    ensures
        texts(r@) == requested_names(list@),
{
    let v = chars_of(list);
    let pieces = split_vec(&v, ',');
    let mut r: Vec<String> = Vec::new();
    for i in 0..pieces.len()
        invariant
            views(pieces@) == split_char(list@, ','),
            r@.len() == i,
            forall|k: int| 0 <= k < i ==> r@[k]@ == trim(split_char(list@, ',')[k]),
    {
        let t = trim_vec(&pieces[i]);
        r.push(string_of(&t));
    }
    assert(texts(r@) =~= requested_names(list@));
    r
}

/// The names of all detected packages, in order.
fn all_names(packages: &Vec<Package>) -> (r: Vec<String>)
    ensures
        texts(r@) == package_names(packages@),
{
    let mut r: Vec<String> = Vec::new();
    for i in 0..packages.len()
        invariant
            r@.len() == i,
            forall|k: int| 0 <= k < i ==> r@[k]@ == packages@[k].name@,
    {
        r.push(packages[i].name.clone());
    }
    assert(texts(r@) =~= package_names(packages@));
    r
}

/// Plans a changeset from command-line options: every detected package (`all`), or the listed names,
/// each of which must be detected, or the only package of a single-package
/// repository when neither is given; then the kind and the description.
pub fn plan_changeset(
    packages: &Vec<Package>,
    package: Option<String>,
    change_type: Option<String>,
    message: Option<String>,
    all: bool,
    created_at: Timestamp,
) -> (r: Result<Changeset, AddError>)
    ensures
        match plan_outcome(
            package_names(packages@),
            opt_text(package),
            opt_text(change_type),
            opt_text(message),
            all,
        ) {
            Ok((names, t, m)) => r matches Ok(c) && texts(c.packages@) == names && c.change_type
                == t && c.description@ == m && c.created_at == created_at,
            Err(f) => r matches Err(e) && e.failure() == f,
        },
{
    if packages.len() == 0 {
        return Err(AddError::NoPackages);
    }
    let targets: Vec<String> = if all {
        all_names(packages)
    } else {
        match &package {
            Some(list) => {
                let names = split_names(list.as_str());
                let ghost known = package_names(packages@);
                assert(texts(names@).skip(0) =~= texts(names@));
                for i in 0..names.len()
                    invariant
                        !all,
                        packages.len() > 0,
                        opt_text(package) == Some(list@),
                        texts(names@) == requested_names(list@),
                        known == package_names(packages@),
                        first_unknown(texts(names@), known) == first_unknown(
                            texts(names@).skip(i as int),
                            known,
                        ),
                {
                    let n = chars_of(names[i].as_str());
                    assert(texts(names@).skip(i as int)[0] == n@);
                    assert(texts(names@).skip(i as int).drop_first() =~= texts(names@).skip(
                        i + 1,
                    ));
                    if !is_known(packages, &n) {
                        assert(first_unknown(texts(names@).skip(i as int), known) == Some(n@));
                        return Err(AddError::UnknownPackage(names[i].clone()));
                    }
                }
                assert(texts(names@).skip(names.len() as int).len() == 0);
                names
            },
            None => {
                if packages.len() != 1 {
                    return Err(AddError::NoTarget);
                }
                all_names(packages)
            },
        }
    };
    let kind = match &change_type {
        None => {
            return Err(AddError::MissingType);
        },
        Some(s) => match ChangeType::parse(s.as_str()) {
            Ok(t) => t,
            Err(e) => {
                return Err(AddError::InvalidType(e));
            },
        },
    };
    match message {
        None => Err(AddError::MissingMessage),
        Some(m) => Ok(Changeset { packages: targets, change_type: kind, description: m, created_at }),
    }
}

// ---------------------------------------------------------------------------
// Changeset files
// ---------------------------------------------------------------------------

/// The text of a changeset file: the front matter, trimmed, between `---`
/// lines, a blank line, then the description.
pub open spec fn file_content_text(front_matter: Seq<char>, description: Seq<char>) -> Seq<char> {
    "---\n"@ + trim(front_matter) + "\n---\n\n"@ + description
}

/// Frames the front matter and description of a changeset as a file.
pub fn changeset_file_content(front_matter: &str, description: &str) -> (r: String)
    ensures
        r@ == file_content_text(front_matter@, description@),
{
    let mut v = chars_of("---\n");
    let f = chars_of(front_matter);
    let t = trim_vec(&f);
    extend(&mut v, &t);
    extend_str(&mut v, "\n---\n\n");
    extend_str(&mut v, description);
    string_of(&v)
}

/// The front matter and trimmed description of a changeset file: after an
/// opening `---` line, the front matter runs to the first `---` line.
/// `None` when the file has no such frame.
pub open spec fn split_file_text(content: Seq<char>) -> Option<(Seq<char>, Seq<char>)> {
    if starts_with(content, "---\n"@) {
        let s = content.skip(4);
        match find(s, "\n---\n"@) {
            Some(e) => Some((s.take(e as int), trim(s.skip((e + 5) as int)))),
            None => None,
        }
    } else {
        None
    }
}

/// Splits a changeset file into its front matter and its trimmed description.
pub fn split_changeset_file(content: &str) -> (r: Option<(String, String)>)
    ensures
        match r {
            Some((f, d)) => split_file_text(content@) == Some((f@, d@)),
            None => split_file_text(content@) is None,
        },
{
    proof {
        reveal_strlit("---\n");
        reveal_strlit("\n---\n");
    }
    let c = chars_of(content);
    let open = chars_of("---\n");
    if !has_prefix(&c, &open) {
        return None;
    }
    let s = slice(&c, 4, c.len());
    assert(s@ == content@.skip(4));
    let close = chars_of("\n---\n");
    match find_seq(&s, &close) {
        None => None,
        Some(e) => {
            proof {
                lemma_find(s@, close@, 0);
            }
            let f = slice(&s, 0, e);
            let rest = slice(&s, e + 5, s.len());
            let d = trim_vec(&rest);
            assert(f@ == s@.take(e as int));
            assert(rest@ == s@.skip(e + 5));
            Some((string_of(&f), string_of(&d)))
        },
    }
}

proof fn lemma_trim_after_newline(d: Seq<char>)
    ensures
        trim(seq!['\n'] + d) == trim(d),
{
    let x = seq!['\n'] + d;
    assert(is_ws(x[0]));
    assert(x.drop_first() =~= d);
}

/// A changeset file that was written is read back as the front matter and
/// description it was written from (the description trimmed), provided the
/// front matter holds no `---`.
pub proof fn law_changeset_file_round_trip(front_matter: Seq<char>, description: Seq<char>)
    requires
        !contains(trim(front_matter), "---"@),
    ensures
        split_file_text(file_content_text(front_matter, description)) == Some(
            (trim(front_matter), trim(description)),
        ),
{
    reveal_strlit("---\n");
    reveal_strlit("\n---\n");
    reveal_strlit("\n---\n\n");
    reveal_strlit("---");
    let f = trim(front_matter);
    let content = file_content_text(front_matter, description);
    assert(starts_with(content, "---\n"@)) by {
        assert(content.take(4) =~= "---\n"@);
    }
    let s = content.skip(4);
    assert(s =~= f + "\n---\n\n"@ + description);
    let p = "\n---\n"@;
    assert(occurs_at(s, p, f.len() as int)) by {
        assert(s.subrange(f.len() as int, (f.len() + 5) as int) =~= p);
    }
    assert forall|j: int| 0 <= j < f.len() implies !occurs_at(s, p, j) by {
        if occurs_at(s, p, j) {
            assert(s.subrange(j, j + 5)[1] == '-');
            assert(s.subrange(j, j + 5)[2] == '-');
            assert(s.subrange(j, j + 5)[3] == '-');
            if j + 4 <= f.len() {
                assert(occurs_at(f, "---"@, j + 1)) by {
                    assert(f.subrange(j + 1, j + 4) =~= "---"@);
                }
            } else {
                assert(s[f.len() as int] == '\n');
            }
        }
    }
    lemma_find(s, p, f.len());
    lemma_find(s, p, 0);
    assert(find(s, p) == Some(f.len())) by {
        let k = find(s, p)->0;
        if k < f.len() {
        } else if k > f.len() {
        }
    }
    assert(s.take(f.len() as int) =~= f);
    assert(s.skip((f.len() + 5) as int) =~= seq!['\n'] + description);
    lemma_trim_after_newline(description);
}

/// Whether a file name ends in the extension `md`: the part after its last
/// dot, where that dot does not start the name.
pub open spec fn has_md_extension(name: Seq<char>) -> bool {
    match last_index_of(name, '.') {
        Some(i) => i > 0 && name.skip((i + 1) as int) == "md"@,
        None => false,
    }
}

/// Whether a file name marks a changeset file (its extension is `md`).
pub fn is_changeset_file_name(name: &str) -> (r: bool)
    ensures
        r == has_md_extension(name@),
{
    let v = chars_of(name);
    match rfind_char(&v, '.') {
        None => false,
        Some(i) => {
            proof {
                crate::text::lemma_last_index_of(name@, '.');
            }
            if i == 0 {
                return false;
            }
            let ext = slice(&v, i + 1, v.len());
            assert(ext@ == name@.skip(i + 1));
            chars_eq_str(&ext, "md")
        },
    }
}

/// A changeset file name: the creation stamp, a dash, the first group of the
/// identifier, and `.md`.
pub open spec fn file_name_text(stamp: Seq<char>, id: Seq<char>) -> Seq<char> {
    stamp + "-"@ + split_char(id, '-')[0] + ".md"@
}

/// Names a changeset file from its creation time and an identifier.
pub fn changeset_file_name(created_at: &Timestamp, id: &str) -> (r: String)
    requires
        created_at.wf(),
    ensures
        r@ == file_name_text(created_at.compact_text(), id@),
{
    let stamp = created_at.compact();
    let mut v = chars_of(stamp.as_str());
    v.push('-');
    let idv = chars_of(id);
    let groups = split_vec(&idv, '-');
    proof {
        lemma_split_char_nonempty(id@, '-');
    }
    extend(&mut v, &groups[0]);
    extend_str(&mut v, ".md");
    proof {
        reveal_strlit("-");
    }
    assert(v@ =~= file_name_text(created_at.compact_text(), id@));
    string_of(&v)
}

proof fn lemma_split_char_nonempty(s: Seq<char>, c: char)
    ensures
        split_char(s, c).len() >= 1,
{
}

/// Every changeset file name is taken for a changeset file when the pending
/// changesets are read: it ends in `.md`, after a non-empty stem.
pub proof fn law_changeset_file_name_is_md(stamp: Seq<char>, id: Seq<char>)
    ensures
        has_md_extension(file_name_text(stamp, id)),
{
    reveal_strlit("-");
    reveal_strlit(".md");
    reveal_strlit("md");
    let name = file_name_text(stamp, id);
    let n = name.len() as int;
    assert(n >= 4);
    assert(name[n - 3] == '.');
    assert(name[n - 2] == 'm' && name[n - 1] == 'd');
    crate::text::lemma_last_index_of_is(name, '.', n - 3);
    assert(name.skip(n - 2) =~= "md"@);
}

/// A lower-case hexadecimal digit.
pub open spec fn is_lower_hex(c: char) -> bool {
    ('0' <= c && c <= '9') || ('a' <= c && c <= 'f')
}

/// The hyphenated lower-case form of a UUID: 36 characters, dashes at 8, 13,
/// 18 and 23, hexadecimal digits elsewhere.
pub open spec fn is_uuid_text(s: Seq<char>) -> bool {
    &&& s.len() == 36
    &&& forall|i: int|
        0 <= i < 36 ==> if i == 8 || i == 13 || i == 18 || i == 23 {
            #[trigger] s[i] == '-'
        } else {
            is_lower_hex(s[i])
        }
}

/// A fresh random identifier: `uuid::Uuid::new_v4()` written by its
/// `Display`, which is the hyphenated lower-case form. Which identifier comes
/// out is left open.
#[verifier::external_body]
fn new_uuid_text() -> (r: String)
    ensures
        is_uuid_text(r@),
{
    uuid::Uuid::new_v4().to_string()
}

/// Names a new changeset file: the creation stamp, a dash, the first eight
/// characters of a fresh random UUID, and `.md`.
pub fn new_changeset_file_name(created_at: &Timestamp) -> (r: String)
    requires
        created_at.wf(),
    ensures
        exists|id: Seq<char>|
            is_uuid_text(id) && r@ == file_name_text(created_at.compact_text(), id),
        exists|id: Seq<char>|
            is_uuid_text(id) && r@ == created_at.compact_text() + "-"@ + id.take(8) + ".md"@,
{
    let id = new_uuid_text();
    let r = changeset_file_name(created_at, id.as_str());
    proof {
        law_uuid_first_group(id@);
    }
    r
}

/// The first dash-separated group of a UUID is its first eight characters.
pub proof fn law_uuid_first_group(id: Seq<char>)
    requires
        is_uuid_text(id),
    ensures
        split_char(id, '-')[0] == id.take(8),
{
    assert(id[8] == '-');
    assert forall|j: int| 0 <= j < 8 implies id[j] != '-' by {
        assert(is_lower_hex(id[j]));
    }
    crate::text::lemma_index_of_is(id, '-', 8);
}

} // verus!
