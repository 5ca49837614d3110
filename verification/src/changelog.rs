//! The changelog: the entry written for applied changesets, and where it goes
//! in the existing file (Keep a Changelog layout).
use vstd::prelude::*;

use crate::changeset::{texts, VersionUpdate};
use crate::semver_value::version_text;
use crate::text::{
    chars_of, concat, extend, extend_str, has_prefix, join, join_vec, lemma_concat_push, lines,
    lines_vec, starts_with, string_of, views,
};
use crate::timestamp::Timestamp;
use crate::{ChangeType, Changeset};

verus! {

/// The text a changelog starts with when there is none yet.
pub open spec fn default_changelog_text() -> Seq<char> {
    "# Changelog\n\nAll notable changes to this project will be documented in this file.\n\n"@
}

/// The line for one version update: `- **<package>**: <old> → <new>`.
pub open spec fn update_line(u: VersionUpdate) -> Seq<char> {
    "- **"@ + u.package@ + "**: "@ + version_text(u.current@) + " → "@ + version_text(u.next@)
        + "\n"@
}

/// The lines of all version updates.
pub open spec fn update_lines(us: Seq<VersionUpdate>) -> Seq<char>
    decreases us.len(),
{
    if us.len() == 0 {
        seq![]
    } else {
        update_lines(us.drop_last()) + update_line(us.last())
    }
}

/// The `Version Updates` section, absent when nothing was updated.
pub open spec fn updates_section(us: Seq<VersionUpdate>) -> Seq<char> {
    if us.len() == 0 {
        seq![]
    } else {
        "### Version Updates\n\n"@ + update_lines(us) + "\n"@
    }
}

/// The item for one changeset: its description, and the packages it affects
/// when there are several.
pub open spec fn change_item(c: Changeset) -> Seq<char> {
    "- "@ + c.description@ + "\n"@ + (if c.packages.len() > 1 {
        "  - Affects: "@ + join(texts(c.packages@), ", "@) + "\n"@
    } else {
        seq![]
    })
}

/// The items of the changesets of kind `t`, in order.
pub open spec fn items_of(cs: Seq<Changeset>, t: ChangeType) -> Seq<char>
    decreases cs.len(),
{
    if cs.len() == 0 {
        seq![]
    } else {
        items_of(cs.drop_last(), t) + if cs.last().change_type == t {
            change_item(cs.last())
        } else {
            seq![]
        }
    }
}

/// Some changeset is of kind `t`.
pub open spec fn has_kind(cs: Seq<Changeset>, t: ChangeType) -> bool {
    exists|i: int| 0 <= i < cs.len() && cs[i].change_type == t
}

/// The section of the changesets of kind `t` under `title`, absent when there
/// are none.
pub open spec fn kind_section(cs: Seq<Changeset>, t: ChangeType, title: Seq<char>) -> Seq<char> {
    if has_kind(cs, t) {
        title + items_of(cs, t) + "\n"@
    } else {
        seq![]
    }
}

/// What the heading of an entry names as released: the new version when one
/// package was updated, else (several packages, each with its own version)
/// the date.
pub open spec fn release_label(us: Seq<VersionUpdate>, date: Seq<char>) -> Seq<char> {
    if us.len() == 1 {
        version_text(us[0].next@)
    } else {
        date
    }
}

/// The changelog entry for a release on `date`, under the heading
/// `## [<release>] - <date>` of Keep a Changelog: the version updates, then
/// breaking changes, additions and fixes.
pub open spec fn entry_text(date: Seq<char>, cs: Seq<Changeset>, us: Seq<VersionUpdate>) -> Seq<
    char,
> {
    "## ["@ + release_label(us, date) + "] - "@ + date + "\n\n"@ + updates_section(us) + kind_section(
        cs,
        ChangeType::Major,
        "### Breaking Changes\n\n"@,
    ) + kind_section(cs, ChangeType::Minor, "### Added\n\n"@) + kind_section(
        cs,
        ChangeType::Patch,
        "### Fixed\n\n"@,
    )
}

/// The index of the first line that opens a release (`## `), or the number of
/// lines when none does.
pub open spec fn release_position(ls: Seq<Seq<char>>) -> nat
    decreases ls.len(),
{
    if ls.len() == 0 {
        0
    } else if starts_with(ls[0], "## "@) {
        0
    } else {
        1 + release_position(ls.drop_first())
    }
}

/// Lines written one after the other, each ended by a line feed.
pub open spec fn with_newlines(ls: Seq<Seq<char>>) -> Seq<char> {
    concat(Seq::new(ls.len(), |i: int| ls[i] + "\n"@))
}

/// The changelog with `entry` put before its first release, after the header.
pub open spec fn insert_entry_text(existing: Seq<char>, entry: Seq<char>) -> Seq<char> {
    let ls = lines(existing);
    let p = release_position(ls);
    with_newlines(ls.take(p as int)) + entry + with_newlines(ls.skip(p as int))
}

/// The whole changelog after a release on `date`: the existing text, or the
/// default header when there is none, with the new entry inserted.
pub open spec fn changelog_text(
    existing: Option<Seq<char>>,
    date: Seq<char>,
    cs: Seq<Changeset>,
    us: Seq<VersionUpdate>,
) -> Seq<char> {
    let base = match existing {
        Some(e) => e,
        None => default_changelog_text(),
    };
    insert_entry_text(base, entry_text(date, cs, us))
}

fn push_update_lines(out: &mut Vec<char>, us: &Vec<VersionUpdate>)
    ensures
        final(out)@ == old(out)@ + update_lines(us@),
{
    let ghost start = out@;
    for i in 0..us.len()
        invariant
            out@ == start + update_lines(us@.take(i as int)),
    {
        assert(us@.take(i + 1).drop_last() == us@.take(i as int));
        let ghost before = out@;
        extend_str(out, "- **");
        extend_str(out, us[i].package.as_str());
        extend_str(out, "**: ");
        let a = us[i].current.to_string();
        extend_str(out, a.as_str());
        extend_str(out, " → ");
        let b = us[i].next.to_string();
        extend_str(out, b.as_str());
        extend_str(out, "\n");
        assert(out@ =~= before + update_line(us@[i as int]));
    }
    assert(us@.take(us.len() as int) == us@);
}

fn push_item(out: &mut Vec<char>, c: &Changeset)
    ensures
        final(out)@ == old(out)@ + change_item(*c),
{
    let ghost before = out@;
    extend_str(out, "- ");
    extend_str(out, c.description.as_str());
    extend_str(out, "\n");
    let ghost mid = out@;
    if c.packages.len() > 1 {
        extend_str(out, "  - Affects: ");
        let mut names: Vec<Vec<char>> = Vec::new();
        for k in 0..c.packages.len()
            invariant
                names@.len() == k,
                forall|j: int| 0 <= j < k ==> names@[j]@ == c.packages@[j]@,
        {
            names.push(chars_of(c.packages[k].as_str()));
        }
        assert(views(names@) =~= texts(c.packages@));
        let sep = chars_of(", ");
        let joined = join_vec(&names, &sep);
        extend(out, &joined);
        extend_str(out, "\n");
    }
    assert(out@ =~= before + change_item(*c));
}

fn push_kind_section(out: &mut Vec<char>, cs: &Vec<Changeset>, t: ChangeType, title: &str)
    ensures
        final(out)@ == old(out)@ + kind_section(cs@, t, title@),
{
    let ghost start = out@;
    let mut any = false;
    for i in 0..cs.len()
        invariant
            any == exists|j: int| 0 <= j < i && cs@[j].change_type == t,
    {
        if cs[i].change_type == t {
            any = true;
        }
    }
    if !any {
        return;
    }
    extend_str(out, title);
    let ghost mid = out@;
    for i in 0..cs.len()
        invariant
            out@ == mid + items_of(cs@.take(i as int), t),
    {
        assert(cs@.take(i + 1).drop_last() == cs@.take(i as int));
        if cs[i].change_type == t {
            push_item(out, &cs[i]);
        }
    }
    assert(cs@.take(cs.len() as int) == cs@);
    extend_str(out, "\n");
}

fn push_release_label(out: &mut Vec<char>, us: &Vec<VersionUpdate>, date: &String)
    ensures
        final(out)@ == old(out)@ + release_label(us@, date@),
{
    if us.len() == 1 {
        let v = us[0].next.to_string();
        extend_str(out, v.as_str());
    } else {
        extend_str(out, date.as_str());
    }
}

/// The changelog entry for a release on `date`.
pub fn render_entry(date: &Timestamp, changesets: &Vec<Changeset>, updates: &Vec<VersionUpdate>) -> (r:
    Vec<char>)
    requires
        date.wf(),
    ensures
        r@ == entry_text(date.date_text(), changesets@, updates@),
{
    let d = date.date();
    let mut out = chars_of("## [");
    push_release_label(&mut out, updates, &d);
    extend_str(&mut out, "] - ");
    extend_str(&mut out, d.as_str());
    extend_str(&mut out, "\n\n");
    if updates.len() > 0 {
        extend_str(&mut out, "### Version Updates\n\n");
        push_update_lines(&mut out, updates);
        extend_str(&mut out, "\n");
    }
    push_kind_section(&mut out, changesets, ChangeType::Major, "### Breaking Changes\n\n");
    push_kind_section(&mut out, changesets, ChangeType::Minor, "### Added\n\n");
    push_kind_section(&mut out, changesets, ChangeType::Patch, "### Fixed\n\n");
    assert(out@ =~= entry_text(date.date_text(), changesets@, updates@));
    out
}

proof fn lemma_with_newlines_push(ls: Seq<Seq<char>>, l: Seq<char>)
    ensures
        with_newlines(ls.push(l)) == with_newlines(ls) + l + "\n"@,
{
    let a = Seq::new(ls.len(), |i: int| ls[i] + "\n"@);
    let b = Seq::new(ls.push(l).len(), |i: int| ls.push(l)[i] + "\n"@);
    assert(b =~= a.push(l + "\n"@));
    lemma_concat_push(a, l + "\n"@);
    assert(with_newlines(ls) + l + "\n"@ =~= concat(a) + (l + "\n"@));
}

fn push_lines(out: &mut Vec<char>, ls: &Vec<Vec<char>>, from: usize, to: usize)
    requires
        from <= to <= ls.len(),
    ensures
        final(out)@ == old(out)@ + with_newlines(views(ls@).subrange(from as int, to as int)),
{
    let ghost start = out@;
    let mut i = from;
    assert(views(ls@).subrange(from as int, from as int) =~= Seq::<Seq<char>>::empty());
    assert(with_newlines(Seq::<Seq<char>>::empty()) =~= Seq::<char>::empty());
    while i < to
        invariant
            from <= i <= to <= ls.len(),
            out@ == start + with_newlines(views(ls@).subrange(from as int, i as int)),
        decreases to - i,
    {
        proof {
            assert(views(ls@).subrange(from as int, i + 1) =~= views(ls@).subrange(
                from as int,
                i as int,
            ).push(ls@[i as int]@));
            lemma_with_newlines_push(views(ls@).subrange(from as int, i as int), ls@[i as int]@);
        }
        extend(out, &ls[i as usize]);
        out.push('\n');
        proof {
            reveal_strlit("\n");
        }
        assert(out@ =~= start + with_newlines(views(ls@).subrange(from as int, i + 1)));
        i += 1;
    }
}

proof fn lemma_release_position_skip(ls: Seq<Seq<char>>, i: int)
    requires
        0 <= i <= ls.len(),
        forall|j: int| 0 <= j < i ==> !starts_with(ls[j], "## "@),
    ensures
        release_position(ls) == i + release_position(ls.skip(i)),
    decreases i,
{
    if i > 0 {
        assert forall|j: int| 0 <= j < i - 1 implies !starts_with(ls.drop_first()[j], "## "@) by {
            assert(ls.drop_first()[j] == ls[j + 1]);
        }
        lemma_release_position_skip(ls.drop_first(), i - 1);
        assert(ls.drop_first().skip(i - 1) =~= ls.skip(i));
    } else {
        assert(ls.skip(0) =~= ls);
    }
}

/// Puts `entry` before the first release heading of `existing`.
pub fn insert_entry(existing: &Vec<char>, entry: &Vec<char>) -> (r: Vec<char>)
    ensures
        r@ == insert_entry_text(existing@, entry@),
{
    let ls = lines_vec(existing);
    let heading = chars_of("## ");
    let mut p: usize = 0;
    while p < ls.len() && !has_prefix(&ls[p], &heading)
        invariant
            p <= ls.len(),
            views(ls@) == lines(existing@),
            heading@ == "## "@,
            forall|j: int| 0 <= j < p ==> !starts_with(views(ls@)[j], "## "@),
        decreases ls.len() - p,
    {
        p += 1;
    }
    proof {
        lemma_release_position_skip(views(ls@), p as int);
        if p < ls.len() {
            assert(views(ls@).skip(p as int)[0] == views(ls@)[p as int]);
        }
        assert(release_position(views(ls@)) == p);
        assert(views(ls@).subrange(0, p as int) =~= views(ls@).take(p as int));
        assert(views(ls@).subrange(p as int, ls.len() as int) =~= views(ls@).skip(p as int));
    }
    let mut out: Vec<char> = Vec::new();
    push_lines(&mut out, &ls, 0, p);
    extend(&mut out, entry);
    push_lines(&mut out, &ls, p, ls.len());
    assert(out@ =~= insert_entry_text(existing@, entry@));
    out
}

/// Where the first release heading stands: no line before it opens a release,
/// and it does when it is within the lines.
proof fn lemma_release_position_first(ls: Seq<Seq<char>>)
    ensures
        release_position(ls) <= ls.len(),
        forall|j: int| 0 <= j < release_position(ls) ==> !starts_with(#[trigger] ls[j], "## "@),
        release_position(ls) < ls.len() ==> starts_with(ls[release_position(ls) as int], "## "@),
    decreases ls.len(),
{
    if ls.len() > 0 && !starts_with(ls[0], "## "@) {
        lemma_release_position_first(ls.drop_first());
        assert forall|j: int| 0 <= j < release_position(ls) implies !starts_with(
            #[trigger] ls[j],
            "## "@,
        ) by {
            if j > 0 {
                assert(ls[j] == ls.drop_first()[j - 1]);
            }
        }
    }
}

/// A new entry goes in right before the first line of the existing changelog
/// that opens a release (`## `), after every line before it, which opens
/// none; at the end when no line opens a release. The existing lines keep
/// their order around it.
pub proof fn law_entry_before_first_release(existing: Seq<char>, entry: Seq<char>)
    ensures
        exists|p: int|
            #![trigger lines(existing).skip(p)]
            {
                &&& 0 <= p <= lines(existing).len()
                &&& insert_entry_text(existing, entry) == with_newlines(lines(existing).take(p))
                    + entry + with_newlines(lines(existing).skip(p))
                &&& forall|j: int|
                    0 <= j < p ==> !starts_with(#[trigger] lines(existing)[j], "## "@)
                &&& p < lines(existing).len() ==> starts_with(lines(existing)[p], "## "@)
            },
{
    let ls = lines(existing);
    lemma_release_position_first(ls);
    let p = release_position(ls) as int;
    assert(insert_entry_text(existing, entry) == with_newlines(ls.take(p)) + entry
        + with_newlines(ls.skip(p)));
}

/// The changelog after a release on `date`: the entry for the applied
/// changesets and version updates, inserted into the existing text (or the
/// default header when there is no changelog yet) before its first release.
pub fn render_changelog(
    existing: &Option<String>,
    date: &Timestamp,
    changesets: &Vec<Changeset>,
    updates: &Vec<VersionUpdate>,
) -> (r: String)
    requires
        date.wf(),
    ensures
        r@ == changelog_text(
            match existing {
                Some(e) => Some(e@),
                None => None,
            },
            date.date_text(),
            changesets@,
            updates@,
        ),
{
    let base = match existing {
        Some(e) => chars_of(e.as_str()),
        None => chars_of(
            "# Changelog\n\nAll notable changes to this project will be documented in this file.\n\n",
        ),
    };
    let entry = render_entry(date, changesets, updates);
    let out = insert_entry(&base, &entry);
    string_of(&out)
}

/// Inserting an entry keeps every line of the existing changelog: what comes
/// before the entry and what comes after it are, together, the existing lines.
pub proof fn law_changelog_keeps_lines(existing: Seq<char>, entry: Seq<char>)
    ensures
        exists|before: Seq<char>, after: Seq<char>|
            insert_entry_text(existing, entry) == before + entry + after && before + after
                == with_newlines(lines(existing)),
{
    let ls = lines(existing);
    let p = release_position(ls);
    lemma_release_position_le(ls);
    lemma_with_newlines_split(ls, p as int);
    assert(insert_entry_text(existing, entry) == with_newlines(ls.take(p as int)) + entry
        + with_newlines(ls.skip(p as int)));
}

proof fn lemma_release_position_le(ls: Seq<Seq<char>>)
    ensures
        release_position(ls) <= ls.len(),
    decreases ls.len(),
{
    if ls.len() > 0 {
        lemma_release_position_le(ls.drop_first());
    }
}

proof fn lemma_with_newlines_split(ls: Seq<Seq<char>>, p: int)
    requires
        0 <= p <= ls.len(),
    ensures
        with_newlines(ls.take(p)) + with_newlines(ls.skip(p)) == with_newlines(ls),
    decreases ls.len() - p,
{
    if p == ls.len() {
        assert(ls.take(p) =~= ls);
        assert(ls.skip(p) =~= Seq::<Seq<char>>::empty());
        assert(with_newlines(ls.skip(p)) =~= Seq::<char>::empty());
    } else {
        lemma_with_newlines_split(ls, p + 1);
        assert(ls.take(p + 1) =~= ls.take(p).push(ls[p]));
        lemma_with_newlines_push(ls.take(p), ls[p]);
        lemma_with_newlines_cons(ls[p], ls.skip(p + 1));
        assert(ls.skip(p) =~= seq![ls[p]] + ls.skip(p + 1));
    }
}

proof fn lemma_with_newlines_cons(l: Seq<char>, ls: Seq<Seq<char>>)
    ensures
        with_newlines(seq![l] + ls) == l + "\n"@ + with_newlines(ls),
    decreases ls.len(),
{
    if ls.len() == 0 {
        assert(seq![l] + ls =~= Seq::<Seq<char>>::empty().push(l));
        lemma_with_newlines_push(Seq::<Seq<char>>::empty(), l);
        assert(with_newlines(Seq::<Seq<char>>::empty()) =~= Seq::<char>::empty());
        assert(with_newlines(ls) =~= Seq::<char>::empty());
    } else {
        let init = ls.drop_last();
        lemma_with_newlines_cons(l, init);
        assert(seq![l] + ls =~= (seq![l] + init).push(ls.last()));
        assert(ls =~= init.push(ls.last()));
        lemma_with_newlines_push(seq![l] + init, ls.last());
        lemma_with_newlines_push(init, ls.last());
    }
}

} // verus!
