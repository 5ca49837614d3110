//! The decisions behind creating a changeset interactively; the prompts
//! themselves are run by the application.
use vstd::prelude::*;

use crate::changeset::texts;
use crate::text::{chars_of, string_of, trim, trim_vec};
use crate::timestamp::Timestamp;
use crate::{ChangeType, Changeset, Package};

verus! {

/// Why an interactive changeset was not created.
#[derive(Debug, PartialEq, Eq)]
pub enum InteractiveError {
    /// No package was detected.
    NoPackages,
    /// The description was empty or only white space.
    EmptyDescription,
}

impl InteractiveError {
    /// The message shown for this error.
    pub fn message(&self) -> (r: String)
        ensures
            r@ == match self {
                InteractiveError::NoPackages => "No packages found"@,
                InteractiveError::EmptyDescription => "Description cannot be empty"@,
            },
    {
        match self {
            InteractiveError::NoPackages => String::from_str("No packages found"),
            InteractiveError::EmptyDescription => String::from_str("Description cannot be empty"),
        }
    }
}

/// The package names offered for selection, in order; an error when there are
/// none.
pub fn package_choices(packages: &Vec<Package>) -> (r: Result<Vec<String>, InteractiveError>)
    ensures
        packages.len() == 0 <==> r is Err,
        r matches Err(e) ==> e == InteractiveError::NoPackages,
        r matches Ok(names) ==> names@.len() == packages.len() && forall|i: int|
            0 <= i < packages.len() ==> #[trigger] names@[i] == packages@[i].name,
{
    if packages.len() == 0 {
        return Err(InteractiveError::NoPackages);
    }
    let mut names: Vec<String> = Vec::new();
    for i in 0..packages.len()
        invariant
            names@.len() == i,
            forall|k: int| 0 <= k < i ==> #[trigger] names@[k] == packages@[k].name,
    {
        names.push(packages[i].name.clone());
    }
    Ok(names)
}

/// The kinds offered for selection: `patch`, `minor`, `major`.
pub fn change_type_choices() -> (r: Vec<String>)
    ensures
        texts(r@) == seq!["patch"@, "minor"@, "major"@],
{
    let mut r: Vec<String> = Vec::new();
    r.push(String::from_str("patch"));
    r.push(String::from_str("minor"));
    r.push(String::from_str("major"));
    assert(texts(r@) =~= seq!["patch"@, "minor"@, "major"@]);
    r
}

/// The kind at a position of the offered list.
pub open spec fn offered_kind(i: int) -> ChangeType {
    if i == 0 {
        ChangeType::Patch
    } else if i == 1 {
        ChangeType::Minor
    } else {
        ChangeType::Major
    }
}

/// The changeset made from the choices: nothing when no package was selected,
/// an error when the description is blank, else the selected packages in
/// selection order, the chosen kind and the trimmed description.
pub fn finish_interactive(
    names: &Vec<String>,
    selections: &Vec<usize>,
    kind_index: usize,
    description: &str,
    created_at: Timestamp,
) -> (r: Result<Option<Changeset>, InteractiveError>)
    requires
        forall|k: int| 0 <= k < selections.len() ==> #[trigger] selections@[k] < names.len(),
        kind_index < 3,
    ensures
        selections.len() == 0 ==> r matches Ok(None),
        selections.len() > 0 && trim(description@).len() == 0 ==> r == Err::<
            Option<Changeset>,
            InteractiveError,
        >(InteractiveError::EmptyDescription),
        selections.len() > 0 && trim(description@).len() > 0 ==> (r matches Ok(Some(c)) && {
            &&& c.packages@.len() == selections.len()
            &&& forall|k: int|
                0 <= k < selections.len() ==> #[trigger] c.packages@[k] == names@[selections@[k] as int]
            &&& c.change_type == offered_kind(kind_index as int)
            &&& c.description@ == trim(description@)
            &&& c.created_at == created_at
        }),
{
    if selections.len() == 0 {
        return Ok(None);
    }
    let mut selected: Vec<String> = Vec::new();
    for k in 0..selections.len()
        invariant
            forall|j: int| 0 <= j < selections.len() ==> #[trigger] selections@[j] < names.len(),
            selected@.len() == k,
            forall|j: int| 0 <= j < k ==> #[trigger] selected@[j] == names@[selections@[j] as int],
    {
        selected.push(names[selections[k]].clone());
    }
    let kind = if kind_index == 0 {
        ChangeType::Patch
    } else if kind_index == 1 {
        ChangeType::Minor
    } else {
        ChangeType::Major
    };
    let d = chars_of(description);
    let t = trim_vec(&d);
    if t.len() == 0 {
        return Err(InteractiveError::EmptyDescription);
    }
    Ok(Some(Changeset { packages: selected, change_type: kind, description: string_of(&t), created_at }))
}

} // verus!
