//! Listing the detected packages.
use vstd::prelude::*;

use crate::Package;

verus! {

/// The byte length of a package's name, which sets the width of the name column.
pub open spec fn name_width(p: Package) -> usize {
    vstd::utf8::encode_utf8(p.name@).len() as usize
}

/// The width of the name column: the longest name, in bytes; 0 without packages.
pub fn name_column_width(packages: &Vec<Package>) -> (r: usize)
    ensures
        forall|i: int| 0 <= i < packages.len() ==> name_width(#[trigger] packages@[i]) <= r,
        packages.len() == 0 ==> r == 0,
        packages.len() > 0 ==> exists|i: int| 0 <= i < packages.len() && name_width(packages@[i]) == r,
{
    let mut w: usize = 0;
    for i in 0..packages.len()
        invariant
            forall|k: int| 0 <= k < i ==> name_width(#[trigger] packages@[k]) <= w,
            i == 0 ==> w == 0,
            i > 0 ==> exists|k: int| 0 <= k < i && name_width(packages@[k]) == w,
    {
        let s = packages[i].name.as_str();
        let n = s.len();
        assert(n == name_width(packages@[i as int]));
        if n > w || i == 0 {
            w = n;
        }
    }
    w
}

} // verus!
