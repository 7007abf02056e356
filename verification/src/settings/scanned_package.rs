//! One package about to be walked, and what its manifest says about it.
use vstd::prelude::*;
use crate::text::{owned, same_text};

verus! {

pub struct ScannedPackage {
    pub name: String,
    pub root: String,
    /// None where the manifest declares no `license`, the one case
    /// `spdx-matches-manifest` cannot judge and stands down on.
    pub license: Option<String>,
}

impl ScannedPackage {
    pub fn new(name: &str, root: String, license: Option<String>) -> (p: ScannedPackage)
        ensures
            p.name@ == name@,
            p.root == root,
            p.license == license,
    {
        ScannedPackage { name: owned(name), root, license }
    }
}

/// The one licence every scanned package declares: none where there is no
/// package, where one declares none, or where two declare different ones.
pub open spec fn agreed(packages: Seq<ScannedPackage>) -> Option<Seq<char>> {
    if packages.len() > 0 && (forall|i: int| 0 <= i < packages.len() ==> #[trigger] packages[i].license.is_some()
        && packages[i].license.unwrap()@ == packages[0].license.unwrap()@) {
        Some(packages[0].license.unwrap()@)
    } else {
        None
    }
}

impl ScannedPackage {
    pub fn agreed_license(packages: &[ScannedPackage]) -> (r: Option<String>)
        ensures
            match r {
                Some(l) => agreed(packages@) == Some(l@),
                None => agreed(packages@).is_none(),
            },
    {
        if packages.len() == 0 {
            return None;
        }
        let first = match &packages[0].license {
            Some(l) => l,
            None => return None,
        };
        let mut i: usize = 1;
        while i < packages.len()
            invariant
                1 <= i <= packages.len(),
                packages@[0].license == Some(*first),
                forall|j: int| 0 <= j < i ==> #[trigger] packages@[j].license.is_some()
                    && packages@[j].license.unwrap()@ == first@,
            decreases packages.len() - i,
        {
            match &packages[i].license {
                Some(l) => {
                    if !same_text(l.as_str(), first.as_str()) {
                        return None;
                    }
                },
                None => return None,
            }
            i = i + 1;
        }
        Some(first.clone())
    }
}

} // verus!
