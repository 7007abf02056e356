//! Turns the requested packages into the ones to walk.
//!
//! Named packages that do not exist are an error rather than an empty result:
//! a typo in a gate script would otherwise scan nothing and report success.
use vstd::prelude::*;
use crate::paths::{parent, parent_of, relative, relative_to};
use crate::text::{same_text, views};

verus! {

pub open spec fn index_named(available: Seq<Seq<char>>, name: Seq<char>, i: int) -> bool {
    0 <= i < available.len() && available[i] == name && forall|j: int| 0 <= j < i ==> available[j] != name
}

/// Which packages a run scans, as indices into those the manifest knows:
/// all of them when none is named, otherwise the first package of each name
/// in the order named.
pub open spec fn selection_is(available: Seq<Seq<char>>, requested: Seq<Seq<char>>, chosen: Seq<usize>) -> bool {
    if requested.len() == 0 {
        chosen.len() == available.len() && forall|i: int| 0 <= i < chosen.len() ==> chosen[i] == i
    } else {
        chosen.len() == requested.len()
            && forall|i: int| 0 <= i < chosen.len() ==> #[trigger] index_named(available, requested[i], chosen[i] as int)
    }
}

/// The first requested name the manifest does not know.
pub open spec fn is_first_unknown(available: Seq<Seq<char>>, requested: Seq<Seq<char>>, k: int) -> bool {
    &&& 0 <= k < requested.len()
    &&& !available.contains(requested[k])
    &&& forall|j: int| 0 <= j < k ==> available.contains(#[trigger] requested[j])
}

pub open spec fn unknown_package_message(name: Seq<char>) -> Seq<char> {
    "package `"@ + name + "` is not in this workspace"@
}

/// A package as the workspace's metadata describes it.
pub struct ManifestPackage {
    pub name: String,
    /// The path of its `Cargo.toml`.
    pub manifest_path: String,
    /// Its manifest's `license` field, where it has one.
    pub license: Option<String>,
}

pub open spec fn names_of(packages: Seq<ManifestPackage>) -> Seq<Seq<char>> {
    packages.map_values(|p: ManifestPackage| p.name@)
}

/// The licence each chosen package declares, where all of them declare the
/// same one; nothing where none is chosen, one declares none, or two differ.
pub open spec fn agreed_among(packages: Seq<ManifestPackage>, chosen: Seq<usize>) -> Option<Seq<char>> {
    if chosen.len() > 0 && (forall|i: int| 0 <= i < chosen.len() ==> (#[trigger] chosen[i]) < packages.len()
        && packages[chosen[i] as int].license.is_some()
        && packages[chosen[i] as int].license.unwrap()@ == packages[chosen[0] as int].license.unwrap()@) {
        Some(packages[chosen[0] as int].license.unwrap()@)
    } else {
        None
    }
}

/// The directory a manifest sits in; the path itself where it has none.
pub open spec fn manifest_dir(path: Seq<char>) -> Seq<char> {
    match parent_of(path) {
        Some(d) => d,
        None => path,
    }
}

pub struct ManifestResolver;

impl ManifestResolver {
    pub const MANIFEST: &'static str = "Cargo.toml";

    /// A path as shown relative to a package root, with forward slashes.
    pub fn relative_to(root: &str, path: &str) -> (r: String)
        ensures
            r@ == relative(root@, path@),
    {
        relative_to(root, path)
    }

    fn index_of(available: &Vec<String>, name: &str) -> (r: Option<usize>)
        ensures
            match r {
                Some(i) => index_named(views(available@), name@, i as int),
                None => !views(available@).contains(name@),
            },
    {
        let mut i: usize = 0;
        while i < available.len()
            invariant
                i <= available.len(),
                forall|j: int| 0 <= j < i ==> views(available@)[j] != name@,
            decreases available.len() - i,
        {
            if same_text(available[i].as_str(), name) {
                assert(views(available@)[i as int] == name@);
                return Some(i);
            }
            i = i + 1;
        }
        assert(!views(available@).contains(name@)) by {
            if views(available@).contains(name@) {
                let k = choose|k: int| 0 <= k < views(available@).len() && views(available@)[k] == name@;
                assert(views(available@)[k] != name@);
            }
        }
        None
    }

    /// The packages to scan, by name, or the first name that matches none.
    pub fn selected(available: &Vec<String>, requested: &Vec<String>) -> (r: Result<Vec<usize>, String>)
        ensures
            match r {
                Ok(chosen) => selection_is(views(available@), views(requested@), chosen@),
                Err(message) => exists|k: int| #[trigger] is_first_unknown(views(available@), views(requested@), k)
                    && message@ == unknown_package_message(views(requested@)[k]),
            },
    {
        let mut chosen: Vec<usize> = Vec::new();
        if requested.len() == 0 {
            let mut i: usize = 0;
            while i < available.len()
                invariant
                    i <= available.len(),
                    chosen.len() == i,
                    forall|j: int| 0 <= j < i ==> chosen@[j] == j,
                decreases available.len() - i,
            {
                chosen.push(i);
                i = i + 1;
            }
            return Ok(chosen);
        }
        let mut k: usize = 0;
        while k < requested.len()
            invariant
                k <= requested.len(),
                chosen.len() == k,
                forall|j: int| 0 <= j < k ==> #[trigger] index_named(views(available@), views(requested@)[j], chosen@[j] as int),
            decreases requested.len() - k,
        {
            match Self::index_of(available, requested[k].as_str()) {
                Some(i) => {
                    chosen.push(i);
                },
                None => {
                    let mut message = String::from_str("package `");
                    message.append(requested[k].as_str());
                    message.append("` is not in this workspace");
                    assert forall|j: int| 0 <= j < k implies views(available@).contains(#[trigger] views(requested@)[j]) by {
                        assert(index_named(views(available@), views(requested@)[j], chosen@[j] as int));
                    }
                    assert(is_first_unknown(views(available@), views(requested@), k as int));
                    return Err(message);
                },
            }
            k = k + 1;
        }
        Ok(chosen)
    }

    fn names(packages: &Vec<ManifestPackage>) -> (r: Vec<String>)
        ensures
            views(r@) == names_of(packages@),
    {
        let mut r: Vec<String> = Vec::new();
        let mut i: usize = 0;
        while i < packages.len()
            invariant
                i <= packages.len(),
                views(r@) == names_of(packages@).take(i as int),
            decreases packages.len() - i,
        {
            let name = packages[i].name.clone();
            proof {
                crate::text::lemma_views_push(r@, name);
            }
            r.push(name);
            assert(names_of(packages@).take(i + 1) =~= names_of(packages@).take(i as int).push(packages@[i as int].name@));
            i = i + 1;
        }
        assert(names_of(packages@).take(packages.len() as int) =~= names_of(packages@));
        r
    }

    /// The one licence the scanned packages agree on, so that
    /// `spdx-matches-manifest` needs no flag to hold: nothing where a
    /// requested package is unknown, where a package declares none, or where
    /// two declare different ones.
    pub fn license(packages: &Vec<ManifestPackage>, requested: &Vec<String>) -> (r: Option<String>)
        ensures
            match r {
                Some(l) => exists|chosen: Seq<usize>| selection_is(names_of(packages@), views(requested@), chosen)
                    && agreed_among(packages@, chosen) == Some(l@),
                None => (exists|k: int| #[trigger] is_first_unknown(names_of(packages@), views(requested@), k))
                    || exists|chosen: Seq<usize>| selection_is(names_of(packages@), views(requested@), chosen)
                    && agreed_among(packages@, chosen).is_none(),
            },
    {
        let names = Self::names(packages);
        let chosen = match Self::selected(&names, requested) {
            Ok(chosen) => chosen,
            Err(_) => {
                return None;
            },
        };
        proof {
            if requested@.len() > 0 {
                assert forall|i: int| 0 <= i < chosen.len() implies (#[trigger] chosen@[i]) < packages.len() by {
                    assert(index_named(names_of(packages@), views(requested@)[i], chosen@[i] as int));
                }
            }
        }
        let ghost c = chosen@;
        assert(selection_is(names_of(packages@), views(requested@), c));
        if chosen.len() == 0 {
            assert(agreed_among(packages@, c).is_none());
            return None;
        }
        let first = match &packages[chosen[0]].license {
            Some(l) => l,
            None => {
                assert(agreed_among(packages@, c).is_none()) by {
                    assert(packages@[c[0] as int].license.is_none());
                }
                return None;
            },
        };
        let mut i: usize = 1;
        while i < chosen.len()
            invariant
                1 <= i <= chosen.len(),
                c == chosen@,
                selection_is(names_of(packages@), views(requested@), c),
                forall|k: int| 0 <= k < chosen.len() ==> (#[trigger] chosen@[k]) < packages.len(),
                packages@[chosen@[0] as int].license == Some(*first),
                forall|k: int| 0 <= k < i ==> packages@[(#[trigger] chosen@[k]) as int].license.is_some()
                    && packages@[chosen@[k] as int].license.unwrap()@ == first@,
            decreases chosen.len() - i,
        {
            match &packages[chosen[i]].license {
                Some(l) => {
                    if !same_text(l.as_str(), first.as_str()) {
                        assert(agreed_among(packages@, c).is_none()) by {
                            assert(packages@[c[i as int] as int].license.unwrap()@ != packages@[c[0] as int].license.unwrap()@);
                        }
                        return None;
                    }
                },
                None => {
                    assert(agreed_among(packages@, c).is_none()) by {
                        assert(packages@[c[i as int] as int].license.is_none());
                    }
                    return None;
                },
            }
            i = i + 1;
        }
        let r = first.clone();
        assert(agreed_among(packages@, c) == Some(r@));
        Some(r)
    }

    /// The directory of each package to scan, or the first requested name
    /// that matches none.
    pub fn package_roots(packages: &Vec<ManifestPackage>, requested: &Vec<String>) -> (r: Result<Vec<String>, String>)
        ensures
            match r {
                Ok(roots) => exists|chosen: Seq<usize>| {
                    &&& selection_is(names_of(packages@), views(requested@), chosen)
                    &&& roots@.len() == chosen.len()
                    &&& forall|i: int| 0 <= i < chosen.len() ==> (#[trigger] chosen[i]) < packages.len()
                        && roots@[i]@ == manifest_dir(packages@[chosen[i] as int].manifest_path@)
                },
                Err(message) => exists|k: int| #[trigger] is_first_unknown(names_of(packages@), views(requested@), k)
                    && message@ == unknown_package_message(views(requested@)[k]),
            },
    {
        let names = Self::names(packages);
        let chosen = match Self::selected(&names, requested) {
            Ok(chosen) => chosen,
            Err(message) => return Err(message),
        };
        proof {
            if requested@.len() > 0 {
                assert forall|i: int| 0 <= i < chosen.len() implies (#[trigger] chosen@[i]) < packages.len() by {
                    assert(index_named(names_of(packages@), views(requested@)[i], chosen@[i] as int));
                }
            }
        }
        let mut roots: Vec<String> = Vec::new();
        let mut i: usize = 0;
        while i < chosen.len()
            invariant
                i <= chosen.len(),
                forall|k: int| 0 <= k < chosen.len() ==> (#[trigger] chosen@[k]) < packages.len(),
                roots@.len() == i,
                forall|k: int| 0 <= k < i ==> roots@[k]@ == manifest_dir(packages@[(#[trigger] chosen@[k]) as int].manifest_path@),
            decreases chosen.len() - i,
        {
            let path = packages[chosen[i]].manifest_path.as_str();
            let dir = match parent(path) {
                Some(d) => d,
                None => String::from_str(path),
            };
            roots.push(dir);
            i = i + 1;
        }
        Ok(roots)
    }
}

} // verus!
