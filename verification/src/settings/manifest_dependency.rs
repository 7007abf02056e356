//! One dependency as a member manifest declares it.
use vstd::prelude::*;
use crate::text::same_text;

verus! {

pub struct ManifestDependency {
    pub name: String,
    /// The manifest declaring it, relative to the workspace root.
    pub manifest: String,
    /// The table it is declared in, such as `dependencies`.
    pub section: String,
    /// Written as `name = { workspace = true }` or `name.workspace = true`.
    pub takes_from_workspace: bool,
}

/// The declarations made in one manifest, in the order they were found.
pub open spec fn declared_in_manifest(all: Seq<ManifestDependency>, manifest: Seq<char>) -> Seq<ManifestDependency>
    decreases all.len(),
{
    if all.len() == 0 {
        Seq::<ManifestDependency>::empty()
    } else if all.last().manifest@ == manifest {
        declared_in_manifest(all.drop_last(), manifest).push(all.last())
    } else {
        declared_in_manifest(all.drop_last(), manifest)
    }
}

/// A declaration as plain values.
pub open spec fn dependency_view(d: ManifestDependency) -> (Seq<char>, Seq<char>, Seq<char>, bool) {
    (d.name@, d.manifest@, d.section@, d.takes_from_workspace)
}

/// Declarations as plain values, where there are any.
pub open spec fn dependencies_view(o: Option<Vec<ManifestDependency>>) -> Option<Seq<(Seq<char>, Seq<char>, Seq<char>, bool)>> {
    match o {
        Some(v) => Some(v@.map_values(|d: ManifestDependency| dependency_view(d))),
        None => None,
    }
}

/// Whether the two hold the same declarations, or both none.
pub fn same_dependencies(a: &Option<Vec<ManifestDependency>>, b: &Option<Vec<ManifestDependency>>) -> (r: bool)
    ensures
        r == (dependencies_view(*a) == dependencies_view(*b)),
{
    match (a, b) {
        (Some(x), Some(y)) => {
            let ghost vx = x@.map_values(|d: ManifestDependency| dependency_view(d));
            let ghost vy = y@.map_values(|d: ManifestDependency| dependency_view(d));
            if x.len() != y.len() {
                assert(vx.len() != vy.len());
                assert(dependencies_view(*a) == Some(vx));
                assert(dependencies_view(*b) == Some(vy));
                return false;
            }
            assert(dependencies_view(*a) == Some(vx));
            assert(dependencies_view(*b) == Some(vy));
            let mut i: usize = 0;
            while i < x.len()
                invariant
                    x.len() == y.len(),
                    i <= x.len(),
                    vx == x@.map_values(|d: ManifestDependency| dependency_view(d)),
                    vy == y@.map_values(|d: ManifestDependency| dependency_view(d)),
                    forall|k: int| 0 <= k < i ==> vx[k] == vy[k],
                    dependencies_view(*a) == Some(vx),
                    dependencies_view(*b) == Some(vy),
                decreases x.len() - i,
            {
                let same = crate::text::same_text(x[i].name.as_str(), y[i].name.as_str())
                    && crate::text::same_text(x[i].manifest.as_str(), y[i].manifest.as_str())
                    && crate::text::same_text(x[i].section.as_str(), y[i].section.as_str())
                    && x[i].takes_from_workspace == y[i].takes_from_workspace;
                if !same {
                    assert(vx[i as int] != vy[i as int]);
                    assert(vx != vy);
                    assert(dependencies_view(*a) == Some(vx));
                    assert(dependencies_view(*b) == Some(vy));
                    return false;
                }
                i = i + 1;
            }
            assert(vx =~= vy);
            assert(dependencies_view(*a) == Some(vx));
            assert(dependencies_view(*b) == Some(vy));
            true
        },
        (None, None) => true,
        _ => false,
    }
}

impl ManifestDependency {
    pub fn copied(&self) -> (r: ManifestDependency)
        ensures
            r == *self,
    {
        ManifestDependency {
            name: self.name.clone(),
            manifest: self.manifest.clone(),
            section: self.section.clone(),
            takes_from_workspace: self.takes_from_workspace,
        }
    }

    /// A finding about one manifest belongs to the package that owns it and
    /// to no other, so each package is handed its own declarations only.
    pub fn in_manifest(
        declared: &Option<Vec<ManifestDependency>>,
        manifest: &str,
    ) -> (r: Option<Vec<ManifestDependency>>)
        ensures
            match declared {
                None => r.is_none(),
                Some(all) => r.is_some() && r.unwrap()@ == declared_in_manifest(all@, manifest@),
            },
    {
        match declared {
            None => None,
            Some(all) => {
                let mut kept: Vec<ManifestDependency> = Vec::new();
                let mut i: usize = 0;
                assert(all@.take(0) =~= Seq::<ManifestDependency>::empty());
                while i < all.len()
                    invariant
                        i <= all.len(),
                        kept@ == declared_in_manifest(all@.take(i as int), manifest@),
                    decreases all.len() - i,
                {
                    assert(all@.take(i + 1).drop_last() == all@.take(i as int));
                    assert(all@.take(i + 1).last() == all@[i as int]);
                    if same_text(all[i].manifest.as_str(), manifest) {
                        kept.push(all[i].copied());
                    }
                    i = i + 1;
                }
                assert(all@.take(all.len() as int) == all@);
                Some(kept)
            },
        }
    }
}

} // verus!
