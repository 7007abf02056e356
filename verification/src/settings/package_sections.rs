//! The `[package.<name>]` sections of the root configuration file, and the two
//! questions asked of them: which section applies to the package about to be
//! walked, and does every section name a package this run actually scans.
use vstd::prelude::*;
use crate::settings::config_file::ConfigFile;
use crate::settings::package_config::PackageConfig;
use crate::settings::rule_selection::{holds, not_known};
use crate::settings::scanned_package::ScannedPackage;
use crate::text::{
    insert_all_sorted, join, join_texts, lemma_views_push, same_text, strictly_sorted, views,
};

verus! {

pub open spec fn config_file_name() -> Seq<char> {
    "stern4rust.toml"@
}

pub open spec fn section_names(sections: Seq<(String, PackageConfig)>) -> Seq<Seq<char>> {
    sections.map_values(|entry: (String, PackageConfig)| entry.0@)
}

pub open spec fn package_names(packages: Seq<ScannedPackage>) -> Seq<Seq<char>> {
    packages.map_values(|p: ScannedPackage| p.name@)
}

/// The message a section naming no scanned package is refused with.
pub open spec fn unscanned_message(unknown: Seq<Seq<char>>, scanned: Seq<Seq<char>>) -> Seq<char> {
    config_file_name() + " configures package(s) this run does not scan: "@ + join(unknown, ", "@)
        + " -- it scans: "@ + join(scanned, ", "@)
}

pub struct PackageSections {
    sections: Vec<(String, PackageConfig)>,
}

impl PackageSections {
    /// The sections, keyed by package name.
    pub closed spec fn entries(&self) -> Seq<(String, PackageConfig)> {
        self.sections@
    }

    /// The sections come keyed and in key order, as a map of them is.
    pub fn new(sections: Vec<(String, PackageConfig)>) -> (r: PackageSections)
        requires
            strictly_sorted(section_names(sections@)),
        ensures
            r.entries() == sections@,
    {
        PackageSections { sections }
    }

    /// The sections of the configuration file found beside the manifest; none
    /// where there is no file. No file and a file with no sections are the
    /// same answer here.
    pub fn load(found: Option<ConfigFile>) -> (r: PackageSections)
        requires
            found.is_some() ==> strictly_sorted(section_names(found.unwrap().packages@)),
        ensures
            r.entries() == match found {
                Some(file) => file.packages@,
                None => Seq::<(String, PackageConfig)>::empty(),
            },
    {
        match found {
            Some(file) => Self::new(file.packages),
            None => {
                let none: Vec<(String, PackageConfig)> = Vec::new();
                assert(section_names(none@) =~= Seq::<Seq<char>>::empty());
                Self::new(none)
            },
        }
    }

    pub fn of(&self, name: &str) -> (r: Option<&PackageConfig>)
        ensures
            match r {
                Some(c) => exists|i: int| 0 <= i < self.entries().len()
                    && self.entries()[i].0@ == name@ && self.entries()[i].1 == *c,
                None => !section_names(self.entries()).contains(name@),
            },
    {
        let mut i: usize = 0;
        while i < self.sections.len()
            invariant
                i <= self.sections.len(),
                forall|j: int| 0 <= j < i ==> section_names(self.sections@)[j] != name@,
            decreases self.sections.len() - i,
        {
            if same_text(self.sections[i].0.as_str(), name) {
                assert(self.entries()[i as int].0@ == name@ && self.entries()[i as int].1 == self.sections@[i as int].1);
                return Some(&self.sections[i].1);
            }
            i = i + 1;
        }
        assert(!section_names(self.entries()).contains(name@)) by {
            if section_names(self.entries()).contains(name@) {
                let k = choose|k: int| 0 <= k < section_names(self.entries()).len() && section_names(self.entries())[k] == name@;
                assert(section_names(self.sections@)[k] != name@);
            }
        }
        None
    }

    /// Every rule any section stands down on, sorted, each once.
    pub fn skipped_anywhere(&self) -> (r: Vec<String>)
        ensures
            strictly_sorted(views(r@)),
            forall|t: Seq<char>| #[trigger] views(r@).contains(t) <==> exists|i: int|
                0 <= i < self.entries().len() && views(self.entries()[i].1.skip@).contains(t),
    {
        let mut r: Vec<String> = Vec::new();
        assert(views(r@) =~= Seq::<Seq<char>>::empty());
        let mut i: usize = 0;
        while i < self.sections.len()
            invariant
                i <= self.sections.len(),
                strictly_sorted(views(r@)),
                forall|t: Seq<char>| #[trigger] views(r@).contains(t) <==> exists|k: int|
                    0 <= k < i && views(self.sections@[k].1.skip@).contains(t),
            decreases self.sections.len() - i,
        {
            let ghost before = views(r@);
            insert_all_sorted(&mut r, &self.sections[i].1.skip);
            assert forall|t: Seq<char>| #[trigger] views(r@).contains(t) <==> exists|k: int|
                0 <= k < i + 1 && views(self.sections@[k].1.skip@).contains(t) by {
                if views(self.sections@[i as int].1.skip@).contains(t) {
                    assert(0 <= i < i + 1);
                }
                if before.contains(t) {
                    let k = choose|k: int| 0 <= k < i && views(self.sections@[k].1.skip@).contains(t);
                    assert(0 <= k < i + 1);
                }
            }
            i = i + 1;
        }
        r
    }

    pub fn is_empty(&self) -> (b: bool)
        ensures
            b == (self.entries().len() == 0),
    {
        self.sections.len() == 0
    }

    /// A section naming no package this run scans is an error, for the reason
    /// a misspelled rule name is: it reads as a rule set being applied.
    pub fn validate(&self, packages: &[ScannedPackage]) -> (r: Result<(), String>)
        ensures
            not_known(section_names(self.entries()), package_names(packages@)).len() == 0 ==> r is Ok,
            not_known(section_names(self.entries()), package_names(packages@)).len() > 0 ==> r is Err
                && r->Err_0@ == unscanned_message(
                    not_known(section_names(self.entries()), package_names(packages@)),
                    package_names(packages@),
                ),
    {
        let mut scanned: Vec<String> = Vec::new();
        let mut p: usize = 0;
        while p < packages.len()
            invariant
                p <= packages.len(),
                views(scanned@) == package_names(packages@).take(p as int),
            decreases packages.len() - p,
        {
            let c = packages[p].name.clone();
            proof {
                lemma_views_push(scanned@, c);
            }
            scanned.push(c);
            p = p + 1;
            assert(views(scanned@) =~= package_names(packages@).take(p as int));
        }
        assert(package_names(packages@).take(packages.len() as int) == package_names(packages@));
        let mut unknown: Vec<String> = Vec::new();
        let ghost names = section_names(self.sections@);
        let mut i: usize = 0;
        assert(names.take(0) =~= Seq::<Seq<char>>::empty());
        while i < self.sections.len()
            invariant
                i <= self.sections.len(),
                names == section_names(self.sections@),
                views(scanned@) == package_names(packages@),
                views(unknown@) == not_known(names.take(i as int), views(scanned@)),
            decreases self.sections.len() - i,
        {
            assert(names.take(i + 1).drop_last() == names.take(i as int));
            assert(names.take(i + 1).last() == self.sections@[i as int].0@);
            if !holds(&scanned, self.sections[i].0.as_str()) {
                let c = self.sections[i].0.clone();
                proof {
                    lemma_views_push(unknown@, c);
                }
                unknown.push(c);
            }
            i = i + 1;
        }
        assert(names.take(self.sections.len() as int) == names);
        if unknown.len() == 0 {
            return Ok(());
        }
        let mut message = String::from_str("stern4rust.toml");
        message.append(" configures package(s) this run does not scan: ");
        message.append(join_texts(&unknown, ", ").as_str());
        message.append(" -- it scans: ");
        message.append(join_texts(&scanned, ", ").as_str());
        Err(message)
    }
}

} // verus!
