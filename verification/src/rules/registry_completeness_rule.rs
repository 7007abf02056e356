//! A registry declares every file beside it, so nothing in the tree goes
//! uncompiled.
//!
//! Only one direction needs a rule: `pub mod missing;` with no `missing.rs` is
//! a compile error that rustc already reports, while an orphan `.rs` file that
//! no registry declares produces no error and no warning at all. Silence is
//! the whole failure, so silence is all this rule looks for.
use vstd::prelude::*;
use crate::offence::{all_by, lemma_all_by_concat, lemma_all_by_push, offence_views, plain, Offence, OffenceView};
use crate::package_tree::{expected_modules, package_directories, paths_of, registries_in, PackageTree};
use crate::registry_parser::{declared_modules, RegistryParser};
use crate::source_file::{rejoined, SourceFile};
use crate::syntax::{file_outline, parse_failure, ItemOutline};
use crate::text::{contains_text, extend_texts, forward_slashes, same_text, views, with_forward_slashes};

verus! {

pub open spec fn completeness_rule_name() -> Seq<char> {
    "registry-completeness"@
}

pub open spec fn undeclared_offence(registry: Seq<char>, name: Seq<char>) -> OffenceView {
    plain(
        forward_slashes(registry),
        1,
        completeness_rule_name(),
        "`"@ + name + "` is not declared here, so its file is never compiled"@,
        "add `pub mod "@ + name + ";` to "@ + forward_slashes(registry),
    ).about(name)
}

/// The first file, from `k` on, whose path is `path` once both are written
/// with forward slashes.
pub open spec fn file_at_from(paths: Seq<Seq<char>>, path: Seq<char>, k: int) -> Option<int>
    decreases paths.len() - k,
{
    if k < 0 || k >= paths.len() {
        None
    } else if forward_slashes(paths[k]) == forward_slashes(path) {
        Some(k)
    } else {
        file_at_from(paths, path, k + 1)
    }
}

/// Every module the registries declare, registry by registry; nothing where
/// any of them is missing or does not parse.
pub open spec fn declared_by(
    paths: Seq<Seq<char>>,
    outlines: Seq<Option<Vec<ItemOutline>>>,
    registries: Seq<Seq<char>>,
) -> Option<Seq<Seq<char>>>
    decreases registries.len(),
{
    if registries.len() == 0 {
        Some(Seq::<Seq<char>>::empty())
    } else {
        match declared_by(paths, outlines, registries.drop_last()) {
            None => None,
            Some(earlier) => match file_at_from(paths, registries.last(), 0) {
                None => None,
                Some(k) => if 0 <= k < outlines.len() {
                    match outlines[k] {
                        Some(items) => Some(earlier + declared_modules(items@)),
                        None => None,
                    }
                } else {
                    None
                },
            },
        }
    }
}

/// One offence, against `registry`, for each expected module not declared.
pub open spec fn undeclared(expected: Seq<Seq<char>>, declared: Seq<Seq<char>>, registry: Seq<char>) -> Seq<OffenceView>
    decreases expected.len(),
{
    if expected.len() == 0 {
        Seq::<OffenceView>::empty()
    } else if declared.contains(expected.last()) {
        undeclared(expected.drop_last(), declared, registry)
    } else {
        undeclared(expected.drop_last(), declared, registry).push(undeclared_offence(registry, expected.last()))
    }
}

pub open spec fn directory_offences(
    paths: Seq<Seq<char>>,
    outlines: Seq<Option<Vec<ItemOutline>>>,
    dir: Seq<char>,
) -> Seq<OffenceView> {
    let registries = registries_in(paths, dir);
    if registries.len() == 0 {
        Seq::<OffenceView>::empty()
    } else {
        match declared_by(paths, outlines, registries) {
            None => Seq::<OffenceView>::empty(),
            Some(declared) => undeclared(
                expected_modules(paths, package_directories(paths), dir),
                declared,
                registries[0],
            ),
        }
    }
}

pub open spec fn completeness_offences(
    paths: Seq<Seq<char>>,
    outlines: Seq<Option<Vec<ItemOutline>>>,
    dirs: Seq<Seq<char>>,
) -> Seq<OffenceView>
    decreases dirs.len(),
{
    if dirs.len() == 0 {
        Seq::<OffenceView>::empty()
    } else {
        completeness_offences(paths, outlines, dirs.drop_last()) + directory_offences(paths, outlines, dirs.last())
    }
}

/// Every offence the rule finds is reported under its name.
pub proof fn lemma_completeness_by_rule(
    paths: Seq<Seq<char>>,
    outlines: Seq<Option<Vec<ItemOutline>>>,
    dirs: Seq<Seq<char>>,
)
    ensures
        all_by(completeness_offences(paths, outlines, dirs), completeness_rule_name()),
    decreases dirs.len(),
{
    if dirs.len() > 0 {
        lemma_completeness_by_rule(paths, outlines, dirs.drop_last());
        let registries = registries_in(paths, dirs.last());
        if registries.len() > 0 {
            match declared_by(paths, outlines, registries) {
                Some(declared) => lemma_undeclared_by_rule(
                    expected_modules(paths, package_directories(paths), dirs.last()),
                    declared,
                    registries[0],
                ),
                None => {},
            }
        }
        lemma_all_by_concat(
            completeness_offences(paths, outlines, dirs.drop_last()),
            directory_offences(paths, outlines, dirs.last()),
            completeness_rule_name(),
        );
    }
}

pub proof fn lemma_undeclared_by_rule(expected: Seq<Seq<char>>, declared: Seq<Seq<char>>, registry: Seq<char>)
    ensures
        all_by(undeclared(expected, declared, registry), completeness_rule_name()),
    decreases expected.len(),
{
    if expected.len() > 0 {
        lemma_undeclared_by_rule(expected.drop_last(), declared, registry);
        if !declared.contains(expected.last()) {
            lemma_all_by_push(
                undeclared(expected.drop_last(), declared, registry),
                undeclared_offence(registry, expected.last()),
                completeness_rule_name(),
            );
        }
    }
}

pub struct RegistryCompletenessRule;

impl RegistryCompletenessRule {
    pub fn new() -> (r: RegistryCompletenessRule) {
        RegistryCompletenessRule
    }

    pub fn name(&self) -> (r: &'static str)
        ensures
            r@ == completeness_rule_name(),
    {
        "registry-completeness"
    }

    /// Where among the files the registry is.
    pub fn file_at(files: &Vec<SourceFile>, path: &str) -> (r: Option<usize>)
        ensures
            match r {
                Some(k) => file_at_from(paths_of(files@), path@, 0) == Some(k as int),
                None => file_at_from(paths_of(files@), path@, 0).is_none(),
            },
    {
        let ghost paths = paths_of(files@);
        let wanted = with_forward_slashes(path);
        let mut i: usize = 0;
        while i < files.len()
            invariant
                i <= files.len(),
                paths == paths_of(files@),
                wanted@ == forward_slashes(path@),
                file_at_from(paths, path@, 0) == file_at_from(paths, path@, i as int),
            decreases files.len() - i,
        {
            let here = with_forward_slashes(files[i].relative_path());
            if same_text(here.as_str(), wanted.as_str()) {
                return Some(i);
            }
            i = i + 1;
        }
        None
    }

    fn offence(&self, registry: &str, name: &str) -> (o: Offence)
        ensures
            o@ == undeclared_offence(registry@, name@),
    {
        let registry = with_forward_slashes(registry);
        let mut description = String::from_str("`");
        description.append(name);
        description.append("` is not declared here, so its file is never compiled");
        let mut correction = String::from_str("add `pub mod ");
        correction.append(name);
        correction.append(";` to ");
        correction.append(registry.as_str());
        Offence::new(registry.as_str(), 1, self.name(), description, correction).with_subject(name)
    }

    fn declared_by(
        files: &Vec<SourceFile>,
        outlines: &Vec<Option<Vec<ItemOutline>>>,
        registries: &Vec<String>,
    ) -> (r: Option<Vec<String>>)
        ensures
            match r {
                Some(declared) => declared_by(paths_of(files@), outlines@, views(registries@)) == Some(views(declared@)),
                None => declared_by(paths_of(files@), outlines@, views(registries@)).is_none(),
            },
    {
        let ghost paths = paths_of(files@);
        let ghost regs = views(registries@);
        let mut declared: Vec<String> = Vec::new();
        let mut i: usize = 0;
        assert(regs.take(0) =~= Seq::<Seq<char>>::empty());
        while i < registries.len()
            invariant
                i <= registries.len(),
                paths == paths_of(files@),
                regs == views(registries@),
                declared_by(paths, outlines@, regs.take(i as int)) == Some(views(declared@)),
            decreases registries.len() - i,
        {
            assert(regs.take(i + 1).drop_last() == regs.take(i as int));
            assert(regs.take(i + 1).last() == regs[i as int]);
            match Self::file_at(files, registries[i].as_str()) {
                None => {
                    assert(declared_by(paths, outlines@, regs.take(i + 1)).is_none());
                    proof {
                        Self::lemma_declared_by_stays_none(paths, outlines@, regs, i as int + 1);
                    }
                    return None;
                },
                Some(k) => {
                    if k >= outlines.len() {
                        proof {
                            Self::lemma_declared_by_stays_none(paths, outlines@, regs, i as int + 1);
                        }
                        return None;
                    }
                    match &outlines[k] {
                        None => {
                            proof {
                                Self::lemma_declared_by_stays_none(paths, outlines@, regs, i as int + 1);
                            }
                            return None;
                        },
                        Some(items) => {
                            let found = RegistryParser::declared_in(items);
                            extend_texts(&mut declared, found);
                        },
                    }
                },
            }
            i = i + 1;
        }
        assert(regs.take(registries.len() as int) == regs);
        Some(declared)
    }

    proof fn lemma_declared_by_stays_none(
        paths: Seq<Seq<char>>,
        outlines: Seq<Option<Vec<ItemOutline>>>,
        regs: Seq<Seq<char>>,
        n: int,
    )
        requires
            0 <= n <= regs.len(),
            declared_by(paths, outlines, regs.take(n)).is_none(),
        ensures
            declared_by(paths, outlines, regs).is_none(),
        decreases regs.len() - n,
    {
        if n < regs.len() {
            assert(regs.take(n + 1).drop_last() == regs.take(n));
            Self::lemma_declared_by_stays_none(paths, outlines, regs, n + 1);
        } else {
            assert(regs.take(n) == regs);
        }
    }

    fn directory(
        &self,
        tree: &PackageTree,
        files: &Vec<SourceFile>,
        outlines: &Vec<Option<Vec<ItemOutline>>>,
        directory: &str,
        out: &mut Vec<Offence>,
    )
        requires
            tree@.files == paths_of(files@),
            tree@.directories == package_directories(paths_of(files@)),
        ensures
            offence_views(final(out)@) == offence_views(old(out)@) + directory_offences(paths_of(files@), outlines@, directory@),
    {
        let registries = tree.registries_in(directory);
        if registries.len() == 0 {
            assert(offence_views(out@) =~= offence_views(out@) + Seq::<OffenceView>::empty());
            return;
        }
        let declared = match Self::declared_by(files, outlines, &registries) {
            Some(d) => d,
            None => {
                assert(offence_views(out@) =~= offence_views(out@) + Seq::<OffenceView>::empty());
                return;
            },
        };
        let expected = tree.expected_modules_in(directory);
        let ghost start = offence_views(out@);
        let ghost exp = views(expected@);
        let ghost registry = views(registries@)[0];
        let mut i: usize = 0;
        assert(exp.take(0) =~= Seq::<Seq<char>>::empty());
        assert(start + undeclared(exp.take(0), views(declared@), registry) =~= start);
        while i < expected.len()
            invariant
                i <= expected.len(),
                registries.len() > 0,
                exp == views(expected@),
                registry == views(registries@)[0],
                offence_views(out@) == start + undeclared(exp.take(i as int), views(declared@), registry),
            decreases expected.len() - i,
        {
            assert(exp.take(i + 1).drop_last() == exp.take(i as int));
            assert(exp.take(i + 1).last() == exp[i as int]);
            if !contains_text(&declared, expected[i].as_str()) {
                let o = self.offence(registries[0].as_str(), expected[i].as_str());
                let ghost before = out@;
                out.push(o);
                assert(offence_views(out@) =~= offence_views(before).push(o@));
            }
            i = i + 1;
        }
        assert(exp.take(expected.len() as int) == exp);
    }

    /// The offences, given the outline of every file that parses.
    pub fn check_outlines(&self, files: &Vec<SourceFile>, outlines: &Vec<Option<Vec<ItemOutline>>>) -> (r: Vec<Offence>)
        ensures
            offence_views(r@) == completeness_offences(
                paths_of(files@),
                outlines@,
                package_directories(paths_of(files@)),
            ),
    {
        let tree = PackageTree::of(files);
        let directories = tree.directories();
        let ghost dirs = views(directories@);
        let mut r: Vec<Offence> = Vec::new();
        let mut i: usize = 0;
        assert(dirs.take(0) =~= Seq::<Seq<char>>::empty());
        while i < directories.len()
            invariant
                i <= directories.len(),
                dirs == views(directories@),
                tree@.files == paths_of(files@),
                tree@.directories == package_directories(paths_of(files@)),
                dirs == tree@.directories,
                offence_views(r@) == completeness_offences(paths_of(files@), outlines@, dirs.take(i as int)),
            decreases directories.len() - i,
        {
            assert(dirs.take(i + 1).drop_last() == dirs.take(i as int));
            assert(dirs.take(i + 1).last() == dirs[i as int]);
            self.directory(&tree, files, outlines, directories[i].as_str(), &mut r);
            i = i + 1;
        }
        assert(dirs.take(directories.len() as int) == dirs);
        r
    }

    pub fn check_workspace(&self, files: &Vec<SourceFile>) -> (r: Vec<Offence>)
        ensures
            exists|outlines: Seq<Option<Vec<ItemOutline>>>| {
                &&& outlines.len() == files@.len()
                &&& forall|k: int| 0 <= k < files@.len()
                    ==> (#[trigger] outlines[k].is_none() <==> parse_failure(crate::syntax::parsed_text(files@[k]@.lines)).is_some())
                &&& forall|k: int| 0 <= k < files@.len() ==> (#[trigger] outlines[k] matches Some(v) ==> v@
                    == crate::syntax::file_syntax(files@[k]@))
                &&& offence_views(r@) == completeness_offences(
                    paths_of(files@),
                    outlines,
                    package_directories(paths_of(files@)),
                )
            },
    {
        let mut outlines: Vec<Option<Vec<ItemOutline>>> = Vec::new();
        let mut i: usize = 0;
        while i < files.len()
            invariant
                i <= files.len(),
                outlines.len() == i,
                forall|k: int| 0 <= k < i
                    ==> (#[trigger] outlines@[k].is_none() <==> parse_failure(crate::syntax::parsed_text(files@[k]@.lines)).is_some()),
                forall|k: int| 0 <= k < i ==> (#[trigger] outlines@[k] matches Some(v) ==> v@
                    == crate::syntax::file_syntax(files@[k]@)),
            decreases files.len() - i,
        {
            outlines.push(file_outline(&files[i]));
            i = i + 1;
        }
        self.check_outlines(files, &outlines)
    }
}

} // verus!
