//! A directory holds a number of files a reader can hold in their head.
//!
//! Registries do not count: a `mod.rs`, `lib.rs` or `all_tests.rs` is an index
//! of the directory rather than something in it. `main.rs` does count, being
//! an entry point that holds real code.
use vstd::prelude::*;
use crate::rule_explanation::RuleExplanation;
use crate::offence::{all_by, lemma_all_by_push, offence_views, plain, Offence, OffenceView};
use crate::package_tree::{
    file_name, files_in, name_of_file, package_directories, paths_of, registries_in, PackageTree,
};
use crate::source_file::SourceFile;
use crate::text::{
    decimal, decimal_text, forward_slashes, is_empty_text, same_text, views, with_forward_slashes,
};

verus! {

pub open spec fn file_count_rule_name() -> Seq<char> {
    "directory-file-count"@
}

pub open spec fn is_index_name(name: Seq<char>) -> bool {
    name == "all_tests.rs"@ || name == "lib.rs"@ || name == "mod.rs"@
}

/// How many of the files are not indexes.
pub open spec fn counted(files: Seq<Seq<char>>) -> nat
    decreases files.len(),
{
    if files.len() == 0 {
        0
    } else {
        counted(files.drop_last()) + if is_index_name(file_name(files.last())) { 0nat } else { 1nat }
    }
}

/// A directory as a report names it: the root by those words.
pub open spec fn shown(path: Seq<char>) -> Seq<char> {
    let s = forward_slashes(path);
    if s.len() == 0 || s == "."@ { "the package root"@ } else { s }
}

/// Where an offence about a directory is reported: its first registry, or
/// the directory itself where it has none.
pub open spec fn carrier(files: Seq<Seq<char>>, dir: Seq<char>) -> Seq<char> {
    let registries = registries_in(files, dir);
    if registries.len() > 0 { shown(registries[0]) } else { shown(dir) }
}

pub open spec fn file_count_offence(files: Seq<Seq<char>>, dir: Seq<char>, found: nat, limit: nat) -> OffenceView {
    plain(
        carrier(files, dir),
        1,
        file_count_rule_name(),
        shown(dir) + " holds "@ + decimal(found) + " files, more than the "@ + decimal(limit)
            + " a directory may hold"@,
        "group the files of "@ + shown(dir) + " into subfolders of at most "@ + decimal(limit)
            + " each, each with its own mod.rs declared by this index"@,
    ).about(shown(dir))
}

/// One offence per directory, in the order given, that holds more counted
/// files than the limit.
pub open spec fn file_count_offences(files: Seq<Seq<char>>, dirs: Seq<Seq<char>>, limit: nat) -> Seq<OffenceView>
    decreases dirs.len(),
{
    if dirs.len() == 0 {
        Seq::<OffenceView>::empty()
    } else {
        let earlier = file_count_offences(files, dirs.drop_last(), limit);
        let found = counted(files_in(files, dirs.last()));
        if found > limit { earlier.push(file_count_offence(files, dirs.last(), found, limit)) } else { earlier }
    }
}

/// Every offence the rule finds is reported under its name.
pub proof fn lemma_file_count_by_rule(files: Seq<Seq<char>>, dirs: Seq<Seq<char>>, limit: nat)
    ensures
        all_by(file_count_offences(files, dirs, limit), file_count_rule_name()),
    decreases dirs.len(),
{
    if dirs.len() > 0 {
        lemma_file_count_by_rule(files, dirs.drop_last(), limit);
        let found = counted(files_in(files, dirs.last()));
        if found > limit {
            lemma_all_by_push(
                file_count_offences(files, dirs.drop_last(), limit),
                file_count_offence(files, dirs.last(), found, limit),
                file_count_rule_name(),
            );
        }
    }
}

/// What the rule wants, a scrap of source that breaks it and the same scrap
/// put right.
pub open spec fn file_count_explanation() -> (Seq<char>, Seq<char>, Seq<char>, Seq<char>) {
    (
        file_count_rule_name(),
        "A directory holds a number of files a reader can hold in their head."@,
        "src/parsing/  -- 24 files"@,
        "src/parsing/  -- 12 files\nsrc/parsing/naming/  -- 12 files"@,
    )
}

pub struct DirectoryFileCountRule {
    limit: usize,
}

impl DirectoryFileCountRule {
    pub const DEFAULT_LIMIT: usize = 20;

    pub fn new(limit: usize) -> (r: DirectoryFileCountRule)
        ensures
            r.limit() == limit,
    {
        DirectoryFileCountRule { limit }
    }

    /// The rule at its default limit of twenty.
    pub fn with_default_limit() -> (r: DirectoryFileCountRule)
        ensures
            r.limit() == 20,
    {
        Self::new(Self::DEFAULT_LIMIT)
    }

    pub closed spec fn limit(&self) -> usize {
        self.limit
    }

    pub fn name(&self) -> (r: &'static str)
        ensures
            r@ == file_count_rule_name(),
    {
        "directory-file-count"
    }

    /// What the rule wants, a scrap of source that breaks it and the same
    /// scrap put right.
    pub fn explanation(&self) -> (r: RuleExplanation)
        ensures
            r@ == file_count_explanation(),
    {
        RuleExplanation::new(
            self.name(),
            "A directory holds a number of files a reader can hold in their head.",
            "src/parsing/  -- 24 files",
            "src/parsing/  -- 12 files\nsrc/parsing/naming/  -- 12 files",
        )
    }

    pub fn is_index(path: &str) -> (b: bool)
        ensures
            b == is_index_name(file_name(path@)),
    {
        let name = name_of_file(path);
        same_text(name.as_str(), "all_tests.rs") || same_text(name.as_str(), "lib.rs")
            || same_text(name.as_str(), "mod.rs")
    }

    pub fn counted_in(tree: &PackageTree, directory: &str) -> (n: usize)
        ensures
            n == counted(files_in(tree@.files, directory@)),
    {
        let files = tree.files_in(directory);
        let ghost all = views(files@);
        let mut n: usize = 0;
        let mut i: usize = 0;
        assert(all.take(0) =~= Seq::<Seq<char>>::empty());
        while i < files.len()
            invariant
                i <= files.len(),
                all == views(files@),
                n == counted(all.take(i as int)),
                n <= i,
            decreases files.len() - i,
        {
            assert(all.take(i + 1).drop_last() == all.take(i as int));
            assert(all.take(i + 1).last() == files@[i as int]@);
            if !Self::is_index(files[i].as_str()) {
                n = n + 1;
            }
            i = i + 1;
        }
        assert(all.take(files.len() as int) == all);
        n
    }

    pub fn shown(path: &str) -> (r: String)
        ensures
            r@ == shown(path@),
    {
        let s = with_forward_slashes(path);
        if is_empty_text(s.as_str()) || same_text(s.as_str(), ".") {
            String::from_str("the package root")
        } else {
            s
        }
    }

    /// Where an offence about the directory is reported.
    pub fn carrier(tree: &PackageTree, directory: &str) -> (r: String)
        ensures
            r@ == carrier(tree@.files, directory@),
    {
        let registries = tree.registries_in(directory);
        if registries.len() > 0 {
            Self::shown(registries[0].as_str())
        } else {
            Self::shown(directory)
        }
    }

    fn offence(&self, tree: &PackageTree, directory: &str, found: usize) -> (o: Offence)
        ensures
            o@ == file_count_offence(tree@.files, directory@, found as nat, self.limit() as nat),
    {
        let subject = Self::shown(directory);
        let carrier = Self::carrier(tree, directory);
        let limit = decimal_text(self.limit);
        let mut description = subject.clone();
        description.append(" holds ");
        description.append(decimal_text(found).as_str());
        description.append(" files, more than the ");
        description.append(limit.as_str());
        description.append(" a directory may hold");
        let mut correction = String::from_str("group the files of ");
        correction.append(subject.as_str());
        correction.append(" into subfolders of at most ");
        correction.append(limit.as_str());
        correction.append(" each, each with its own mod.rs declared by this index");
        Offence::new(carrier.as_str(), 1, self.name(), description, correction).with_subject(subject.as_str())
    }

    /// Nothing: a directory's size is no fact about any one file.
    pub fn check(&self, file: &SourceFile) -> (r: Vec<Offence>)
        ensures
            r@.len() == 0,
    {
        Vec::new()
    }

    pub fn check_workspace(&self, files: &Vec<SourceFile>) -> (r: Vec<Offence>)
        ensures
            offence_views(r@) == file_count_offences(
                paths_of(files@),
                package_directories(paths_of(files@)),
                self.limit() as nat,
            ),
    {
        let tree = PackageTree::of(files);
        let directories = tree.directories();
        let ghost dirs = views(directories@);
        let mut r: Vec<Offence> = Vec::new();
        let mut i: usize = 0;
        assert(dirs.take(0) =~= Seq::<Seq<char>>::empty());
        while i < directories.len()
            invariant
                i <= directories.len(),
                dirs == views(directories@),
                dirs == tree@.directories,
                offence_views(r@) == file_count_offences(tree@.files, dirs.take(i as int), self.limit as nat),
            decreases directories.len() - i,
        {
            assert(dirs.take(i + 1).drop_last() == dirs.take(i as int));
            assert(dirs.take(i + 1).last() == directories@[i as int]@);
            let found = Self::counted_in(&tree, directories[i].as_str());
            if found > self.limit {
                let o = self.offence(&tree, directories[i].as_str(), found);
                r.push(o);
                assert(offence_views(r@) =~= offence_views(r@.drop_last()).push(o@));
            }
            i = i + 1;
        }
        assert(dirs.take(directories.len() as int) == dirs);
        assert(tree@.files == paths_of(files@));
        r
    }
}

} // verus!
