//! A directory holds a number of subfolders a reader can hold in their head.
//!
//! The counterweight to `directory-file-count`: that rule creates folders, and
//! this one stops the creating from being the answer to everything. It is
//! checked at every level, so pushing the sprawl one directory down does not
//! escape it.
use vstd::prelude::*;
use crate::rule_explanation::RuleExplanation;
use crate::offence::{all_by, lemma_all_by_push, offence_views, plain, Offence, OffenceView};
use crate::package_tree::{package_directories, paths_of, subdirectories_in, PackageTree};
use crate::rules::layout::directory_file_count_rule::{carrier, shown, DirectoryFileCountRule};
use crate::source_file::SourceFile;
use crate::text::{decimal, decimal_text, views};

verus! {

pub open spec fn subfolder_count_rule_name() -> Seq<char> {
    "directory-subfolder-count"@
}

pub open spec fn subfolder_count_offence(files: Seq<Seq<char>>, dir: Seq<char>, found: nat, limit: nat) -> OffenceView {
    plain(
        carrier(files, dir),
        1,
        subfolder_count_rule_name(),
        shown(dir) + " holds "@ + decimal(found) + " subfolders, more than the "@ + decimal(limit)
            + " a directory may hold"@,
        "group the subfolders of "@ + shown(dir) + " so that no directory holds more than "@ + decimal(limit),
    ).about(shown(dir))
}

/// One offence per directory of `dirs`, in order, with more subfolders
/// among `all` than the limit.
pub open spec fn subfolder_count_offences(
    files: Seq<Seq<char>>,
    all: Seq<Seq<char>>,
    dirs: Seq<Seq<char>>,
    limit: nat,
) -> Seq<OffenceView>
    decreases dirs.len(),
{
    if dirs.len() == 0 {
        Seq::<OffenceView>::empty()
    } else {
        let earlier = subfolder_count_offences(files, all, dirs.drop_last(), limit);
        let found = subdirectories_in(all, dirs.last()).len();
        if found > limit { earlier.push(subfolder_count_offence(files, dirs.last(), found, limit)) } else { earlier }
    }
}

/// Every offence the rule finds is reported under its name.
pub proof fn lemma_subfolder_count_by_rule(files: Seq<Seq<char>>, all: Seq<Seq<char>>, dirs: Seq<Seq<char>>, limit: nat)
    ensures
        all_by(subfolder_count_offences(files, all, dirs, limit), subfolder_count_rule_name()),
    decreases dirs.len(),
{
    if dirs.len() > 0 {
        lemma_subfolder_count_by_rule(files, all, dirs.drop_last(), limit);
        let found = subdirectories_in(all, dirs.last()).len();
        if found > limit {
            lemma_all_by_push(
                subfolder_count_offences(files, all, dirs.drop_last(), limit),
                subfolder_count_offence(files, dirs.last(), found, limit),
                subfolder_count_rule_name(),
            );
        }
    }
}

/// What the rule wants, a scrap of source that breaks it and the same scrap
/// put right.
pub open spec fn subfolder_count_explanation() -> (Seq<char>, Seq<char>, Seq<char>, Seq<char>) {
    (
        subfolder_count_rule_name(),
        "A directory holds a number of subfolders a reader can hold in their head."@,
        "src/  -- 9 subfolders"@,
        "src/  -- 4 subfolders, each grouping the rest"@,
    )
}

pub struct DirectorySubfolderCountRule {
    limit: usize,
}

impl DirectorySubfolderCountRule {
    pub const DEFAULT_LIMIT: usize = 5;

    pub fn new(limit: usize) -> (r: DirectorySubfolderCountRule)
        ensures
            r.limit() == limit,
    {
        DirectorySubfolderCountRule { limit }
    }

    /// The rule at its default limit of five.
    pub fn with_default_limit() -> (r: DirectorySubfolderCountRule)
        ensures
            r.limit() == 5,
    {
        Self::new(Self::DEFAULT_LIMIT)
    }

    pub closed spec fn limit(&self) -> usize {
        self.limit
    }

    pub fn name(&self) -> (r: &'static str)
        ensures
            r@ == subfolder_count_rule_name(),
    {
        "directory-subfolder-count"
    }

    /// What the rule wants, a scrap of source that breaks it and the same
    /// scrap put right.
    pub fn explanation(&self) -> (r: RuleExplanation)
        ensures
            r@ == subfolder_count_explanation(),
    {
        RuleExplanation::new(
            self.name(),
            "A directory holds a number of subfolders a reader can hold in their head.",
            "src/  -- 9 subfolders",
            "src/  -- 4 subfolders, each grouping the rest",
        )
    }

    fn offence(&self, tree: &PackageTree, directory: &str, found: usize) -> (o: Offence)
        ensures
            o@ == subfolder_count_offence(tree@.files, directory@, found as nat, self.limit() as nat),
    {
        let subject = DirectoryFileCountRule::shown(directory);
        let carrier = DirectoryFileCountRule::carrier(tree, directory);
        let limit = decimal_text(self.limit);
        let mut description = subject.clone();
        description.append(" holds ");
        description.append(decimal_text(found).as_str());
        description.append(" subfolders, more than the ");
        description.append(limit.as_str());
        description.append(" a directory may hold");
        let mut correction = String::from_str("group the subfolders of ");
        correction.append(subject.as_str());
        correction.append(" so that no directory holds more than ");
        correction.append(limit.as_str());
        Offence::new(carrier.as_str(), 1, self.name(), description, correction).with_subject(subject.as_str())
    }

    /// Nothing: a directory's shape is no fact about any one file.
    pub fn check(&self, file: &SourceFile) -> (r: Vec<Offence>)
        ensures
            r@.len() == 0,
    {
        Vec::new()
    }

    pub fn check_workspace(&self, files: &Vec<SourceFile>) -> (r: Vec<Offence>)
        ensures
            offence_views(r@) == subfolder_count_offences(
                paths_of(files@),
                package_directories(paths_of(files@)),
                package_directories(paths_of(files@)),
                self.limit() as nat,
            ),
    {
        let tree = PackageTree::of(files);
        let directories = tree.directories();
        let ghost dirs = views(directories@);
        let mut r: Vec<Offence> = Vec::new();
        let mut i: usize = 0;
        assert(dirs.take(0) =~= Seq::<Seq<char>>::empty());
        while i < directories.len()
            invariant
                i <= directories.len(),
                dirs == views(directories@),
                dirs == tree@.directories,
                offence_views(r@) == subfolder_count_offences(tree@.files, dirs, dirs.take(i as int), self.limit() as nat),
            decreases directories.len() - i,
        {
            assert(dirs.take(i + 1).drop_last() == dirs.take(i as int));
            assert(dirs.take(i + 1).last() == directories@[i as int]@);
            let found = tree.subdirectories_of(directories[i].as_str()).len();
            if found > self.limit {
                let o = self.offence(&tree, directories[i].as_str(), found);
                r.push(o);
                assert(offence_views(r@) =~= offence_views(r@.drop_last()).push(o@));
            }
            i = i + 1;
        }
        assert(dirs.take(directories.len() as int) == dirs);
        assert(tree@.files == paths_of(files@));
        r
    }
}

} // verus!
