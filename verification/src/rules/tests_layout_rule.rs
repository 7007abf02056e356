//! A tests folder is reached through exactly one door -- `tests/all_tests.rs`
//! -- and a `mod.rs` in every subfolder below it.
//!
//! Miss one and the files beneath it are not compiled at all: they still look
//! like tests, but nothing runs them, and a test that is never compiled cannot
//! fail. Both kinds of registry hold nothing but the header and `pub mod`
//! declarations.
use vstd::prelude::*;
use crate::offence::{all_by, lemma_all_by_concat, lemma_all_by_push, offence_views, plain, Offence, OffenceView};
use crate::package_tree::{package_directories, paths_of, PackageTree};
use crate::registry_parser::{strays_of, RegistryParser, RegistryPolicy};
use crate::source_file::{rejoined, SourceFile};
use crate::syntax::{file_outline, parse_failure, ItemOutline};
use crate::text::{ends_with, has_prefix, has_suffix, same_text, starts_with, views};

verus! {

pub open spec fn tests_layout_rule_name() -> Seq<char> {
    "tests-layout"@
}

pub open spec fn in_tests(path: Seq<char>) -> bool {
    starts_with(path, "tests/"@)
}

pub open spec fn door() -> Seq<char> {
    "tests/all_tests.rs"@
}

pub open spec fn is_tests_registry(path: Seq<char>) -> bool {
    in_tests(path) && (path == door() || ends_with(path, "/mod.rs"@))
}

pub open spec fn door_offence() -> OffenceView {
    plain(
        door(),
        1,
        tests_layout_rule_name(),
        "a tests folder is present but has no all_tests.rs, so nothing in it is compiled"@,
        "create tests/all_tests.rs with the header and one `pub mod` line per file and folder beside it"@,
    ).about(door())
}

pub open spec fn stray_door_offence(path: Seq<char>) -> OffenceView {
    plain(
        path,
        1,
        tests_layout_rule_name(),
        "only tests/all_tests.rs is a registry; this one is never reached"@,
        "move its declarations into the mod.rs beside it and delete it"@,
    ).about(path)
}

pub open spec fn missing_mod_offence(expected: Seq<char>) -> OffenceView {
    plain(
        expected,
        1,
        tests_layout_rule_name(),
        "a tests subfolder has no mod.rs, so nothing in it is compiled"@,
        "create "@ + expected + " with the header and one `pub mod` line per file in that folder"@,
    ).about(expected)
}

pub open spec fn registry_stray_offence(path: Seq<char>, stray: (nat, Seq<char>)) -> OffenceView {
    plain(
        path,
        stray.0,
        tests_layout_rule_name(),
        stray.1 + " does not belong in a registry, which holds the header and pub mod declarations only"@,
        "move "@ + stray.1 + " out of the registry into the file that needs it"@,
    ).about(stray.1)
}

pub open spec fn is_stray_door(path: Seq<char>) -> bool {
    in_tests(path) && ends_with(path, "/all_tests.rs"@) && path != door()
}

/// Every `all_tests.rs` below the top of the tests folder, in order.
pub open spec fn stray_doors(paths: Seq<Seq<char>>) -> Seq<OffenceView>
    decreases paths.len(),
{
    if paths.len() == 0 {
        Seq::<OffenceView>::empty()
    } else if is_stray_door(paths.last()) {
        stray_doors(paths.drop_last()).push(stray_door_offence(paths.last()))
    } else {
        stray_doors(paths.drop_last())
    }
}

/// Every folder strictly inside the tests folder that holds no `mod.rs`, in
/// the order given.
pub open spec fn missing_mods(paths: Seq<Seq<char>>, dirs: Seq<Seq<char>>) -> Seq<OffenceView>
    decreases dirs.len(),
{
    if dirs.len() == 0 {
        Seq::<OffenceView>::empty()
    } else {
        let earlier = missing_mods(paths, dirs.drop_last());
        let expected = dirs.last() + "/mod.rs"@;
        if in_tests(dirs.last()) && !paths.contains(expected) {
            earlier.push(missing_mod_offence(expected))
        } else {
            earlier
        }
    }
}

/// What each tests registry holds that it should not, registry by registry.
pub open spec fn registry_offences(paths: Seq<Seq<char>>, outlines: Seq<Option<Vec<ItemOutline>>>) -> Seq<OffenceView>
    decreases paths.len(),
{
    if paths.len() == 0 || outlines.len() != paths.len() {
        Seq::<OffenceView>::empty()
    } else {
        let earlier = registry_offences(paths.drop_last(), outlines.drop_last());
        let path = paths.last();
        match outlines.last() {
            Some(items) if is_tests_registry(path) => earlier + strays_of(items@, RegistryPolicy::Tests).map_values(
                |s: (nat, Seq<char>)| registry_stray_offence(path, s),
            ),
            _ => earlier,
        }
    }
}

/// All that is wrong with a package's tests folder, given the outline of each
/// file that parses.
pub open spec fn tests_layout_offences(paths: Seq<Seq<char>>, outlines: Seq<Option<Vec<ItemOutline>>>) -> Seq<OffenceView> {
    if !(exists|k: int| 0 <= k < paths.len() && #[trigger] in_tests(paths[k])) {
        Seq::<OffenceView>::empty()
    } else {
        (if paths.contains(door()) { Seq::<OffenceView>::empty() } else { seq![door_offence()] })
            + stray_doors(paths) + missing_mods(paths, package_directories(paths)) + registry_offences(paths, outlines)
    }
}

/// Every offence the rule finds is reported under its name.
pub proof fn lemma_tests_layout_by_rule(paths: Seq<Seq<char>>, outlines: Seq<Option<Vec<ItemOutline>>>)
    ensures
        all_by(tests_layout_offences(paths, outlines), tests_layout_rule_name()),
{
    lemma_stray_doors_by_rule(paths);
    lemma_missing_mods_by_rule(paths, package_directories(paths));
    lemma_registry_offences_by_rule(paths, outlines);
    let door_part = if paths.contains(door()) { Seq::<OffenceView>::empty() } else { seq![door_offence()] };
    lemma_all_by_concat(door_part, stray_doors(paths), tests_layout_rule_name());
    lemma_all_by_concat(door_part + stray_doors(paths), missing_mods(paths, package_directories(paths)), tests_layout_rule_name());
    lemma_all_by_concat(
        door_part + stray_doors(paths) + missing_mods(paths, package_directories(paths)),
        registry_offences(paths, outlines),
        tests_layout_rule_name(),
    );
}

pub proof fn lemma_stray_doors_by_rule(paths: Seq<Seq<char>>)
    ensures
        all_by(stray_doors(paths), tests_layout_rule_name()),
    decreases paths.len(),
{
    if paths.len() > 0 {
        lemma_stray_doors_by_rule(paths.drop_last());
        if is_stray_door(paths.last()) {
            lemma_all_by_push(stray_doors(paths.drop_last()), stray_door_offence(paths.last()), tests_layout_rule_name());
        }
    }
}

pub proof fn lemma_missing_mods_by_rule(paths: Seq<Seq<char>>, dirs: Seq<Seq<char>>)
    ensures
        all_by(missing_mods(paths, dirs), tests_layout_rule_name()),
    decreases dirs.len(),
{
    if dirs.len() > 0 {
        lemma_missing_mods_by_rule(paths, dirs.drop_last());
        let expected = dirs.last() + "/mod.rs"@;
        if in_tests(dirs.last()) && !paths.contains(expected) {
            lemma_all_by_push(missing_mods(paths, dirs.drop_last()), missing_mod_offence(expected), tests_layout_rule_name());
        }
    }
}

pub proof fn lemma_registry_offences_by_rule(paths: Seq<Seq<char>>, outlines: Seq<Option<Vec<ItemOutline>>>)
    ensures
        all_by(registry_offences(paths, outlines), tests_layout_rule_name()),
    decreases paths.len(),
{
    if paths.len() > 0 && outlines.len() == paths.len() {
        lemma_registry_offences_by_rule(paths.drop_last(), outlines.drop_last());
        let path = paths.last();
        match outlines.last() {
            Some(items) => if is_tests_registry(path) {
                lemma_all_by_concat(
                    registry_offences(paths.drop_last(), outlines.drop_last()),
                    strays_of(items@, RegistryPolicy::Tests).map_values(|s: (nat, Seq<char>)| registry_stray_offence(path, s)),
                    tests_layout_rule_name(),
                );
            },
            None => {},
        }
    }
}

pub struct TestsLayoutRule;

impl TestsLayoutRule {
    pub const ROOT: &'static str = "tests/";

    pub fn new() -> (r: TestsLayoutRule) {
        TestsLayoutRule
    }

    pub fn name(&self) -> (r: &'static str)
        ensures
            r@ == tests_layout_rule_name(),
    {
        "tests-layout"
    }

    fn holds_path(files: &Vec<SourceFile>, path: &str) -> (b: bool)
        ensures
            b == paths_of(files@).contains(path@),
    {
        let ghost paths = paths_of(files@);
        let mut i: usize = 0;
        while i < files.len()
            invariant
                i <= files.len(),
                paths == paths_of(files@),
                forall|k: int| 0 <= k < i ==> paths[k] != path@,
            decreases files.len() - i,
        {
            if same_text(files[i].relative_path(), path) {
                assert(paths[i as int] == path@);
                return true;
            }
            i = i + 1;
        }
        assert(!paths.contains(path@)) by {
            if paths.contains(path@) {
                let k = choose|k: int| 0 <= k < paths.len() && paths[k] == path@;
                assert(paths[k] != path@);
            }
        }
        false
    }

    fn any_in_tests(files: &Vec<SourceFile>) -> (b: bool)
        ensures
            b == exists|k: int| 0 <= k < paths_of(files@).len() && #[trigger] in_tests(paths_of(files@)[k]),
    {
        let ghost paths = paths_of(files@);
        let mut i: usize = 0;
        while i < files.len()
            invariant
                i <= files.len(),
                paths == paths_of(files@),
                forall|k: int| 0 <= k < i ==> !#[trigger] in_tests(paths[k]),
            decreases files.len() - i,
        {
            if has_prefix(files[i].relative_path(), Self::ROOT) {
                assert(in_tests(paths[i as int]));
                return true;
            }
            i = i + 1;
        }
        false
    }

    fn is_registry(path: &str) -> (b: bool)
        ensures
            b == is_tests_registry(path@),
    {
        has_prefix(path, Self::ROOT) && (same_text(path, "tests/all_tests.rs") || has_suffix(path, "/mod.rs"))
    }

    fn stray_doors(&self, files: &Vec<SourceFile>, out: &mut Vec<Offence>)
        ensures
            offence_views(final(out)@) == offence_views(old(out)@) + stray_doors(paths_of(files@)),
    {
        let ghost start = offence_views(out@);
        let ghost paths = paths_of(files@);
        let mut i: usize = 0;
        assert(paths.take(0) =~= Seq::<Seq<char>>::empty());
        assert(start + stray_doors(paths.take(0)) =~= start);
        while i < files.len()
            invariant
                i <= files.len(),
                paths == paths_of(files@),
                offence_views(out@) == start + stray_doors(paths.take(i as int)),
            decreases files.len() - i,
        {
            assert(paths.take(i + 1).drop_last() == paths.take(i as int));
            assert(paths.take(i + 1).last() == paths[i as int]);
            let path = files[i].relative_path();
            if has_prefix(path, Self::ROOT) && has_suffix(path, "/all_tests.rs") && !same_text(path, "tests/all_tests.rs") {
                let o = Offence::new(
                    path,
                    1,
                    self.name(),
                    String::from_str("only tests/all_tests.rs is a registry; this one is never reached"),
                    String::from_str("move its declarations into the mod.rs beside it and delete it"),
                ).with_subject(path);
                let ghost before = out@;
                out.push(o);
                assert(offence_views(out@) =~= offence_views(before).push(o@));
            }
            i = i + 1;
        }
        assert(paths.take(files.len() as int) == paths);
    }

    fn missing_mods(&self, files: &Vec<SourceFile>, out: &mut Vec<Offence>)
        ensures
            offence_views(final(out)@) == offence_views(old(out)@)
                + missing_mods(paths_of(files@), package_directories(paths_of(files@))),
    {
        let tree = PackageTree::of(files);
        let directories = tree.directories();
        let ghost start = offence_views(out@);
        let ghost paths = paths_of(files@);
        let ghost dirs = views(directories@);
        let mut i: usize = 0;
        assert(dirs.take(0) =~= Seq::<Seq<char>>::empty());
        assert(start + missing_mods(paths, dirs.take(0)) =~= start);
        while i < directories.len()
            invariant
                i <= directories.len(),
                paths == paths_of(files@),
                dirs == views(directories@),
                offence_views(out@) == start + missing_mods(paths, dirs.take(i as int)),
            decreases directories.len() - i,
        {
            assert(dirs.take(i + 1).drop_last() == dirs.take(i as int));
            assert(dirs.take(i + 1).last() == dirs[i as int]);
            let dir = directories[i].as_str();
            if has_prefix(dir, Self::ROOT) {
                let mut expected = String::from_str(dir);
                expected.append("/mod.rs");
                if !Self::holds_path(files, expected.as_str()) {
                    let mut correction = String::from_str("create ");
                    correction.append(expected.as_str());
                    correction.append(" with the header and one `pub mod` line per file in that folder");
                    let o = Offence::new(
                        expected.as_str(),
                        1,
                        self.name(),
                        String::from_str("a tests subfolder has no mod.rs, so nothing in it is compiled"),
                        correction,
                    ).with_subject(expected.as_str());
                    let ghost before = out@;
                    out.push(o);
                    assert(offence_views(out@) =~= offence_views(before).push(o@));
                }
            }
            i = i + 1;
        }
        assert(dirs.take(directories.len() as int) == dirs);
    }

    fn registry_contents(&self, path: &str, items: &Vec<ItemOutline>, out: &mut Vec<Offence>)
        ensures
            offence_views(final(out)@) == offence_views(old(out)@) + strays_of(items@, RegistryPolicy::Tests).map_values(
                |s: (nat, Seq<char>)| registry_stray_offence(path@, s),
            ),
    {
        let strays = RegistryParser::strays_in(items, RegistryPolicy::Tests);
        let ghost start = offence_views(out@);
        let ghost all = strays_of(items@, RegistryPolicy::Tests).map_values(
            |s: (nat, Seq<char>)| registry_stray_offence(path@, s),
        );
        let mut i: usize = 0;
        while i < strays.len()
            invariant
                i <= strays.len(),
                strays_of(items@, RegistryPolicy::Tests).len() == strays.len(),
                forall|k: int| 0 <= k < strays.len() ==> strays_of(items@, RegistryPolicy::Tests)[k]
                    == (strays@[k].0 as nat, strays@[k].1@),
                all == strays_of(items@, RegistryPolicy::Tests).map_values(
                    |s: (nat, Seq<char>)| registry_stray_offence(path@, s),
                ),
                offence_views(out@) == start + all.take(i as int),
            decreases strays.len() - i,
        {
            let line = strays[i].0;
            let label = &strays[i].1;
            let mut description = label.clone();
            description.append(" does not belong in a registry, which holds the header and pub mod declarations only");
            let mut correction = String::from_str("move ");
            correction.append(label.as_str());
            correction.append(" out of the registry into the file that needs it");
            let o = Offence::new(path, line, self.name(), description, correction).with_subject(label.as_str());
            assert(all[i as int] == registry_stray_offence(path@, (line as nat, label@)));
            let ghost before = out@;
            out.push(o);
            assert(offence_views(out@) =~= offence_views(before).push(o@));
            assert(all.take(i + 1) =~= all.take(i as int).push(all[i as int]));
            i = i + 1;
        }
        assert(all.take(strays.len() as int) =~= all);
    }

    /// The offences, given the outline of each registry that parses.
    pub fn check_outlines(&self, files: &Vec<SourceFile>, outlines: &Vec<Option<Vec<ItemOutline>>>) -> (r: Vec<Offence>)
        requires
            outlines.len() == files.len(),
        ensures
            offence_views(r@) == tests_layout_offences(paths_of(files@), outlines@),
    {
        let mut r: Vec<Offence> = Vec::new();
        if !Self::any_in_tests(files) {
            return r;
        }
        if !Self::holds_path(files, "tests/all_tests.rs") {
            r.push(Offence::new(
                "tests/all_tests.rs",
                1,
                self.name(),
                String::from_str("a tests folder is present but has no all_tests.rs, so nothing in it is compiled"),
                String::from_str("create tests/all_tests.rs with the header and one `pub mod` line per file and folder beside it"),
            ).with_subject("tests/all_tests.rs"));
        }
        proof {
            reveal_strlit("tests/all_tests.rs");
        }
        assert(offence_views(r@) =~= (if paths_of(files@).contains(door()) { Seq::<OffenceView>::empty() } else { seq![door_offence()] }));
        self.stray_doors(files, &mut r);
        self.missing_mods(files, &mut r);
        let ghost paths = paths_of(files@);
        let ghost head = offence_views(r@);
        let mut i: usize = 0;
        assert(paths.take(0) =~= Seq::<Seq<char>>::empty());
        assert(head + registry_offences(paths.take(0), outlines@.take(0)) =~= head);
        while i < files.len()
            invariant
                i <= files.len(),
                outlines.len() == files.len(),
                paths == paths_of(files@),
                offence_views(r@) == head + registry_offences(paths.take(i as int), outlines@.take(i as int)),
            decreases files.len() - i,
        {
            assert(paths.take(i + 1).drop_last() == paths.take(i as int));
            assert(outlines@.take(i + 1).drop_last() == outlines@.take(i as int));
            assert(paths.take(i + 1).last() == paths[i as int]);
            assert(outlines@.take(i + 1).last() == outlines@[i as int]);
            let path = files[i].relative_path();
            if Self::is_registry(path) {
                match &outlines[i] {
                    Some(items) => {
                        let ghost before = offence_views(r@);
                        self.registry_contents(path, items, &mut r);
                        assert(offence_views(r@) =~= head + registry_offences(paths.take(i + 1), outlines@.take(i + 1)));
                    },
                    None => {},
                }
            }
            i = i + 1;
        }
        assert(paths.take(files.len() as int) == paths);
        assert(outlines@.take(files.len() as int) == outlines@);
        r
    }

    pub fn check_workspace(&self, files: &Vec<SourceFile>) -> (r: Vec<Offence>)
        ensures
            exists|outlines: Seq<Option<Vec<ItemOutline>>>| {
                &&& outlines.len() == files@.len()
                &&& forall|k: int| 0 <= k < files@.len() && #[trigger] is_tests_registry(paths_of(files@)[k])
                    ==> (outlines[k].is_none() <==> parse_failure(crate::syntax::parsed_text(files@[k]@.lines)).is_some())
                &&& forall|k: int| 0 <= k < files@.len() ==> (#[trigger] outlines[k] matches Some(v) ==> v@
                    == crate::syntax::file_syntax(files@[k]@))
                &&& offence_views(r@) == tests_layout_offences(paths_of(files@), outlines)
            },
    {
        let mut outlines: Vec<Option<Vec<ItemOutline>>> = Vec::new();
        let mut i: usize = 0;
        while i < files.len()
            invariant
                i <= files.len(),
                outlines.len() == i,
                forall|k: int| 0 <= k < i && #[trigger] is_tests_registry(paths_of(files@)[k])
                    ==> (outlines@[k].is_none() <==> parse_failure(crate::syntax::parsed_text(files@[k]@.lines)).is_some()),
                forall|k: int| 0 <= k < i ==> (#[trigger] outlines@[k] matches Some(v) ==> v@
                    == crate::syntax::file_syntax(files@[k]@)),
            decreases files.len() - i,
        {
            if Self::is_registry(files[i].relative_path()) {
                outlines.push(file_outline(&files[i]));
            } else {
                outlines.push(None);
            }
            i = i + 1;
        }
        self.check_outlines(files, &outlines)
    }
}

} // verus!
