//! The rules a run applies, built from its configuration, and the checks that
//! run them.
//!
//! A rule is applied when the selection includes it and it has what it needs
//! to run: the header rule a header, `spdx-matches-manifest` a licence. A rule
//! the selection includes but that cannot run is unconfigured rather than
//! skipped, and the report says which. Every offence a check returns comes
//! from an applied rule, so a skipped rule never reports.
use vstd::prelude::*;
use crate::offence::{all_by, offence_views, Offence};
use crate::rules::declared_by_name_rule::{declared_offences, declared_rule_name, lemma_declared_by_rule, DeclaredByNameRule};
use crate::rules::header_rule::{header_offences, header_rule_name, lemma_header_by_rule, HeaderRule};
use crate::rules::layout::directory_file_count_rule::{
    file_count_offences, file_count_rule_name, lemma_file_count_by_rule, DirectoryFileCountRule,
};
use crate::rules::layout::directory_subfolder_count_rule::{
    lemma_subfolder_count_by_rule, subfolder_count_offences, subfolder_count_rule_name, DirectorySubfolderCountRule,
};
use crate::rules::layout::module_registry_rule::{
    lemma_module_registry_by_rule, module_registry_offences, module_registry_rule_name, ModuleRegistryRule,
};
use crate::rules::layout::test_file_name_postfix_rule::{
    lemma_postfix_by_rule, postfix_offences, postfix_rule_name, TestFileNamePostfixRule,
};
use crate::rules::manifest::spdx_matches_manifest_rule::{
    lemma_spdx_by_rule, spdx_offences, spdx_rule_name, SpdxMatchesManifestRule,
};
use crate::rules::manifest::workspace_dependencies_rule::{
    dependency_offences, lemma_dependencies_by_rule, workspace_rule_name, WorkspaceDependenciesRule,
};
use crate::rules::readable_source_rule::{lemma_readable_by_rule, readable_offences, readable_rule_name, ReadableSourceRule};
use crate::rules::registry_completeness_rule::{
    completeness_offences, completeness_rule_name, lemma_completeness_by_rule, RegistryCompletenessRule,
};
use crate::rules::source::imported_paths_rule::{
    imported_names, imported_paths_offences, imported_paths_rule_name, lemma_imported_paths_by_rule, ImportedPathsRule,
};
use crate::rules::source::ordered_imports_rule::{
    imports, lemma_ordered_by_rule, ordered_offences, ordered_rule_name, OrderedImportsRule,
};
use crate::rules::source::pure_traits_rule::{lemma_pure_by_rule, pure_offences, pure_rule_name, PureTraitsRule};
use crate::rules::source::single_implemented_type_rule::{
    lemma_single_type_by_rule, single_type_offences, single_type_rule_name, SingleImplementedTypeRule,
};
use crate::rules::source::test_free_source_rule::{
    lemma_test_free_by_rule, test_free_offences, test_free_rule_name, TestFreeSourceRule,
};
use crate::rules::test_file_structure_rule::{
    lemma_structure_by_rule, structure_offences, structure_rule_name, TestFileStructureRule,
};
use crate::rules::testing::arrange_act_assert_rule::{aaa_offences, aaa_rule_name, lemma_aaa_by_rule, ArrangeActAssertRule};
use crate::rules::testing::test_naming_rule::{lemma_naming_by_rule, naming_offences, naming_rule_name, TestNamingRule};
use crate::rules::testing::tested_public_api_rule::{
    called_in, declared_in, lemma_tested_api_by_rule, tested_api_offences, tested_api_rule_name, TestedPublicApiRule,
};
use crate::rules::tests_layout_rule::{lemma_tests_layout_by_rule, tests_layout_offences, tests_layout_rule_name, TestsLayoutRule};
use crate::settings::config::Config;
use crate::rule_explanation::{explanation_views, ExplanationView, RuleExplanation};
use crate::rules::manifest::spdx_matches_manifest_rule::spdx_explanation;
use crate::rules::source::imported_paths_rule::imported_paths_explanation;
use crate::rules::source::pure_traits_rule::pure_explanation;
use crate::rules::layout::test_file_name_postfix_rule::postfix_explanation;
use crate::rules::testing::arrange_act_assert_rule::aaa_explanation;
use crate::rules::layout::directory_file_count_rule::file_count_explanation;
use crate::rules::layout::directory_subfolder_count_rule::subfolder_count_explanation;
use crate::rules::testing::tested_public_api_rule::tested_api_explanation;
use crate::rules::manifest::workspace_dependencies_rule::workspace_explanation;
use crate::settings::config_file::option_text;
use crate::settings::manifest_dependency::ManifestDependency;
use crate::rules::source::pure_traits_rule::pure_applies;
use crate::rules::test_file_structure_rule::structure_applies;
use crate::rules::layout::module_registry_rule::module_registry_applies;
use crate::rules::layout::test_file_name_postfix_rule::postfix_applies;
use crate::rules::tests_layout_rule::is_tests_registry;
use crate::registry_parser::{strays_of, RegistryPolicy};
use crate::offence::OffenceView;
use crate::settings::rule_selection::{holds, selection_includes, str_views};
use crate::source_file::{rejoined, SourceFile, SourceFileView};
use crate::syntax::{file_syntax, parse_failure, ItemOutline};
use crate::test_file_parser::test_items;
use crate::text::{lemma_views_push, starts_with, views};
use crate::package_tree::{package_directories, paths_of};

verus! {

/// Every rule, in the order the registry runs them.
pub open spec fn rule_names() -> Seq<Seq<char>> {
    seq![
        "readable-source"@,
        "header"@,
        "spdx-matches-manifest"@,
        "imported-paths"@,
        "ordered-imports"@,
        "pure-traits"@,
        "single-implemented-type"@,
        "test-free-source"@,
        "declared-by-name"@,
        "module-registry"@,
        "test-file-structure"@,
        "test-file-name-postfix"@,
        "test-naming"@,
        "arrange-act-assert"@,
        "directory-file-count"@,
        "directory-subfolder-count"@,
        "registry-completeness"@,
        "tests-layout"@,
        "tested-public-api"@,
        "workspace-dependencies"@,
    ]
}

/// Whether the configuration gives the rule what it needs to run.
pub open spec fn is_configured(config: Config, name: Seq<char>) -> bool {
    &&& name == "header"@ ==> config.expected_header@.len() > 0
    &&& name == "spdx-matches-manifest"@ ==> config.manifest_license.is_some()
}

/// The names the configuration applies, in the order given.
pub open spec fn applied_among(config: Config, names: Seq<Seq<char>>) -> Seq<Seq<char>>
    decreases names.len(),
{
    if names.len() == 0 {
        Seq::<Seq<char>>::empty()
    } else if selection_includes(config.selection@, names.last()) && is_configured(config, names.last()) {
        applied_among(config, names.drop_last()).push(names.last())
    } else {
        applied_among(config, names.drop_last())
    }
}

/// The names the selection leaves out, in the order given.
pub open spec fn skipped_among(config: Config, names: Seq<Seq<char>>) -> Seq<Seq<char>>
    decreases names.len(),
{
    if names.len() == 0 {
        Seq::<Seq<char>>::empty()
    } else if !selection_includes(config.selection@, names.last()) {
        skipped_among(config, names.drop_last()).push(names.last())
    } else {
        skipped_among(config, names.drop_last())
    }
}

/// What an unconfigured rule needs.
pub open spec fn requirement(name: Seq<char>) -> Seq<char> {
    if name == "header"@ { "--header-file"@ } else { "a `license` in Cargo.toml"@ }
}

/// The names the selection includes but the configuration cannot run, with
/// what each needs, in the order given.
pub open spec fn unconfigured_among(config: Config, names: Seq<Seq<char>>) -> Seq<(Seq<char>, Seq<char>)>
    decreases names.len(),
{
    if names.len() == 0 {
        Seq::<(Seq<char>, Seq<char>)>::empty()
    } else if selection_includes(config.selection@, names.last()) && !is_configured(config, names.last()) {
        unconfigured_among(config, names.drop_last()).push((names.last(), requirement(names.last())))
    } else {
        unconfigured_among(config, names.drop_last())
    }
}

/// Every offence names one of the applied rules.
pub open spec fn from_applied(applied: Seq<Seq<char>>, found: Seq<Offence>) -> bool {
    forall|i: int| 0 <= i < found.len() ==> applied.contains(#[trigger] found[i]@.rule)
}

/// A rule the configuration applies is one its selection includes and that
/// has what it needs: a skipped rule is never applied, however it was
/// selected.
pub proof fn law_applied_rules_are_selected(config: Config, names: Seq<Seq<char>>, name: Seq<char>)
    ensures
        applied_among(config, names).contains(name)
            <==> names.contains(name) && selection_includes(config.selection@, name) && is_configured(config, name),
    decreases names.len(),
{
    if names.len() > 0 {
        law_applied_rules_are_selected(config, names.drop_last(), name);
        let earlier = applied_among(config, names.drop_last());
        if selection_includes(config.selection@, names.last()) && is_configured(config, names.last()) {
            assert(applied_among(config, names) == earlier.push(names.last()));
            if earlier.push(names.last()).contains(name) && name != names.last() {
                let k = choose|k: int| 0 <= k < earlier.push(names.last()).len() && earlier.push(names.last())[k] == name;
                assert(earlier[k] == name);
            }
            if earlier.contains(name) {
                let k = choose|k: int| 0 <= k < earlier.len() && earlier[k] == name;
                assert(earlier.push(names.last())[k] == name);
            }
            if name == names.last() {
                assert(earlier.push(names.last())[earlier.len() as int] == name);
            }
        }
        if names.contains(name) && name != names.last() {
            let k = choose|k: int| 0 <= k < names.len() && names[k] == name;
            assert(names.drop_last()[k] == name);
        }
        if names.drop_last().contains(name) {
            let k = choose|k: int| 0 <= k < names.drop_last().len() && names.drop_last()[k] == name;
            assert(names[k] == name);
        }
        if name == names.last() {
            assert(names[names.len() - 1] == name);
        }
    }
}

/// A rule the selection leaves out never reports: every offence a registry
/// built from the configuration finds names a rule the selection includes and
/// the configuration can run.
pub proof fn law_skipped_rules_never_report(config: Config, applied: Seq<Seq<char>>, found: Seq<Offence>)
    requires
        applied == applied_among(config, rule_names()),
        from_applied(applied, found),
    ensures
        forall|i: int| 0 <= i < found.len() ==> selection_includes(config.selection@, #[trigger] found[i]@.rule)
            && is_configured(config, found[i]@.rule),
{
    assert forall|i: int| 0 <= i < found.len() implies selection_includes(config.selection@, #[trigger] found[i]@.rule)
        && is_configured(config, found[i]@.rule) by {
        law_applied_rules_are_selected(config, rule_names(), found[i]@.rule);
    }
}

/// The file cannot be parsed, so no rule reads its syntax.
pub open spec fn parse_fails(file: SourceFileView) -> bool {
    parse_failure(crate::syntax::parsed_text(file.lines)).is_some()
}

/// A rule that reads a file's syntax finds nothing where it does not apply or
/// the file does not parse.
pub open spec fn silent_unless(applies: bool, file: SourceFileView, found: Seq<OffenceView>) -> bool {
    (!applies || parse_fails(file)) ==> found.len() == 0
}

/// Whether a rule that reads a file's syntax reads this one.
pub open spec fn reads(applies: bool, file: SourceFileView) -> bool {
    applies && !parse_fails(file)
}

/// What the rule at `index` among the rule names finds in one file: what it
/// states of the file alone, or, for a rule that reads the file's syntax,
/// nothing where it does not apply or the file does not parse, and otherwise
/// what it states of the outline `syn` gives of the file.
pub open spec fn finds_in_file(registry: RuleRegistry, index: int, file: SourceFileView, found: Seq<OffenceView>) -> bool {
    if index == 0 {
        found == readable_offences(file)
    } else if index == 1 {
        found == header_offences(registry.expected_header(), file)
    } else if index == 2 {
        found == spdx_offences(registry.manifest_license(), file)
    } else if index == 3 {
        &&& silent_unless(true, file, found)
        &&& reads(true, file) ==> found == imported_paths_offences(file, file_syntax(file), imported_names(file_syntax(file)))
    } else if index == 4 {
        &&& silent_unless(pure_applies(file.path), file, found)
        &&& reads(pure_applies(file.path), file) ==> found == ordered_offences(file, file_syntax(file))
    } else if index == 5 {
        &&& silent_unless(pure_applies(file.path), file, found)
        &&& reads(pure_applies(file.path), file) ==> found == pure_offences(file, file_syntax(file))
    } else if index == 6 {
        &&& silent_unless(!starts_with(file.path, "tests/"@), file, found)
        &&& reads(!starts_with(file.path, "tests/"@), file) ==> found == single_type_offences(file, file_syntax(file))
    } else if index == 7 {
        &&& silent_unless(!starts_with(file.path, "tests/"@), file, found)
        &&& reads(!starts_with(file.path, "tests/"@), file) ==> found == test_free_offences(file, file_syntax(file))
    } else if index == 8 {
        &&& silent_unless(true, file, found)
        &&& reads(true, file) ==> found == declared_offences(file, file_syntax(file))
    } else if index == 9 {
        &&& silent_unless(module_registry_applies(file.path), file, found)
        &&& reads(module_registry_applies(file.path), file) ==> found == module_registry_offences(file, strays_of(file_syntax(file), RegistryPolicy::Source))
    } else if index == 10 {
        &&& silent_unless(structure_applies(file.path), file, found)
        &&& reads(structure_applies(file.path), file) ==> found == structure_offences(file, test_items(file.lines, file_syntax(file)))
    } else if index == 11 {
        &&& silent_unless(postfix_applies(file.path), file, found)
        &&& reads(postfix_applies(file.path), file) ==> found == postfix_offences(file, file_syntax(file))
    } else if index == 12 {
        &&& silent_unless(structure_applies(file.path), file, found)
        &&& reads(structure_applies(file.path), file) ==> found == naming_offences(file, file_syntax(file))
    } else {
        &&& silent_unless(structure_applies(file.path), file, found)
        &&& reads(structure_applies(file.path), file) ==> found == aaa_offences(file, file_syntax(file))
    }
}

/// What one of a check's parts holds: what the rule at `index` finds when
/// it is applied, and nothing when it is not.
pub open spec fn file_part(registry: RuleRegistry, index: int, file: SourceFileView, part: Seq<OffenceView>) -> bool {
    if registry.applied().contains(rule_names()[index]) {
        finds_in_file(registry, index, file, part)
    } else {
        part.len() == 0
    }
}

/// How many of the rules, the first ones named, judge one file at a time.
pub open spec fn file_rule_count() -> int {
    14
}

/// The parts, one after another.
pub open spec fn flattened(parts: Seq<Seq<OffenceView>>) -> Seq<OffenceView>
    decreases parts.len(),
{
    if parts.len() == 0 {
        Seq::<OffenceView>::empty()
    } else {
        flattened(parts.drop_last()) + parts.last()
    }
}

/// The outlines of a package's files as the parser read them: none exactly
/// for a file that does not parse, and otherwise the outline `syn` gives.
pub open spec fn outlines_read(files: Seq<SourceFile>, outlines: Seq<Option<Vec<ItemOutline>>>) -> bool {
    &&& outlines.len() == files.len()
    &&& forall|k: int| 0 <= k < files.len() ==> (#[trigger] outlines[k].is_none() <==> parse_fails(files[k]@))
    &&& forall|k: int| 0 <= k < files.len() ==> (#[trigger] outlines[k] matches Some(v) ==> v@ == file_syntax(files[k]@))
}

/// The same, among the registries of the tests folder only.
pub open spec fn registries_read(files: Seq<SourceFile>, outlines: Seq<Option<Vec<ItemOutline>>>) -> bool {
    &&& outlines.len() == files.len()
    &&& forall|k: int| 0 <= k < files.len() && #[trigger] is_tests_registry(paths_of(files)[k])
        ==> (outlines[k].is_none() <==> parse_fails(files[k]@))
    &&& forall|k: int| 0 <= k < files.len() ==> (#[trigger] outlines[k] matches Some(v) ==> v@ == file_syntax(files[k]@))
}

/// What the rule at `index` among the rule names finds in a package's files
/// taken together.
pub open spec fn finds_in_tree(registry: RuleRegistry, index: int, files: Seq<SourceFile>, found: Seq<OffenceView>) -> bool {
    let paths = paths_of(files);
    if index == 14 {
        found == file_count_offences(paths, package_directories(paths), registry.file_limit() as nat)
    } else if index == 15 {
        found == subfolder_count_offences(
            paths,
            package_directories(paths),
            package_directories(paths),
            registry.subfolder_limit() as nat,
        )
    } else if index == 16 {
        exists|outlines: Seq<Option<Vec<ItemOutline>>>|
            outlines_read(files, outlines) && found == #[trigger] completeness_offences(
                paths,
                outlines,
                package_directories(paths),
            )
    } else if index == 17 {
        exists|outlines: Seq<Option<Vec<ItemOutline>>>|
            registries_read(files, outlines) && found == #[trigger] tests_layout_offences(paths, outlines)
    } else if index == 18 {
        exists|outlines: Seq<Option<Vec<ItemOutline>>>|
            outlines_read(files, outlines) && found == #[trigger] tested_api_offences(paths, outlines)
    } else {
        match registry.declared_dependencies() {
            None => found.len() == 0,
            Some(declared) => found == dependency_offences(declared),
        }
    }
}

/// What one of a tree check's parts holds.
pub open spec fn tree_part(registry: RuleRegistry, index: int, files: Seq<SourceFile>, part: Seq<OffenceView>) -> bool {
    if registry.applied().contains(rule_names()[index]) {
        finds_in_tree(registry, index, files, part)
    } else {
        part.len() == 0
    }
}

/// What the applied rules find in one file, rule by rule in the order the
/// rules are named: each applied rule's findings, one rule's after another's,
/// and nothing from a rule that is not applied.
pub open spec fn file_findings(registry: RuleRegistry, file: SourceFileView, found: Seq<OffenceView>) -> bool {
    exists|parts: Seq<Seq<OffenceView>>| {
        &&& parts.len() == file_rule_count()
        &&& found == flattened(parts)
        &&& forall|i: int| 0 <= i < file_rule_count() ==> file_part(registry, i, file, #[trigger] parts[i])
    }
}

/// What the applied rules find in a package's files taken together, in the
/// same way.
pub open spec fn tree_findings(registry: RuleRegistry, files: Seq<SourceFile>, found: Seq<OffenceView>) -> bool {
    exists|parts: Seq<Seq<OffenceView>>| {
        &&& parts.len() == rule_names().len() - file_rule_count()
        &&& found == flattened(parts)
        &&& forall|i: int| 0 <= i < parts.len() ==> tree_part(registry, file_rule_count() + i, files, #[trigger] parts[i])
    }
}

/// The explanations the rules give, in the order the rules are named.
pub open spec fn explanations_in_order() -> Seq<ExplanationView> {
    seq![
        spdx_explanation(),
        imported_paths_explanation(),
        pure_explanation(),
        postfix_explanation(),
        aaa_explanation(),
        file_count_explanation(),
        subfolder_count_explanation(),
        tested_api_explanation(),
        workspace_explanation(),
    ]
}

pub struct RuleRegistry {
    applied: Vec<String>,
    header: HeaderRule,
    spdx: SpdxMatchesManifestRule,
    file_count: DirectoryFileCountRule,
    subfolder_count: DirectorySubfolderCountRule,
    dependencies: WorkspaceDependenciesRule,
}

impl RuleRegistry {
    /// The names of the rules applied, in the order they run.
    pub closed spec fn applied(&self) -> Seq<Seq<char>> {
        views(self.applied@)
    }

    /// The header the header rule expects.
    pub closed spec fn expected_header(&self) -> Seq<Seq<char>> {
        self.header@
    }

    /// The licence the manifest declares, as the SPDX rule holds it.
    pub closed spec fn manifest_license(&self) -> Option<Seq<char>> {
        self.spdx@
    }

    /// The most files a directory may hold.
    pub closed spec fn file_limit(&self) -> usize {
        self.file_count.limit()
    }

    /// The most subfolders a directory may hold.
    pub closed spec fn subfolder_limit(&self) -> usize {
        self.subfolder_count.limit()
    }

    /// The dependency declarations the manifest rule judges.
    pub closed spec fn declared_dependencies(&self) -> Option<Seq<ManifestDependency>> {
        match self.dependencies.declared() {
            Some(declared) => Some(declared@),
            None => None,
        }
    }

    /// Every rule's name, in the order the registry runs them.
    pub fn known_names() -> (r: Vec<&'static str>)
        ensures
            str_views(r@) == rule_names(),
    {
        let r = vec![
            "readable-source",
            "header",
            "spdx-matches-manifest",
            "imported-paths",
            "ordered-imports",
            "pure-traits",
            "single-implemented-type",
            "test-free-source",
            "declared-by-name",
            "module-registry",
            "test-file-structure",
            "test-file-name-postfix",
            "test-naming",
            "arrange-act-assert",
            "directory-file-count",
            "directory-subfolder-count",
            "registry-completeness",
            "tests-layout",
            "tested-public-api",
            "workspace-dependencies",
        ];
        assert(str_views(r@) =~= rule_names());
        r
    }

    fn is_configured(config: &Config, name: &str) -> (b: bool)
        ensures
            b == is_configured(*config, name@),
    {
        proof {
            reveal_strlit("header");
            reveal_strlit("spdx-matches-manifest");
            assert("header"@.len() != "spdx-matches-manifest"@.len());
        }
        if crate::text::same_text(name, "header") {
            config.expected_header.len() > 0
        } else if crate::text::same_text(name, "spdx-matches-manifest") {
            config.manifest_license.is_some()
        } else {
            true
        }
    }

    fn copy_option(o: &Option<String>) -> (r: Option<String>)
        ensures
            r == *o,
    {
        match o {
            Some(s) => Some(s.clone()),
            None => None,
        }
    }

    /// The explanations the rules give, in the order the rules are named.
    pub fn explanations() -> (r: Vec<RuleExplanation>)
        ensures
            explanation_views(r@) == explanations_in_order(),
    {
        let mut r: Vec<RuleExplanation> = Vec::new();
        r.push(SpdxMatchesManifestRule::new(None).explanation());
        r.push(ImportedPathsRule::new().explanation());
        r.push(PureTraitsRule::new().explanation());
        r.push(TestFileNamePostfixRule::new().explanation());
        r.push(ArrangeActAssertRule::new().explanation());
        r.push(DirectoryFileCountRule::new(DirectoryFileCountRule::DEFAULT_LIMIT).explanation());
        r.push(DirectorySubfolderCountRule::new(DirectorySubfolderCountRule::DEFAULT_LIMIT).explanation());
        r.push(TestedPublicApiRule::new().explanation());
        r.push(WorkspaceDependenciesRule::new(None).explanation());
        assert(explanation_views(r@) =~= explanations_in_order());
        r
    }

    /// The rules the configuration applies, each with its configuration.
    pub fn from_config(config: &Config) -> (r: RuleRegistry)
        ensures
            r.applied() == applied_among(*config, rule_names()),
            r.expected_header() == views(config.expected_header@),
            r.manifest_license() == option_text(config.manifest_license),
            r.file_limit() == (match config.max_files_per_directory {
                Some(limit) => limit,
                None => DirectoryFileCountRule::DEFAULT_LIMIT,
            }),
            r.subfolder_limit() == (match config.max_subfolders_per_directory {
                Some(limit) => limit,
                None => DirectorySubfolderCountRule::DEFAULT_LIMIT,
            }),
            r.declared_dependencies() == (match config.workspace_dependencies {
                Some(all) => Some(all@),
                None => None::<Seq<ManifestDependency>>,
            }),
    {
        let known = Self::known_names();
        let mut applied: Vec<String> = Vec::new();
        let mut i: usize = 0;
        assert(rule_names().take(0) =~= Seq::<Seq<char>>::empty());
        while i < known.len()
            invariant
                i <= known.len(),
                str_views(known@) == rule_names(),
                views(applied@) == applied_among(*config, rule_names().take(i as int)),
            decreases known.len() - i,
        {
            assert(rule_names().take(i + 1).drop_last() == rule_names().take(i as int));
            assert(rule_names().take(i + 1).last() == known@[i as int]@);
            if config.selection.includes(known[i]) && Self::is_configured(config, known[i]) {
                let name = String::from_str(known[i]);
                proof {
                    lemma_views_push(applied@, name);
                }
                applied.push(name);
            }
            i = i + 1;
        }
        assert(rule_names().take(known.len() as int) == rule_names());
        let expected = crate::settings::rule_selection::copy_all(&config.expected_header);
        let dependencies = match &config.workspace_dependencies {
            Some(all) => {
                let mut copied: Vec<ManifestDependency> = Vec::new();
                let mut j: usize = 0;
                while j < all.len()
                    invariant
                        j <= all.len(),
                        copied@ == all@.take(j as int),
                    decreases all.len() - j,
                {
                    copied.push(all[j].copied());
                    assert(all@.take(j + 1) =~= all@.take(j as int).push(all@[j as int]));
                    j = j + 1;
                }
                assert(all@.take(all.len() as int) =~= all@);
                Some(copied)
            },
            None => None,
        };
        RuleRegistry {
            applied,
            header: HeaderRule::new(expected),
            spdx: SpdxMatchesManifestRule::new(Self::copy_option(&config.manifest_license)),
            file_count: DirectoryFileCountRule::new(match config.max_files_per_directory {
                Some(limit) => limit,
                None => DirectoryFileCountRule::DEFAULT_LIMIT,
            }),
            subfolder_count: DirectorySubfolderCountRule::new(match config.max_subfolders_per_directory {
                Some(limit) => limit,
                None => DirectorySubfolderCountRule::DEFAULT_LIMIT,
            }),
            dependencies: WorkspaceDependenciesRule::new(dependencies),
        }
    }

    /// Whether no rule is applied, so a run would check nothing.
    pub fn is_empty(&self) -> (b: bool)
        ensures
            b == (self.applied().len() == 0),
    {
        self.applied.len() == 0
    }

    /// The names of the rules applied, in the order they run.
    pub fn names(&self) -> (r: Vec<String>)
        ensures
            views(r@) == self.applied(),
    {
        crate::settings::rule_selection::copy_all(&self.applied)
    }

    /// The rules the selection leaves out, in registry order.
    pub fn skipped_names(config: &Config) -> (r: Vec<String>)
        ensures
            views(r@) == skipped_among(*config, rule_names()),
    {
        let known = Self::known_names();
        let mut r: Vec<String> = Vec::new();
        let mut i: usize = 0;
        assert(rule_names().take(0) =~= Seq::<Seq<char>>::empty());
        while i < known.len()
            invariant
                i <= known.len(),
                str_views(known@) == rule_names(),
                views(r@) == skipped_among(*config, rule_names().take(i as int)),
            decreases known.len() - i,
        {
            assert(rule_names().take(i + 1).drop_last() == rule_names().take(i as int));
            assert(rule_names().take(i + 1).last() == known@[i as int]@);
            if !config.selection.includes(known[i]) {
                let name = String::from_str(known[i]);
                proof {
                    lemma_views_push(r@, name);
                }
                r.push(name);
            }
            i = i + 1;
        }
        assert(rule_names().take(known.len() as int) == rule_names());
        r
    }

    /// The rules the selection includes but that cannot run, each with what
    /// it needs, in registry order.
    pub fn unconfigured(config: &Config) -> (r: Vec<(String, String)>)
        ensures
            r@.map_values(|p: (String, String)| (p.0@, p.1@)) == unconfigured_among(*config, rule_names()),
    {
        let known = Self::known_names();
        let mut r: Vec<(String, String)> = Vec::new();
        let mut i: usize = 0;
        assert(rule_names().take(0) =~= Seq::<Seq<char>>::empty());
        assert(r@.map_values(|p: (String, String)| (p.0@, p.1@)) =~= Seq::<(Seq<char>, Seq<char>)>::empty());
        while i < known.len()
            invariant
                i <= known.len(),
                str_views(known@) == rule_names(),
                r@.map_values(|p: (String, String)| (p.0@, p.1@)) == unconfigured_among(*config, rule_names().take(i as int)),
            decreases known.len() - i,
        {
            assert(rule_names().take(i + 1).drop_last() == rule_names().take(i as int));
            assert(rule_names().take(i + 1).last() == known@[i as int]@);
            if config.selection.includes(known[i]) && !Self::is_configured(config, known[i]) {
                let needs = if crate::text::same_text(known[i], "header") {
                    String::from_str("--header-file")
                } else {
                    String::from_str("a `license` in Cargo.toml")
                };
                let entry = (String::from_str(known[i]), needs);
                let ghost before = r@;
                r.push(entry);
                assert(r@.map_values(|p: (String, String)| (p.0@, p.1@)) =~= before.map_values(
                    |p: (String, String)| (p.0@, p.1@),
                ).push((entry.0@, entry.1@)));
            }
            i = i + 1;
        }
        assert(rule_names().take(known.len() as int) == rule_names());
        r
    }

    fn applies(&self, name: &str) -> (b: bool)
        ensures
            b == self.applied().contains(name@),
    {
        holds(&self.applied, name)
    }

    /// Adds what one applied rule found.
    fn absorb(&self, out: &mut Vec<Offence>, found: Vec<Offence>, Ghost(rule): Ghost<Seq<char>>)
        requires
            all_by(offence_views(found@), rule),
            self.applied().contains(rule),
            from_applied(self.applied(), old(out)@),
        ensures
            from_applied(self.applied(), final(out)@),
            final(out)@ == old(out)@ + found@,
    {
        let mut found = found;
        let ghost added = found@;
        let ghost start = out@;
        out.append(&mut found);
        assert forall|i: int| 0 <= i < out@.len() implies self.applied().contains(#[trigger] out@[i]@.rule) by {
            if i < start.len() {
                assert(out@[i] == start[i]);
            } else {
                assert(out@[i] == added[i - start.len()]);
                assert(offence_views(added)[i - start.len()] == added[i - start.len()]@);
            }
        }
    }

    /// What the rule at `index` finds in one file, if it is applied.
    fn check_rule(&self, index: usize, file: &SourceFile) -> (found: Vec<Offence>)
        requires
            index < file_rule_count(),
        ensures
            file_part(*self, index as int, file@, offence_views(found@)),
            all_by(offence_views(found@), rule_names()[index as int]),
    {
        let name = match index {
            0 => "readable-source",
            1 => "header",
            2 => "spdx-matches-manifest",
            3 => "imported-paths",
            4 => "ordered-imports",
            5 => "pure-traits",
            6 => "single-implemented-type",
            7 => "test-free-source",
            8 => "declared-by-name",
            9 => "module-registry",
            10 => "test-file-structure",
            11 => "test-file-name-postfix",
            12 => "test-naming",
            _ => "arrange-act-assert",
        };
        assert(name@ == rule_names()[index as int]);
        if !self.applies(name) {
            return Vec::new();
        }
        if index == 0 {
            let found = ReadableSourceRule::new().check(file);
            proof {
                lemma_readable_by_rule(file@);
            }
            found
        } else if index == 1 {
            let found = self.header.check(file);
            proof {
                lemma_header_by_rule(self.header@, file@);
            }
            found
        } else if index == 2 {
            let found = self.spdx.check(file);
            proof {
                lemma_spdx_by_rule(self.spdx@, file@);
            }
            found
        } else if index == 3 {
            let found = ImportedPathsRule::new().check(file);
            proof {
                lemma_imported_paths_by_rule(file@, file_syntax(file@), imported_names(file_syntax(file@)));
            }
            found
        } else if index == 4 {
            let found = OrderedImportsRule::new().check(file);
            proof {
                lemma_ordered_by_rule(file@, imports(file_syntax(file@)));
            }
            found
        } else if index == 5 {
            let found = PureTraitsRule::new().check(file);
            proof {
                lemma_pure_by_rule(file@, file_syntax(file@));
            }
            found
        } else if index == 6 {
            let found = SingleImplementedTypeRule::new().check(file);
            proof {
                lemma_single_type_by_rule(file@, file_syntax(file@));
            }
            found
        } else if index == 7 {
            let found = TestFreeSourceRule::new().check(file);
            proof {
                lemma_test_free_by_rule(file@, file_syntax(file@));
            }
            found
        } else if index == 8 {
            let found = DeclaredByNameRule::new().check(file);
            proof {
                lemma_declared_by_rule(file@, file_syntax(file@));
            }
            found
        } else if index == 9 {
            let found = ModuleRegistryRule::new().check(file);
            proof {
                lemma_module_registry_by_rule(file@, strays_of(file_syntax(file@), RegistryPolicy::Source));
            }
            found
        } else if index == 10 {
            let found = TestFileStructureRule::new().check(file);
            proof {
                lemma_structure_by_rule(file@, test_items(file@.lines, file_syntax(file@)));
            }
            found
        } else if index == 11 {
            let found = TestFileNamePostfixRule::new().check(file);
            proof {
                lemma_postfix_by_rule(file@, file_syntax(file@));
            }
            found
        } else if index == 12 {
            let found = TestNamingRule::new().check(file);
            proof {
                lemma_naming_by_rule(file@, file_syntax(file@));
            }
            found
        } else {
            let found = ArrangeActAssertRule::new().check(file);
            proof {
                lemma_aaa_by_rule(file@, file_syntax(file@));
            }
            found
        }
    }

    /// What every applied rule finds in one file, rule by rule in the order
    /// the rules are named: each applied rule's findings, one rule's after
    /// another's, and nothing from a rule that is not applied.
    pub fn check(&self, file: &SourceFile) -> (r: Vec<Offence>)
        ensures
            from_applied(self.applied(), r@),
            self.applied().len() == 0 ==> r@.len() == 0,
            file_findings(*self, file@, offence_views(r@)),
    {
        let mut out: Vec<Offence> = Vec::new();
        let ghost mut parts: Seq<Seq<OffenceView>> = Seq::empty();
        let mut index: usize = 0;
        while index < 14
            invariant
                index <= 14,
                parts.len() == index,
                offence_views(out@) == flattened(parts),
                forall|i: int| 0 <= i < index ==> file_part(*self, i, file@, #[trigger] parts[i]),
                from_applied(self.applied(), out@),
            decreases 14 - index,
        {
            let found = self.check_rule(index, file);
            let ghost part = offence_views(found@);
            proof {
                if found@.len() > 0 {
                    assert(part[0].rule == rule_names()[index as int]);
                    assert(self.applied().contains(rule_names()[index as int]));
                }
            }
            if found.len() > 0 {
                self.absorb(&mut out, found, Ghost(rule_names()[index as int]));
            }
            proof {
                let before = parts;
                parts = parts.push(part);
                assert(parts.drop_last() =~= before);
                assert(offence_views(out@) =~= flattened(before) + part);
            }
            index = index + 1;
        }
        proof {
            if self.applied().len() == 0 && out@.len() > 0 {
                assert(self.applied().contains(out@[0]@.rule));
            }
        }
        out
    }

    /// What the rule at `index` finds in a package's files taken together,
    /// if it is applied.
    fn check_tree_rule(&self, index: usize, files: &Vec<SourceFile>) -> (found: Vec<Offence>)
        requires
            file_rule_count() <= index < rule_names().len(),
        ensures
            tree_part(*self, index as int, files@, offence_views(found@)),
            all_by(offence_views(found@), rule_names()[index as int]),
    {
        let ghost paths = paths_of(files@);
        let name = match index {
            14 => "directory-file-count",
            15 => "directory-subfolder-count",
            16 => "registry-completeness",
            17 => "tests-layout",
            18 => "tested-public-api",
            _ => "workspace-dependencies",
        };
        assert(name@ == rule_names()[index as int]);
        if !self.applies(name) {
            return Vec::new();
        }
        if index == 14 {
            let found = self.file_count.check_workspace(files);
            proof {
                lemma_file_count_by_rule(paths, package_directories(paths), self.file_count.limit() as nat);
            }
            found
        } else if index == 15 {
            let found = self.subfolder_count.check_workspace(files);
            proof {
                lemma_subfolder_count_by_rule(
                    paths,
                    package_directories(paths),
                    package_directories(paths),
                    self.subfolder_count.limit() as nat,
                );
            }
            found
        } else if index == 16 {
            let found = RegistryCompletenessRule::new().check_workspace(files);
            proof {
                let outlines = choose|outlines: Seq<Option<Vec<ItemOutline>>>| {
                    &&& outlines.len() == files@.len()
                    &&& forall|k: int| 0 <= k < files@.len()
                        ==> (#[trigger] outlines[k].is_none() <==> parse_failure(crate::syntax::parsed_text(files@[k]@.lines)).is_some())
                    &&& forall|k: int| 0 <= k < files@.len() ==> (#[trigger] outlines[k] matches Some(v) ==> v@
                        == crate::syntax::file_syntax(files@[k]@))
                    &&& offence_views(found@) == completeness_offences(paths, outlines, package_directories(paths))
                };
                lemma_completeness_by_rule(paths, outlines, package_directories(paths));
                assert(outlines_read(files@, outlines));
            }
            found
        } else if index == 17 {
            let found = TestsLayoutRule::new().check_workspace(files);
            proof {
                let outlines = choose|outlines: Seq<Option<Vec<ItemOutline>>>| {
                    &&& outlines.len() == files@.len()
                    &&& forall|k: int| 0 <= k < files@.len() && #[trigger] is_tests_registry(paths[k])
                        ==> (outlines[k].is_none() <==> parse_failure(crate::syntax::parsed_text(files@[k]@.lines)).is_some())
                    &&& forall|k: int| 0 <= k < files@.len() ==> (#[trigger] outlines[k] matches Some(v) ==> v@
                        == crate::syntax::file_syntax(files@[k]@))
                    &&& offence_views(found@) == tests_layout_offences(paths, outlines)
                };
                lemma_tests_layout_by_rule(paths, outlines);
                assert(registries_read(files@, outlines));
            }
            found
        } else if index == 18 {
            let found = TestedPublicApiRule::new().check_workspace(files);
            proof {
                let outlines = choose|outlines: Seq<Option<Vec<ItemOutline>>>| {
                    &&& outlines.len() == files@.len()
                    &&& forall|k: int| 0 <= k < files@.len()
                        ==> (#[trigger] outlines[k].is_none() <==> parse_failure(crate::syntax::parsed_text(files@[k]@.lines)).is_some())
                    &&& forall|k: int| 0 <= k < files@.len() ==> (#[trigger] outlines[k] matches Some(v) ==> v@
                        == crate::syntax::file_syntax(files@[k]@))
                    &&& offence_views(found@) == tested_api_offences(paths, outlines)
                };
                lemma_tested_api_by_rule(declared_in(paths, outlines), called_in(paths, outlines));
                assert(outlines_read(files@, outlines));
            }
            found
        } else {
            let found = self.dependencies.check_workspace(files);
            proof {
                match self.dependencies.declared() {
                    Some(declared) => lemma_dependencies_by_rule(declared@),
                    None => {},
                }
            }
            found
        }
    }

    /// What every applied rule finds in the package as a whole, rule by rule
    /// in the order the rules are named: each applied rule's findings, one
    /// rule's after another's, and nothing from a rule that is not applied.
    pub fn check_workspace(&self, files: &Vec<SourceFile>) -> (r: Vec<Offence>)
        ensures
            from_applied(self.applied(), r@),
            self.applied().len() == 0 ==> r@.len() == 0,
            tree_findings(*self, files@, offence_views(r@)),
    {
        let mut out: Vec<Offence> = Vec::new();
        let ghost mut parts: Seq<Seq<OffenceView>> = Seq::empty();
        let mut index: usize = 14;
        while index < 20
            invariant
                14 <= index <= 20,
                rule_names().len() == 20,
                parts.len() == index - 14,
                offence_views(out@) == flattened(parts),
                forall|i: int| 0 <= i < parts.len() ==> tree_part(*self, 14 + i, files@, #[trigger] parts[i]),
                from_applied(self.applied(), out@),
            decreases 20 - index,
        {
            let found = self.check_tree_rule(index, files);
            let ghost part = offence_views(found@);
            proof {
                if found@.len() > 0 {
                    assert(part[0].rule == rule_names()[index as int]);
                    assert(self.applied().contains(rule_names()[index as int]));
                }
            }
            if found.len() > 0 {
                self.absorb(&mut out, found, Ghost(rule_names()[index as int]));
            }
            proof {
                let before = parts;
                parts = parts.push(part);
                assert(parts.drop_last() =~= before);
                assert(offence_views(out@) =~= flattened(before) + part);
            }
            index = index + 1;
        }
        proof {
            if self.applied().len() == 0 && out@.len() > 0 {
                assert(self.applied().contains(out@[0]@.rule));
            }
        }
        out
    }
}

} // verus!
