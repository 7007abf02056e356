//! A `lib.rs` or `mod.rs` outside `tests/` is a list of the modules beneath it
//! and nothing else: the header, the crate's inner attributes, `extern crate
//! alloc;` and module declarations.
//!
//! A `use` here is a re-export shim wearing a registry's clothes; a `fn` is code
//! in the one file nobody opens expecting code; an inline `mod name { ... }` is
//! a module hidden inside the index that was supposed to lead to it. Inner
//! attributes never reach the item list, so a `no_std` crate root passes
//! without this rule knowing which attributes exist. `tests/` is left to
//! `tests-layout`.
use vstd::prelude::*;
use crate::offence::{all_by, offence_views, plain, Offence, OffenceView};
use crate::package_tree::{file_name, name_of_file};
use crate::registry_parser::{strays_of, RegistryParser, RegistryPolicy};
use crate::source_file::{rejoined, SourceFile, SourceFileView};
use crate::syntax::{file_outline, parse_failure, ItemOutline};
use crate::text::{has_prefix, same_text, starts_with};

verus! {

pub open spec fn module_registry_rule_name() -> Seq<char> {
    "module-registry"@
}

pub open spec fn module_registry_applies(path: Seq<char>) -> bool {
    !starts_with(path, "tests/"@) && (file_name(path) == "lib.rs"@ || file_name(path) == "mod.rs"@)
}

pub open spec fn registry_stray_offence(file: SourceFileView, line: nat, label: Seq<char>) -> OffenceView {
    plain(
        file.path,
        line,
        module_registry_rule_name(),
        label + " does not belong in a module registry, which holds the header, inner attributes, `extern crate alloc;` and pub mod declarations only"@,
        "move "@ + label + " into a module of its own"@,
    ).about(label)
}

pub open spec fn module_registry_offences(file: SourceFileView, strays: Seq<(nat, Seq<char>)>) -> Seq<OffenceView> {
    strays.map_values(|s: (nat, Seq<char>)| registry_stray_offence(file, s.0, s.1))
}

/// Every offence the rule finds is reported under its name.
pub proof fn lemma_module_registry_by_rule(file: SourceFileView, strays: Seq<(nat, Seq<char>)>)
    ensures
        all_by(module_registry_offences(file, strays), module_registry_rule_name()),
{
}

pub struct ModuleRegistryRule;

impl ModuleRegistryRule {
    pub const TESTS_ROOT: &'static str = "tests/";

    pub fn new() -> (r: ModuleRegistryRule) {
        ModuleRegistryRule
    }

    pub fn name(&self) -> (r: &'static str)
        ensures
            r@ == module_registry_rule_name(),
    {
        "module-registry"
    }

    pub fn applies_to(file: &SourceFile) -> (b: bool)
        ensures
            b == module_registry_applies(file@.path),
    {
        let name = name_of_file(file.relative_path());
        !has_prefix(file.relative_path(), Self::TESTS_ROOT)
            && (same_text(name.as_str(), "lib.rs") || same_text(name.as_str(), "mod.rs"))
    }

    pub fn check_outline(&self, file: &SourceFile, items: &Vec<ItemOutline>) -> (r: Vec<Offence>)
        ensures
            offence_views(r@) == module_registry_offences(file@, strays_of(items@, RegistryPolicy::Source)),
    {
        let strays = RegistryParser::strays_in(items, RegistryPolicy::Source);
        let ghost expected = module_registry_offences(file@, strays_of(items@, RegistryPolicy::Source));
        let mut r: Vec<Offence> = Vec::new();
        let mut i: usize = 0;
        while i < strays.len()
            invariant
                i <= strays.len(),
                strays_of(items@, RegistryPolicy::Source).len() == strays.len(),
                forall|k: int| 0 <= k < strays.len() ==> strays_of(items@, RegistryPolicy::Source)[k]
                    == (strays@[k].0 as nat, strays@[k].1@),
                expected == module_registry_offences(file@, strays_of(items@, RegistryPolicy::Source)),
                offence_views(r@) == expected.take(i as int),
            decreases strays.len() - i,
        {
            let (line, label) = (strays[i].0, &strays[i].1);
            let mut description = label.clone();
            description.append(
                " does not belong in a module registry, which holds the header, inner attributes, `extern crate alloc;` and pub mod declarations only",
            );
            let mut correction = String::from_str("move ");
            correction.append(label.as_str());
            correction.append(" into a module of its own");
            let o = Offence::new(file.relative_path(), line, self.name(), description, correction)
                .with_subject(label.as_str());
            assert(expected[i as int] == registry_stray_offence(file@, line as nat, label@));
            assert(o@ == expected[i as int]);
            let ghost before = r@;
            r.push(o);
            assert(offence_views(r@) =~= offence_views(before).push(o@));
            assert(expected.take(i + 1) =~= expected.take(i as int).push(expected[i as int]));
            i = i + 1;
        }
        assert(expected.take(strays.len() as int) =~= expected);
        r
    }

    pub fn check(&self, file: &SourceFile) -> (r: Vec<Offence>)
        ensures
            !module_registry_applies(file@.path) ==> r@.len() == 0,
            parse_failure(crate::syntax::parsed_text(file@.lines)).is_some() ==> r@.len() == 0,
            module_registry_applies(file@.path) && parse_failure(crate::syntax::parsed_text(file@.lines)).is_none()
                ==> offence_views(r@)
                    == module_registry_offences(file@, strays_of(crate::syntax::syntax_outline(crate::syntax::parsed_text(file@.lines)), RegistryPolicy::Source)),
    {
        if !Self::applies_to(file) {
            return Vec::new();
        }
        match file_outline(file) {
            Some(items) => self.check_outline(file, &items),
            None => Vec::new(),
        }
    }
}

} // verus!
