use stern4rust::offence::Offence;
use stern4rust::rules::header_rule::HeaderRule;
use stern4rust::rules::layout::module_registry_rule::ModuleRegistryRule;
use stern4rust::rules::manifest::spdx_matches_manifest_rule::SpdxMatchesManifestRule;
use stern4rust::rules::readable_source_rule::ReadableSourceRule;
use stern4rust::rules::source::imported_paths_rule::ImportedPathsRule;
use stern4rust::rules::source::single_implemented_type_rule::{snake_case, SingleImplementedTypeRule};
use stern4rust::rules::source::test_free_source_rule::TestFreeSourceRule;
use stern4rust::source_file::SourceFile;

fn texts(lines: &[&str]) -> Vec<String> {
    lines.iter().map(|line| line.to_string()).collect()
}

fn summary(o: &Offence) -> (String, usize, String, String, String) {
    (o.file.clone(), o.line, o.rule.clone(), o.description.clone(), o.correction.clone())
}

#[test]
fn header_reports_the_first_line_that_differs() {
    let rule = HeaderRule::new(texts(&["// A", "// B"]));
    let file = SourceFile::new("src/lib.rs", "// A\n// C\nfn main() {}\n");

    let found = rule.check(&file);

    assert_eq!(found.len(), 1);
    assert_eq!(found[0].line, 2);
    assert_eq!(found[0].rule, "header");
    assert_eq!(found[0].description, "expected \"// B\" but found \"// C\"");
    assert_eq!(found[0].correction, "make the file open with the expected header, line for line");
    assert_eq!(found[0].expected, Some("// A\n// B".to_string()));
}

#[test]
fn header_reports_an_empty_file_as_carrying_none() {
    let rule = HeaderRule::new(texts(&["// A"]));
    let file = SourceFile::new("src/empty.rs", "");

    let found = rule.check(&file);

    assert_eq!(found.len(), 1);
    assert_eq!(found[0].line, 1);
    assert_eq!(found[0].description, "file is empty, so it carries no header");
}

#[test]
fn header_reports_a_file_that_ends_before_the_header() {
    let rule = HeaderRule::new(texts(&["// A", "// B", "// C"]));
    let file = SourceFile::new("src/short.rs", "// A\n// B");

    let found = rule.check(&file);

    assert_eq!(found.len(), 1);
    assert_eq!(found[0].line, 2);
    assert_eq!(found[0].description, "file has 2 lines but the header is 3");
}

#[test]
fn header_accepts_a_file_that_opens_with_it() {
    let rule = HeaderRule::new(texts(&["// A"]));
    let file = SourceFile::new("src/lib.rs", "// A\npub mod x;\n");

    let found = rule.check(&file);

    assert!(found.is_empty());
}

#[test]
fn spdx_reports_a_licence_other_than_the_manifests() {
    let rule = SpdxMatchesManifestRule::new(Some("MIT".to_string()));
    let file = SourceFile::new("src/lib.rs", "// SPDX-License-Identifier: Apache-2.0\npub mod x;\n");

    let found = rule.check(&file);

    assert_eq!(found.len(), 1);
    assert_eq!(found[0].rule, "spdx-matches-manifest");
    assert_eq!(found[0].description, "src/lib.rs declares `Apache-2.0` where the manifest declares `MIT`");
}

#[test]
fn spdx_stands_down_without_a_manifest_licence() {
    let rule = SpdxMatchesManifestRule::new(None);
    let file = SourceFile::new("src/lib.rs", "pub mod x;\n");

    let found = rule.check(&file);

    assert!(found.is_empty());
}

#[test]
fn readable_source_reports_a_file_that_does_not_parse() {
    let rule = ReadableSourceRule::new();
    let file = SourceFile::new("src/broken.rs", "fn main() {\n    let x = ;\n}\n");

    let found = rule.check(&file);

    assert_eq!(found.len(), 1);
    assert_eq!(found[0].rule, "readable-source");
    assert_eq!(found[0].line, 2);
    assert!(found[0].description.starts_with("file does not parse as Rust: "));
}

#[test]
fn readable_source_accepts_a_file_that_parses() {
    let rule = ReadableSourceRule::new();
    let file = SourceFile::new("src/fine.rs", "fn main() {}\n");

    let found = rule.check(&file);

    assert!(found.is_empty());
}

#[test]
fn imported_paths_names_the_import_to_add() {
    let rule = ImportedPathsRule::new();
    let text = "use std::fs;\n\nfn main() {\n    let a = std::env::args();\n    let b = fs::read_to_string(\"x\");\n    let c = Vec::new();\n    let d = syn::parse_file(\"\");\n}\n";
    let file = SourceFile::new("src/main.rs", text);

    let found = rule.check(&file);

    assert_eq!(found.len(), 2);
    assert_eq!(
        summary(&found[0]),
        (
            "src/main.rs".to_string(),
            4,
            "imported-paths".to_string(),
            "`std::env::args` is reached through a path; no import of this file names it".to_string(),
            "add `use std::env;` and call `env::args`".to_string(),
        )
    );
    assert_eq!(found[0].subject, Some("std::env::args".to_string()));
    assert_eq!(found[1].line, 7);
    assert_eq!(found[1].correction, "add `use syn::parse_file;` and call `parse_file`");
}

#[test]
fn imported_paths_leaves_type_qualifiers_alone() {
    let rule = ImportedPathsRule::new();
    let text = "struct Widget;\nimpl Widget {\n    fn new() -> Self { Widget }\n    fn make() -> Self { Self::new() }\n}\nfn f() { let w = Widget::new(); }\n";
    let file = SourceFile::new("src/widget.rs", text);

    let found = rule.check(&file);

    assert!(found.is_empty());
}

#[test]
fn single_implemented_type_reports_the_second_subject() {
    let rule = SingleImplementedTypeRule::new();
    let text = "pub struct Widget;\npub struct ReportPrinter;\npub struct Plain;\nimpl Widget { pub fn new() -> Self { Widget } }\nimpl ReportPrinter { pub fn new() -> Self { ReportPrinter } }\nimpl Clone for Foreign { fn clone(&self) -> Self { Foreign } }\n";
    let file = SourceFile::new("src/widget.rs", text);

    let found = rule.check(&file);

    assert_eq!(found.len(), 1);
    assert_eq!(found[0].line, 5);
    assert_eq!(
        found[0].description,
        "`ReportPrinter` is a second type with an impl block; this file's subject is already `Widget`"
    );
    assert_eq!(found[0].correction, "move `ReportPrinter` and its impl blocks into report_printer.rs");
}

#[test]
fn single_implemented_type_exempts_tests() {
    let rule = SingleImplementedTypeRule::new();
    let text = "struct A;\nstruct B;\nimpl A {}\nimpl B {}\n";
    let file = SourceFile::new("tests/fakes_tests.rs", text);

    let found = rule.check(&file);

    assert!(found.is_empty());
}

#[test]
fn snake_case_splits_on_capitals() {
    assert_eq!(snake_case("ReportPrinter"), "report_printer");
    assert_eq!(snake_case("Widget"), "widget");
    assert_eq!(snake_case("HTTPServer"), "h_t_t_p_server");
}

#[test]
fn test_free_source_reports_test_modules_and_tests() {
    let rule = TestFreeSourceRule::new();
    let text = "pub fn f() {}\n\n#[cfg(test)]\nmod tests {\n    #[test]\n    fn it_works() {}\n}\n";
    let file = SourceFile::new("src/lib.rs", text);

    let found = rule.check(&file);

    assert_eq!(found.len(), 2);
    assert_eq!(found[0].line, 3);
    assert_eq!(found[0].description, "test module `tests` does not belong in the source tree");
    assert_eq!(found[0].correction, "move its tests into the matching file under tests/ and delete the module");
    assert_eq!(found[1].line, 5);
    assert_eq!(found[1].description, "test `it_works` does not belong in the source tree");
}

#[test]
fn test_free_source_leaves_feature_gates_alone() {
    let rule = TestFreeSourceRule::new();
    let text = "#[cfg(feature = \"serde\")]\npub fn f() {}\n#[cfg_attr(feature = \"serde\", derive(Debug))]\npub struct S;\n";
    let file = SourceFile::new("src/lib.rs", text);

    let found = rule.check(&file);

    assert!(found.is_empty());
}

#[test]
fn test_free_source_reports_a_test_only_derive() {
    let rule = TestFreeSourceRule::new();
    let text = "#[cfg_attr(test, derive(Debug))]\npub struct S;\n";
    let file = SourceFile::new("src/lib.rs", text);

    let found = rule.check(&file);

    assert_eq!(found.len(), 1);
    assert_eq!(found[0].description, "`#[cfg_attr(test, ...)]` on `S` does not belong in the source tree");
}

#[test]
fn module_registry_reports_what_a_registry_cannot_hold() {
    let rule = ModuleRegistryRule::new();
    let text = "use std::fmt;\npub mod alpha;\nmod beta;\nextern crate alloc;\npub fn helper() {}\n";
    let file = SourceFile::new("src/lib.rs", text);

    let found = rule.check(&file);

    assert_eq!(found.len(), 2);
    assert_eq!(found[0].line, 1);
    assert_eq!(
        found[0].description,
        "the import `use std::fmt;` does not belong in a module registry, which holds the header, inner attributes, `extern crate alloc;` and pub mod declarations only"
    );
    assert_eq!(found[0].correction, "move the import `use std::fmt;` into a module of its own");
    assert_eq!(found[1].line, 5);
    assert_eq!(found[1].subject, Some("the function `helper`".to_string()));
}

#[test]
fn module_registry_leaves_tests_to_tests_layout() {
    let rule = ModuleRegistryRule::new();
    let file = SourceFile::new("tests/rules/mod.rs", "use std::fmt;\n");

    let found = rule.check(&file);

    assert!(found.is_empty());
}

#[test]
fn imported_paths_knows_grouped_and_renamed_imports() {
    let rule = ImportedPathsRule::new();
    let text = "use std::io::{self, Read};\nuse std::collections as coll;\n\nfn main() {\n    let a = io::stdin();\n    let b = coll::hash_map::HashMap::new();\n    let c = fmt::format(x);\n}\n";
    let file = SourceFile::new("src/main.rs", text);

    let found = rule.check(&file);

    assert_eq!(found.len(), 1);
    assert_eq!(found[0].line, 7);
    assert_eq!(found[0].correction, "add `use fmt::format;` and call `format`");
}

#[test]
fn module_registry_reports_a_function_in_a_registry_only() {
    let rule = ModuleRegistryRule::new();
    let text = "pub mod a;\n\nfn helper() {}\n";

    let found = rule.check(&SourceFile::new("src/lib.rs", text));

    assert_eq!(found.len(), 1);
    assert_eq!((found[0].line, found[0].rule.as_str()), (3, "module-registry"));
    assert!(rule.check(&SourceFile::new("tests/mod.rs", text)).is_empty());
    assert!(rule.check(&SourceFile::new("src/a.rs", text)).is_empty());
}

#[test]
fn pure_traits_reports_a_provided_method_only() {
    let rule = stern4rust::rules::source::pure_traits_rule::PureTraitsRule::new();
    let text = "trait Store {\n    const N: u8 = 1;\n    fn commit(&self) -> bool {\n        true\n    }\n    fn id(&self) -> u8;\n}\n";

    let found = rule.check(&SourceFile::new("src/store.rs", text));

    assert_eq!(found.len(), 1);
    assert_eq!((found[0].line, found[0].subject.clone()), (3, Some("Store::commit".to_string())));
    assert!(rule.check(&SourceFile::new("tests/store.rs", text)).is_empty());
}

#[test]
fn test_free_source_reports_a_test_module_under_src_only() {
    let rule = TestFreeSourceRule::new();

    assert!(!rule.check(&SourceFile::new("src/a.rs", "#[cfg(test)]\nmod tests {}\n")).is_empty());
    assert!(rule.check(&SourceFile::new("src/a.rs", "#[cfg(feature = \"x\")] mod extra {}\n")).is_empty());
    assert!(rule.check(&SourceFile::new("tests/a.rs", "#[cfg(test)]\nmod tests {}\n")).is_empty());
}

#[test]
fn a_shebang_line_is_read_as_blank() {
    let file = SourceFile::new("src/main.rs", "#!/usr/bin/env run-cargo-script\nfn main() {}\n");

    assert!(ReadableSourceRule::new().check(&file).is_empty());
}
