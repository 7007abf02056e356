use stern4rust::rules::test_file_structure_rule::TestFileStructureRule;
use stern4rust::section::Section;
use stern4rust::source_file::SourceFile;
use stern4rust::test_file_item::TestFileItem;
use stern4rust::runner::Runner;
use stern4rust::test_file_rewriter::TestFileRewriter;

#[test]
fn the_sort_key_is_the_lower_cased_name() {
    let item = TestFileItem::new(Section::Helpers, "BetaHelper".to_string(), 1, 2);

    assert_eq!(item.sort_key(), "betahelper");
}

#[test]
fn tests_out_of_alphabetic_order_are_reported() {
    let text = "#[test]\nfn zeta_case_works() {}\n\n#[test]\nfn alpha_case_works() {}\n";
    let file = SourceFile::new("tests/order_tests.rs", text);

    let found = TestFileStructureRule::new().check(&file);

    assert_eq!(found.len(), 1);
    assert_eq!(found[0].rule, "test-file-structure");
    assert_eq!(found[0].line, 4);
}

#[test]
fn the_rewriter_puts_tests_in_alphabetic_order() {
    let text = "#[test]\nfn zeta_case_works() {}\n\n#[test]\nfn alpha_case_works() {}\n";
    let file = SourceFile::new("tests/order_tests.rs", text);

    let rewritten = TestFileRewriter::rewrite(&file);

    assert_eq!(
        rewritten,
        Some("#[test]\nfn alpha_case_works() {}\n\n#[test]\nfn zeta_case_works() {}\n".to_string())
    );
}

#[test]
fn the_rewriter_leaves_source_files_alone() {
    let file = SourceFile::new("src/order.rs", "fn b() {}\nfn a() {}\n");

    assert_eq!(TestFileRewriter::rewrite(&file), None);
}

#[test]
fn a_file_reads_back_as_its_normalised_lines() {
    let file = SourceFile::new("src\\lib.rs", "\u{feff}a\r\nb\n");

    assert_eq!(file.relative_path(), "src/lib.rs");
    assert_eq!(file.lines(), &vec!["a".to_string(), "b".to_string(), String::new()]);
    assert_eq!(file.contents(), "a\nb\n");
}

#[test]
fn a_repair_rewrites_only_the_files_it_owes_a_change() {
    let files = vec![
        SourceFile::new("tests/order_tests.rs", "#[test]\nfn zeta_case_works() {}\n\n#[test]\nfn alpha_case_works() {}\n"),
        SourceFile::new("src/order.rs", "fn b() {}\nfn a() {}\n"),
    ];

    let repair = Runner::repair(files);

    assert_eq!(repair.fixed, 1);
    assert_eq!(
        repair.rewrites,
        vec![Some("#[test]\nfn alpha_case_works() {}\n\n#[test]\nfn zeta_case_works() {}\n".to_string()), None]
    );
    assert_eq!(repair.files[0].contents(), "#[test]\nfn alpha_case_works() {}\n\n#[test]\nfn zeta_case_works() {}\n");
    assert_eq!(repair.files[1].contents(), "fn b() {}\nfn a() {}\n");
    assert!(TestFileStructureRule::new().check(&repair.files[0]).is_empty());
}

#[test]
fn a_rewrite_writes_only_lines_the_file_already_held() {
    let text = "// header\n\n#[test]\nfn zeta_case_works() {\n    let s = \"fn a() {}\";\n}\n#[test]\nfn alpha_case_works() {}\n";
    let file = SourceFile::new("tests/order_tests.rs", text);

    let rewritten = TestFileRewriter::rewrite(&file).unwrap();

    let original: Vec<&str> = text.lines().collect();
    for line in rewritten.lines() {
        assert!(line.is_empty() || original.contains(&line), "{line}");
    }
    assert!(rewritten.contains("fn alpha_case_works() {}\n\n#[test]\nfn zeta_case_works() {"));
}

#[test]
fn a_rewrite_keeps_each_line_that_is_not_blank_exactly_once() {
    let text = "// header\n\n#[test]\nfn zeta_case_works() {\n    let s = 1;\n}\n\n\n#[test]\nfn alpha_case_works() {\n    let s = 1;\n}\n// footer\n";
    let file = SourceFile::new("tests/order_tests.rs", text);

    let rewritten = TestFileRewriter::rewrite(&file).unwrap();

    let mut before: Vec<&str> = text.lines().filter(|l| !l.trim().is_empty()).collect();
    let mut after: Vec<&str> = rewritten.lines().filter(|l| !l.trim().is_empty()).collect();
    before.sort();
    after.sort();
    assert_eq!(before, after);
    assert_eq!(
        rewritten,
        "// header\n\n#[test]\nfn alpha_case_works() {\n    let s = 1;\n}\n\n#[test]\nfn zeta_case_works() {\n    let s = 1;\n}\n\n// footer\n"
    );
}

#[test]
fn a_rewrite_of_given_items_moves_their_blocks() {
    let file = SourceFile::new("tests/a_tests.rs", "fn b() {}\n\nfn a() {}\n");
    let items = vec![
        TestFileItem::new(Section::Helpers, "b".to_string(), 1, 1),
        TestFileItem::new(Section::Helpers, "a".to_string(), 3, 3),
    ];

    assert_eq!(TestFileRewriter::rewrite_items(&file, &items), Some("fn a() {}\n\nfn b() {}\n".to_string()));
    assert_eq!(TestFileRewriter::rewrite_items(&file, &Vec::new()), None);
}

#[test]
fn a_rewrite_sorts_items_and_keeps_the_header_on_top() {
    let sorted = TestFileRewriter::rewrite(&SourceFile::new("tests/a_tests.rs", "fn b() {}\n\nfn a() {}\n"));
    let sections = TestFileRewriter::rewrite(&SourceFile::new("tests/x_tests.rs", "// H\n\nconst B: u8 = 1;\nuse std::fmt;\n"));

    assert_eq!(sorted, Some("fn a() {}\n\nfn b() {}\n".to_string()));
    assert_eq!(sections, Some("// H\n\nuse std::fmt;\n\nconst B: u8 = 1;\n".to_string()));
}

#[test]
fn a_rewrite_leaves_imports_in_their_written_order() {
    let file = SourceFile::new("tests/a_tests.rs", "use std::fmt;\nuse std::env;\n");

    assert_eq!(TestFileRewriter::rewrite(&file), None);
}

#[test]
fn a_rewrite_leaves_registries_and_itemless_files_alone() {
    assert_eq!(TestFileRewriter::rewrite(&SourceFile::new("tests/all_tests.rs", "mod b;\nmod a;\n")), None);
    assert_eq!(TestFileRewriter::rewrite(&SourceFile::new("tests/a/mod.rs", "mod b;\nmod a;\n")), None);
    assert_eq!(TestFileRewriter::rewrite(&SourceFile::new("tests/a_tests.rs", "// nothing here\n")), None);
    assert_eq!(TestFileRewriter::rewrite(&SourceFile::new("tests/a_tests.rs", "fn b( {}\n")), None);
}

#[test]
fn rewriting_a_rewrite_changes_nothing() {
    let file = SourceFile::new("tests/x_tests.rs", "// H\n\nconst B: u8 = 1;\nuse std::fmt;\n#[test]\nfn zeta_works() {}\n#[test]\nfn alpha_works() {}\n");

    let once = TestFileRewriter::rewrite(&file).unwrap();

    assert_eq!(TestFileRewriter::rewrite(&SourceFile::new(file.relative_path(), &once)), None);
}

#[test]
fn the_structure_rule_reports_order_spacing_and_sections_exactly() {
    let rule = TestFileStructureRule::new();

    let order = rule.check(&SourceFile::new("tests/a_tests.rs", "fn b() {}\n\nfn a() {}\n"));
    let spacing = rule.check(&SourceFile::new("tests/a_tests.rs", "fn a() {}\nfn b() {}\n"));
    let sections = rule.check(&SourceFile::new("tests/a_tests.rs", "const B: u8 = 1;\nuse std::fmt;\n"));

    assert_eq!(order.len(), 1);
    assert_eq!((order[0].file.as_str(), order[0].line, order[0].rule.as_str()), ("tests/a_tests.rs", 3, "test-file-structure"));
    assert_eq!(order[0].subject, Some("a".to_string()));
    assert_eq!(spacing.len(), 1);
    assert_eq!((spacing[0].line, spacing[0].subject.clone()), (2, Some("b".to_string())));
    assert_eq!(sections.len(), 1);
    assert_eq!((sections[0].line, sections[0].subject.clone()), (2, Some("use std::fmt;".to_string())));
}
