//! A checker that holds a Rust workspace to its house coding rules.
pub mod baseline;
pub mod exclusion_set;
pub mod import_path;
pub mod offence;
pub mod package_tree;
pub mod paths;
pub mod registry_parser;
pub mod report;
pub mod rewrite_lines;
pub mod rule_explanation;
pub mod rule_registry;
pub mod rules;
pub mod runner;
pub mod section;
pub mod settings;
pub mod source_file;
pub mod source_reader;
pub mod source_walker;
pub mod syntax;
pub mod test_file_item;
pub mod test_file_parser;
pub mod test_file_rewriter;
pub mod test_marker;
pub mod text;
pub mod token_finder;
