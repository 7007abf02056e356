pub mod ordered_imports_rule;
pub mod pure_traits_rule;
pub mod single_implemented_type_rule;
pub mod test_free_source_rule;
pub mod imported_paths_rule;
