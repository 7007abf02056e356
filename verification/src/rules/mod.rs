pub mod declared_by_name_rule;
pub mod header_rule;
pub mod layout;
pub mod manifest;
pub mod readable_source_rule;
pub mod source;
pub mod test_file_structure_rule;
pub mod testing;
pub mod tests_layout_rule;
pub mod registry_completeness_rule;
