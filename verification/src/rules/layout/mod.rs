pub mod test_file_name_postfix_rule;
pub mod directory_file_count_rule;
pub mod directory_subfolder_count_rule;
pub mod module_registry_rule;
