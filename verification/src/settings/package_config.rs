//! What one package in a workspace says about itself, in a `[package.<name>]`
//! section of the root configuration file.
use vstd::prelude::*;
use vstd::std_specs::cmp::PartialEqSpecImpl;
use crate::settings::config_file::option_text;
use crate::settings::rule_selection::same_strings;
use crate::text::views;
use crate::paths::{join_path, path_join};

verus! {

pub struct PackageConfig {
    pub header_file: Option<String>,
    pub max_files_per_directory: Option<usize>,
    pub max_subfolders_per_directory: Option<usize>,
    pub rules: Vec<String>,
    pub skip: Vec<String>,
    pub exclude: Vec<String>,
}

/// Whether two optional strings are the same, or both absent.
pub fn same_option_text(a: &Option<String>, b: &Option<String>) -> (r: bool)
    ensures
        r == (option_text(*a) == option_text(*b)),
{
    match (a, b) {
        (Some(x), Some(y)) => crate::text::same_text(x.as_str(), y.as_str()),
        (None, None) => true,
        _ => false,
    }
}

/// Two sections are the same when every key says the same.
pub open spec fn same_package_config(a: PackageConfig, b: PackageConfig) -> bool {
    &&& option_text(a.header_file) == option_text(b.header_file)
    &&& a.max_files_per_directory == b.max_files_per_directory
    &&& a.max_subfolders_per_directory == b.max_subfolders_per_directory
    &&& views(a.rules@) == views(b.rules@)
    &&& views(a.skip@) == views(b.skip@)
    &&& views(a.exclude@) == views(b.exclude@)
}

impl PartialEq for PackageConfig {
    fn eq(&self, other: &Self) -> (r: bool) {
        same_option_text(&self.header_file, &other.header_file)
            && self.max_files_per_directory == other.max_files_per_directory
            && self.max_subfolders_per_directory == other.max_subfolders_per_directory
            && same_strings(&self.rules, &other.rules) && same_strings(&self.skip, &other.skip)
            && same_strings(&self.exclude, &other.exclude)
    }
}

impl Eq for PackageConfig {
}

impl PartialEqSpecImpl for PackageConfig {
    open spec fn obeys_eq_spec() -> bool {
        true
    }

    open spec fn eq_spec(&self, other: &Self) -> bool {
        same_package_config(*self, *other)
    }
}

impl Default for PackageConfig {
    /// A section that sets nothing.
    fn default() -> (r: PackageConfig)
        ensures
            r.header_file.is_none(),
            r.max_files_per_directory.is_none(),
            r.max_subfolders_per_directory.is_none(),
            r.rules@.len() == 0,
            r.skip@.len() == 0,
            r.exclude@.len() == 0,
    {
        PackageConfig {
            header_file: None,
            max_files_per_directory: None,
            max_subfolders_per_directory: None,
            rules: Vec::new(),
            skip: Vec::new(),
            exclude: Vec::new(),
        }
    }
}

impl PackageConfig {
    /// Resolved against the directory the configuration file sits in.
    pub fn header_file_from(&self, directory: &str) -> (r: Option<String>)
        ensures
            match self.header_file {
                Some(h) => r.is_some() && r.unwrap()@ == path_join(directory@, h@),
                None => r.is_none(),
            },
    {
        match &self.header_file {
            Some(path) => Some(join_path(directory, path.as_str())),
            None => None,
        }
    }
}

} // verus!
