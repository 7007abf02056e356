//! The repository's own configuration file, `stern4rust.toml`, beside the
//! manifest it configures, as plain values.
use vstd::prelude::*;
use crate::paths::{join_path, path_join};
use crate::settings::package_config::PackageConfig;

verus! {

pub struct ConfigFile {
    pub baseline: Option<String>,
    pub header_file: Option<String>,
    pub offence_threshold: Option<usize>,
    pub max_files_per_directory: Option<usize>,
    pub max_subfolders_per_directory: Option<usize>,
    pub rules: Vec<String>,
    pub skip: Vec<String>,
    pub exclude: Vec<String>,
    /// The `[package.<name>]` sections, in name order.
    pub packages: Vec<(String, PackageConfig)>,
}

pub open spec fn joined_option(directory: Seq<char>, path: Option<String>) -> Option<Seq<char>> {
    match path {
        Some(p) => Some(path_join(directory, p@)),
        None => None,
    }
}

pub open spec fn option_text(o: Option<String>) -> Option<Seq<char>> {
    match o {
        Some(s) => Some(s@),
        None => None,
    }
}

impl ConfigFile {
    pub const NAME: &'static str = "stern4rust.toml";

    /// Resolved against the directory the file sits in.
    pub fn header_file_from(&self, directory: &str) -> (r: Option<String>)
        ensures
            option_text(r) == joined_option(directory@, self.header_file),
    {
        match &self.header_file {
            Some(path) => Some(join_path(directory, path.as_str())),
            None => None,
        }
    }

    /// Resolved against the directory the file sits in.
    pub fn baseline_from(&self, directory: &str) -> (r: Option<String>)
        ensures
            option_text(r) == joined_option(directory@, self.baseline),
    {
        match &self.baseline {
            Some(path) => Some(join_path(directory, path.as_str())),
            None => None,
        }
    }
}

} // verus!
