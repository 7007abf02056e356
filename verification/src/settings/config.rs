//! Everything one run is configured with.
use vstd::prelude::*;
use vstd::std_specs::cmp::PartialEqSpecImpl;
use crate::settings::config_file::option_text;
use crate::settings::manifest_dependency::{dependencies_view, same_dependencies, ManifestDependency};
use crate::settings::package_config::same_option_text;
use crate::settings::rule_selection::{same_strings, RuleSelection};
use crate::text::views;

verus! {

/// How the report is rendered: a table for a person, or the same run as a
/// document.
#[derive(Clone, Copy, Debug, PartialEq, Eq, Structural)]
pub enum OutputFormat {
    Text,
    Json,
}

pub open spec fn default_threshold() -> usize {
    100
}

/// The directory limits are options because a bare zero would mean "no files
/// may exist"; none means "not configured", and each rule supplies its own
/// default.
pub struct Config {
    pub baseline: Option<String>,
    pub config_file: Option<String>,
    pub fix: bool,
    pub write_baseline: bool,
    pub manifest_license: Option<String>,
    pub workspace_dependencies: Option<Vec<ManifestDependency>>,
    pub manifest_path: Option<String>,
    pub max_files_per_directory: Option<usize>,
    pub max_subfolders_per_directory: Option<usize>,
    pub packages: Vec<String>,
    pub excludes: Vec<String>,
    pub expected_header: Vec<String>,
    pub format: OutputFormat,
    pub offence_threshold: usize,
    pub selection: RuleSelection,
}

impl Config {
    /// How many offences a report prints unless told otherwise.
    pub const DEFAULT_THRESHOLD: usize = 100;
}

/// Two configurations are the same when every setting says the same.
pub open spec fn same_config(a: Config, b: Config) -> bool {
    &&& option_text(a.baseline) == option_text(b.baseline)
    &&& option_text(a.config_file) == option_text(b.config_file)
    &&& a.fix == b.fix
    &&& a.write_baseline == b.write_baseline
    &&& option_text(a.manifest_license) == option_text(b.manifest_license)
    &&& dependencies_view(a.workspace_dependencies) == dependencies_view(b.workspace_dependencies)
    &&& option_text(a.manifest_path) == option_text(b.manifest_path)
    &&& a.max_files_per_directory == b.max_files_per_directory
    &&& a.max_subfolders_per_directory == b.max_subfolders_per_directory
    &&& views(a.packages@) == views(b.packages@)
    &&& views(a.excludes@) == views(b.excludes@)
    &&& views(a.expected_header@) == views(b.expected_header@)
    &&& a.format == b.format
    &&& a.offence_threshold == b.offence_threshold
    &&& a.selection@ == b.selection@
}

impl PartialEq for Config {
    fn eq(&self, other: &Self) -> (r: bool) {
        let paths = same_option_text(&self.baseline, &other.baseline) && same_option_text(
            &self.config_file,
            &other.config_file,
        ) && same_option_text(&self.manifest_path, &other.manifest_path);
        let switches = self.fix == other.fix && self.write_baseline == other.write_baseline && self.format
            == other.format && self.offence_threshold == other.offence_threshold;
        let manifest = same_option_text(&self.manifest_license, &other.manifest_license) && same_dependencies(
            &self.workspace_dependencies,
            &other.workspace_dependencies,
        );
        let limits = self.max_files_per_directory == other.max_files_per_directory
            && self.max_subfolders_per_directory == other.max_subfolders_per_directory;
        let lists = same_strings(&self.packages, &other.packages) && same_strings(&self.excludes, &other.excludes)
            && same_strings(&self.expected_header, &other.expected_header);
        let selection = self.selection == other.selection;
        paths && switches && manifest && limits && lists && selection
    }
}

impl Eq for Config {
}

impl PartialEqSpecImpl for Config {
    open spec fn obeys_eq_spec() -> bool {
        true
    }

    open spec fn eq_spec(&self, other: &Self) -> bool {
        same_config(*self, *other)
    }
}

impl Default for Config {
    /// Nothing configured: every rule selected, none skipped, the text
    /// format, the report capped at its usual number of offences.
    fn default() -> (r: Config)
        ensures
            r.baseline.is_none(),
            r.config_file.is_none(),
            !r.fix,
            !r.write_baseline,
            r.manifest_license.is_none(),
            r.workspace_dependencies.is_none(),
            r.manifest_path.is_none(),
            r.max_files_per_directory.is_none(),
            r.max_subfolders_per_directory.is_none(),
            r.packages@.len() == 0,
            r.excludes@.len() == 0,
            r.expected_header@.len() == 0,
            r.format == OutputFormat::Text,
            r.offence_threshold == default_threshold(),
            r.selection@.selected.len() == 0,
            r.selection@.skipped.len() == 0,
    {
        Config {
            baseline: None,
            config_file: None,
            fix: false,
            write_baseline: false,
            manifest_license: None,
            workspace_dependencies: None,
            manifest_path: None,
            max_files_per_directory: None,
            max_subfolders_per_directory: None,
            packages: Vec::new(),
            excludes: Vec::new(),
            expected_header: Vec::new(),
            format: OutputFormat::Text,
            offence_threshold: Self::DEFAULT_THRESHOLD,
            selection: RuleSelection::default(),
        }
    }
}

} // verus!
