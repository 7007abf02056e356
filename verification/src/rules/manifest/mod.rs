pub mod spdx_matches_manifest_rule;
pub mod workspace_dependencies_rule;
