//! Which entries a walk of a package descends into and which files it keeps.
//!
//! Every `.rs` file under a package is in scope, tests included, and so is a
//! nested package with its own `Cargo.toml`: a linter that quietly declines to
//! look at part of a tree is the silence this tool exists to refuse. Only
//! `target/`, which holds generated code nobody wrote, and `.git/` are left
//! out. The package being walked is never skipped, whatever its directory is
//! called.
use vstd::prelude::*;
use crate::package_tree::file_name;
use crate::package_tree::name_of_file;
use crate::text::{ends_with, has_suffix, same_text};

verus! {

pub open spec fn is_skipped(is_root: bool, name: Seq<char>) -> bool {
    !is_root && (name == "target"@ || name == ".git"@)
}

pub struct SourceWalker;

impl SourceWalker {
    /// Whether a walk leaves the entry out, and everything below it; `name`
    /// is its last component.
    pub fn is_skipped(is_root: bool, name: &str) -> (b: bool)
        ensures
            b == is_skipped(is_root, name@),
    {
        !is_root && (same_text(name, "target") || same_text(name, ".git"))
    }

    /// Whether a file the walk reaches is kept: its name ends in `.rs`.
    pub fn is_source(path: &str) -> (b: bool)
        ensures
            b == ends_with(file_name(path@), ".rs"@),
    {
        let name = name_of_file(path);
        has_suffix(name.as_str(), ".rs")
    }
}

} // verus!
