//! Turns what reading a file gave back into the file, or into a finding.
//!
//! A file that cannot be read is a fact about the tree rather than the end of
//! the run: it becomes a `readable-source` offence, and every other file is
//! still checked.
use vstd::prelude::*;
use crate::offence::Offence;
use crate::paths::{relative, relative_to};
use crate::rules::readable_source_rule::{unreadable, ReadableSourceRule};
use crate::source_file::{normalised_lines, SourceFile};
use crate::text::forward_slashes;

verus! {

pub struct SourceReader;

impl SourceReader {
    /// The file at `path` under `root`, given the text read from it or the
    /// reason it could not be read.
    pub fn from_read(root: &str, path: &str, read: Result<String, String>) -> (r: Result<SourceFile, Offence>)
        ensures
            match (read, r) {
                (Ok(contents), Ok(file)) => file@.path == forward_slashes(relative(root@, path@))
                    && file@.lines == normalised_lines(contents@),
                (Err(error), Err(offence)) => offence@ == unreadable(relative(root@, path@), error@),
                _ => false,
            },
    {
        let shown = relative_to(root, path);
        match read {
            Ok(contents) => Ok(SourceFile::new(shown.as_str(), contents.as_str())),
            Err(error) => Err(ReadableSourceRule::unreadable(shown.as_str(), error.as_str())),
        }
    }
}

} // verus!
