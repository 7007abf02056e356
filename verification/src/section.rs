//! The groups a test file is read in, top to bottom.
use vstd::prelude::*;

verus! {

#[derive(Clone, Copy, Debug, PartialEq, Eq, Structural)]
pub enum Section {
    Imports,
    Constants,
    Helpers,
    Tests,
}

pub open spec fn rank(s: Section) -> nat {
    match s {
        Section::Imports => 0,
        Section::Constants => 1,
        Section::Helpers => 2,
        Section::Tests => 3,
    }
}

pub open spec fn label(s: Section) -> Seq<char> {
    match s {
        Section::Imports => "import"@,
        Section::Constants => "constant"@,
        Section::Helpers => "helper"@,
        Section::Tests => "test"@,
    }
}

/// Imports run together; everything else is separated by one blank line.
pub open spec fn blank_lines_between(s: Section) -> nat {
    match s {
        Section::Imports => 0,
        _ => 1,
    }
}

impl Section {
    /// Where the section stands in a file: imports first, tests last.
    pub fn rank(&self) -> (r: usize)
        ensures
            r == rank(*self),
    {
        match self {
            Section::Imports => 0,
            Section::Constants => 1,
            Section::Helpers => 2,
            Section::Tests => 3,
        }
    }

    pub fn label(&self) -> (r: &'static str)
        ensures
            r@ == label(*self),
    {
        match self {
            Section::Imports => "import",
            Section::Constants => "constant",
            Section::Helpers => "helper",
            Section::Tests => "test",
        }
    }

    pub fn blank_lines_between_entries(&self) -> (r: usize)
        ensures
            r == blank_lines_between(*self),
    {
        match self {
            Section::Imports => 0,
            _ => 1,
        }
    }
}

} // verus!
