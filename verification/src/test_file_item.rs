//! One top-level item of a test file, with the lines it occupies.
//!
//! `first_line` is the start of the item's whole block, comments included: a
//! comment introducing a test belongs to that test.
use vstd::prelude::*;
use crate::section::Section;
use crate::text::{lowercase, to_lowercase};

verus! {

pub struct TestFileItemView {
    pub section: Section,
    pub name: Seq<char>,
    pub first_line: nat,
    pub last_line: nat,
}

pub struct TestFileItem {
    pub section: Section,
    pub name: String,
    pub first_line: usize,
    pub last_line: usize,
}

impl View for TestFileItem {
    type V = TestFileItemView;

    open spec fn view(&self) -> TestFileItemView {
        TestFileItemView {
            section: self.section,
            name: self.name@,
            first_line: self.first_line as nat,
            last_line: self.last_line as nat,
        }
    }
}

pub open spec fn item_views(v: Seq<TestFileItem>) -> Seq<TestFileItemView> {
    v.map_values(|i: TestFileItem| i@)
}

impl TestFileItem {
    pub fn new(section: Section, name: String, first_line: usize, last_line: usize) -> (r: TestFileItem)
        ensures
            r.section == section,
            r.name == name,
            r.first_line == first_line,
            r.last_line == last_line,
    {
        TestFileItem { section, name, first_line, last_line }
    }

    /// Case-insensitive, because a constant is SHOUTED and a function is not.
    pub fn sort_key(&self) -> (r: String)
        ensures
            r@ == lowercase(self.name@),
    {
        to_lowercase(self.name.as_str())
    }

    pub fn copied(&self) -> (r: TestFileItem)
        ensures
            r.section == self.section,
            r.name@ == self.name@,
            r.first_line == self.first_line,
            r.last_line == self.last_line,
    {
        TestFileItem {
            section: self.section,
            name: self.name.clone(),
            first_line: self.first_line,
            last_line: self.last_line,
        }
    }
}

} // verus!
