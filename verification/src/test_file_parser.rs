//! Turns a test file into the list of items the structure rule reasons about.
//!
//! Plain `//` comments never reach the syntax tree, so the header and every
//! explanatory comment are invisible here. What matters is that a comment
//! introducing an item counts as part of that item, so each block is extended
//! upwards over the comment lines directly above it.
use vstd::prelude::*;
use crate::section::Section;
use crate::source_file::{rejoined, SourceFile};
use crate::syntax::{outline, parse_failure, AttributeOutline, ItemKind, ItemOutline};
use crate::test_file_item::{item_views, TestFileItem, TestFileItemView};
use crate::text::{has_prefix, starts_with, trim, trim_start, trimmed, trimmed_start, same_text, views};

verus! {

pub open spec fn option_text(o: Option<String>) -> Option<Seq<char>> {
    match o {
        Some(s) => Some(s@),
        None => None,
    }
}

/// An attribute list that marks a test: `#[test]`, `#[tokio::test]` and any
/// other harness whose path ends in `test`.
pub open spec fn marks_test(attrs: Seq<AttributeOutline>) -> bool {
    exists|i: int| 0 <= i < attrs.len() && option_text(#[trigger] attrs[i].last_segment) == Some("test"@)
}

pub open spec fn is_test_item(item: ItemOutline) -> bool {
    item.kind == ItemKind::Fn && marks_test(item.attributes@)
}

pub open spec fn section_of(item: ItemOutline) -> Section {
    if item.kind == ItemKind::Use {
        Section::Imports
    } else if item.kind == ItemKind::Const || item.kind == ItemKind::Static {
        Section::Constants
    } else if is_test_item(item) {
        Section::Tests
    } else {
        Section::Helpers
    }
}

/// The index a line number refers to, where line 0 is read as line 1.
pub open spec fn line_index(line: nat) -> int {
    if line > 0 { line - 1 } else { 0 }
}

/// A line as written, trimmed; empty past the end of the file.
pub open spec fn line_text(lines: Seq<Seq<char>>, line: nat) -> Seq<char> {
    if line_index(line) < lines.len() { trim(lines[line_index(line)]) } else { Seq::<char>::empty() }
}

pub open spec fn is_comment_line(lines: Seq<Seq<char>>, line: nat) -> bool {
    line_index(line) < lines.len() && starts_with(trim_start(lines[line_index(line)]), "//"@)
}

/// The first line of an item's block: its own first line, extended upwards
/// over the comment lines directly above it.
pub open spec fn block_start(lines: Seq<Seq<char>>, start: nat) -> nat
    decreases start,
{
    if start > 1 && is_comment_line(lines, (start - 1) as nat) {
        block_start(lines, (start - 1) as nat)
    } else {
        start
    }
}

pub open spec fn named_kind(kind: ItemKind) -> bool {
    kind == ItemKind::Const || kind == ItemKind::Enum || kind == ItemKind::Fn || kind == ItemKind::Mod
        || kind == ItemKind::Static || kind == ItemKind::Struct || kind == ItemKind::Trait
        || kind == ItemKind::Type || kind == ItemKind::Impl
}

/// The name an item sorts and reports under: its own; for an impl block the
/// type it implements; for anything else, such as an import, the line it
/// starts on, as written.
pub open spec fn item_name(lines: Seq<Seq<char>>, item: ItemOutline) -> Seq<char> {
    if named_kind(item.kind) {
        match option_text(item.name) {
            Some(n) => n,
            None => Seq::<char>::empty(),
        }
    } else {
        line_text(lines, item.first_line as nat)
    }
}

pub open spec fn test_file_item(lines: Seq<Seq<char>>, item: ItemOutline) -> TestFileItemView {
    TestFileItemView {
        section: section_of(item),
        name: item_name(lines, item),
        first_line: block_start(lines, item.first_line as nat),
        last_line: item.last_line as nat,
    }
}

/// The top-level items of an outline, as the structure rule reads them.
pub open spec fn test_items(lines: Seq<Seq<char>>, items: Seq<ItemOutline>) -> Seq<TestFileItemView>
    decreases items.len(),
{
    if items.len() == 0 {
        Seq::<TestFileItemView>::empty()
    } else if items.last().depth == 0 {
        test_items(lines, items.drop_last()).push(test_file_item(lines, items.last()))
    } else {
        test_items(lines, items.drop_last())
    }
}

pub struct TestFileParser;

impl TestFileParser {
    pub fn is_test(attrs: &Vec<AttributeOutline>) -> (b: bool)
        ensures
            b == marks_test(attrs@),
    {
        let mut i: usize = 0;
        while i < attrs.len()
            invariant
                i <= attrs.len(),
                forall|j: int| 0 <= j < i ==> option_text(#[trigger] attrs@[j].last_segment) != Some("test"@),
            decreases attrs.len() - i,
        {
            match &attrs[i].last_segment {
                Some(segment) => {
                    if same_text(segment.as_str(), "test") {
                        return true;
                    }
                },
                None => {},
            }
            i = i + 1;
        }
        false
    }

    pub fn section(item: &ItemOutline) -> (s: Section)
        ensures
            s == section_of(*item),
    {
        if item.kind == ItemKind::Use {
            Section::Imports
        } else if item.kind == ItemKind::Const || item.kind == ItemKind::Static {
            Section::Constants
        } else if item.kind == ItemKind::Fn && Self::is_test(&item.attributes) {
            Section::Tests
        } else {
            Section::Helpers
        }
    }

    /// A line as written, trimmed; empty past the end of the file.
    pub fn source_line(file: &SourceFile, line: usize) -> (r: String)
        ensures
            r@ == line_text(file@.lines, line as nat),
    {
        let lines = file.lines();
        let index = if line > 0 { line - 1 } else { 0 };
        if index < lines.len() {
            trimmed(lines[index].as_str())
        } else {
            String::new()
        }
    }

    fn is_comment(file: &SourceFile, line: usize) -> (b: bool)
        ensures
            b == is_comment_line(file@.lines, line as nat),
    {
        let lines = file.lines();
        let index = if line > 0 { line - 1 } else { 0 };
        if index < lines.len() {
            let text = trimmed_start(lines[index].as_str());
            proof {
                reveal_strlit("//");
            }
            has_prefix(text.as_str(), "//")
        } else {
            false
        }
    }

    pub fn with_leading_comments(file: &SourceFile, start_line: usize) -> (first: usize)
        ensures
            first == block_start(file@.lines, start_line as nat),
    {
        let mut first = start_line;
        while first > 1 && Self::is_comment(file, first - 1)
            invariant
                first <= start_line,
                block_start(file@.lines, start_line as nat) == block_start(file@.lines, first as nat),
            decreases first,
        {
            first = first - 1;
        }
        first
    }

    fn name(file: &SourceFile, item: &ItemOutline) -> (r: String)
        ensures
            r@ == item_name(file@.lines, *item),
    {
        let named = item.kind == ItemKind::Const || item.kind == ItemKind::Enum || item.kind == ItemKind::Fn
            || item.kind == ItemKind::Mod || item.kind == ItemKind::Static || item.kind == ItemKind::Struct
            || item.kind == ItemKind::Trait || item.kind == ItemKind::Type || item.kind == ItemKind::Impl;
        if named {
            match &item.name {
                Some(n) => n.clone(),
                None => String::new(),
            }
        } else {
            Self::source_line(file, item.first_line)
        }
    }

    fn item(file: &SourceFile, item: &ItemOutline) -> (r: TestFileItem)
        ensures
            r@ == test_file_item(file@.lines, *item),
    {
        TestFileItem::new(
            Self::section(item),
            Self::name(file, item),
            Self::with_leading_comments(file, item.first_line),
            item.last_line,
        )
    }

    /// The top-level items of an outline of the file.
    pub fn items_of(file: &SourceFile, items: &Vec<ItemOutline>) -> (r: Vec<TestFileItem>)
        ensures
            item_views(r@) == test_items(file@.lines, items@),
    {
        let mut out: Vec<TestFileItem> = Vec::new();
        let mut i: usize = 0;
        assert(items@.take(0) =~= Seq::<ItemOutline>::empty());
        assert(item_views(out@) =~= Seq::<TestFileItemView>::empty());
        while i < items.len()
            invariant
                i <= items.len(),
                item_views(out@) == test_items(file@.lines, items@.take(i as int)),
            decreases items.len() - i,
        {
            assert(items@.take(i + 1).drop_last() == items@.take(i as int));
            assert(items@.take(i + 1).last() == items@[i as int]);
            if items[i].depth == 0 {
                let made = Self::item(file, &items[i]);
                out.push(made);
                assert(item_views(out@) =~= test_items(file@.lines, items@.take(i as int)).push(made@));
            }
            i = i + 1;
        }
        assert(items@.take(items.len() as int) == items@);
        out
    }

    /// None when the file does not parse: that is rustc's to report, and
    /// guessing at a shape from broken source would pile noise on top of a
    /// compile error.
    pub fn parse(file: &SourceFile) -> (r: Option<Vec<TestFileItem>>)
        ensures
            r.is_none() <==> parse_failure(crate::syntax::parsed_text(file@.lines)).is_some(),
            r matches Some(found) ==> item_views(found@) == test_items(file@.lines, crate::syntax::syntax_outline(crate::syntax::parsed_text(file@.lines))),
    {
        let contents = file.contents();
        match outline(contents.as_str()) {
            Ok(items) => {
                let found = Self::items_of(file, &items);
                assert(item_views(found@) == test_items(file@.lines, items@));
                Some(found)
            },
            Err(_) => None,
        }
    }
}

} // verus!
