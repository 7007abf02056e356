//! A test file put back into the order the structure rule asks for.
//!
//! The rewriter never looks at the text of an item: the parser says where each
//! item begins and ends, and whole line ranges are moved without being read,
//! so a string literal holding something that looks like Rust is carried along
//! like any other line. Grouping by section fixes the section order in the
//! same pass. Imports are moved as a block but keep the order they were
//! written in: ordering them is rustfmt's business.
use vstd::prelude::*;
use crate::rules::test_file_structure_rule::{structure_applies, TestFileStructureRule};
use crate::section::{blank_lines_between, Section};
use crate::rewrite_lines::{
    items_tile, keeps_lines, law_a_rewrite_keeps_the_files_lines, law_a_rewrite_only_moves_whole_lines, made_of_lines,
};
use crate::settings::header_source::without_trailing_blanks;
use crate::source_file::{rejoined, SourceFile, SourceFileView};
use crate::syntax::{parse_failure, ItemOutline};
use crate::test_file_item::{item_views, TestFileItem, TestFileItemView};
use crate::test_file_parser::{test_items, TestFileParser};
use crate::text::{
    is_blank, is_blank_text, join, join_texts, lemma_views_push, lowercase, text_at_most, text_le,
    views,
};

verus! {

pub open spec fn sat_dec(n: nat) -> nat {
    if n > 0 { (n - 1) as nat } else { 0 }
}

/// The lines an item occupies, joined back with `\n`.
pub open spec fn block_text(lines: Seq<Seq<char>>, item: TestFileItemView) -> Seq<char> {
    let start = sat_dec(item.first_line);
    let count: nat = if item.last_line + 1 >= item.first_line { (item.last_line + 1 - item.first_line) as nat } else { 0 };
    if start >= lines.len() {
        Seq::<char>::empty()
    } else {
        let rest = lines.skip(start as int);
        join(rest.take(if count < rest.len() { count as int } else { rest.len() as int }), "\n"@)
    }
}

pub open spec fn members_of(items: Seq<TestFileItemView>, section: Section) -> Seq<TestFileItemView>
    decreases items.len(),
{
    if items.len() == 0 {
        items
    } else if items.last().section == section {
        members_of(items.drop_last(), section).push(items.last())
    } else {
        members_of(items.drop_last(), section)
    }
}

pub open spec fn key_no_later(a: TestFileItemView, b: TestFileItemView) -> bool {
    text_le(lowercase(a.name), lowercase(b.name))
}

pub open spec fn place_by_key(sorted: Seq<TestFileItemView>, item: TestFileItemView) -> nat
    decreases sorted.len(),
{
    if sorted.len() > 0 && key_no_later(sorted[0], item) {
        1 + place_by_key(sorted.drop_first(), item)
    } else {
        0
    }
}

/// The items sorted by their lower-cased names, ties in the order written.
pub open spec fn sorted_by_key(items: Seq<TestFileItemView>) -> Seq<TestFileItemView>
    decreases items.len(),
{
    if items.len() == 0 {
        items
    } else {
        let sorted = sorted_by_key(items.drop_last());
        sorted.insert(place_by_key(sorted, items.last()) as int, items.last())
    }
}

/// A section's items in the order the rewriter writes them.
pub open spec fn section_members(items: Seq<TestFileItemView>, section: Section) -> Seq<TestFileItemView> {
    if section == Section::Imports {
        members_of(items, section)
    } else {
        sorted_by_key(members_of(items, section))
    }
}

pub open spec fn newlines(n: nat) -> Seq<char>
    decreases n,
{
    if n == 0 { Seq::<char>::empty() } else { newlines((n - 1) as nat).push('\n') }
}

pub open spec fn blocks(lines: Seq<Seq<char>>, items: Seq<TestFileItemView>) -> Seq<Seq<char>> {
    items.map_values(|item: TestFileItemView| block_text(lines, item))
}

/// The chunk one section contributes: its blocks, separated by the section's
/// own spacing.
pub open spec fn chunk(lines: Seq<Seq<char>>, items: Seq<TestFileItemView>, section: Section) -> Seq<char> {
    join(blocks(lines, section_members(items, section)), newlines(blank_lines_between(section) + 1))
}

pub open spec fn section_order() -> Seq<Section> {
    seq![Section::Imports, Section::Constants, Section::Helpers, Section::Tests]
}

/// The chunks of the sections that have items, in section order.
pub open spec fn chunks_upto(lines: Seq<Seq<char>>, items: Seq<TestFileItemView>, n: nat) -> Seq<Seq<char>>
    decreases n,
{
    if n == 0 {
        Seq::<Seq<char>>::empty()
    } else {
        let section = section_order()[n - 1];
        let earlier = chunks_upto(lines, items, (n - 1) as nat);
        if members_of(items, section).len() > 0 {
            earlier.push(chunk(lines, items, section))
        } else {
            earlier
        }
    }
}

pub open spec fn first_line_of(items: Seq<TestFileItemView>) -> nat
    decreases items.len(),
{
    if items.len() == 0 {
        1
    } else if items.len() == 1 {
        items[0].first_line
    } else {
        let rest = first_line_of(items.drop_last());
        if items.last().first_line < rest { items.last().first_line } else { rest }
    }
}

pub open spec fn last_line_of(items: Seq<TestFileItemView>) -> nat
    decreases items.len(),
{
    if items.len() == 0 {
        0
    } else {
        let rest = last_line_of(items.drop_last());
        if items.last().last_line > rest { items.last().last_line } else { rest }
    }
}

pub open spec fn without_leading_blanks(lines: Seq<Seq<char>>) -> Seq<Seq<char>>
    decreases lines.len(),
{
    if lines.len() > 0 && is_blank(lines[0]) {
        without_leading_blanks(lines.drop_first())
    } else {
        lines
    }
}

/// Everything above the first item, trailing blank lines dropped, followed by
/// one blank line; nothing where that leaves nothing.
pub open spec fn preamble_text(lines: Seq<Seq<char>>, items: Seq<TestFileItemView>) -> Seq<char> {
    let keep = sat_dec(first_line_of(items));
    let kept = lines.take(if keep < lines.len() { keep as int } else { lines.len() as int });
    let trimmed = without_trailing_blanks(kept);
    if trimmed.len() == 0 { Seq::<char>::empty() } else { join(trimmed, "\n"@) + "\n\n"@ }
}

/// Everything below the last item, blank lines dropped from both ends and
/// ending in one newline; nothing where that leaves nothing.
pub open spec fn tail_text(lines: Seq<Seq<char>>, items: Seq<TestFileItemView>) -> Seq<char> {
    let last = last_line_of(items);
    let rest = if last < lines.len() { lines.skip(last as int) } else { Seq::<Seq<char>>::empty() };
    let trimmed = without_trailing_blanks(without_leading_blanks(rest));
    if trimmed.len() == 0 { Seq::<char>::empty() } else { join(trimmed, "\n"@) + "\n"@ }
}

/// The file reassembled: its preamble, the sections' chunks separated by a
/// blank line, a closing newline, and whatever followed the last item.
pub open spec fn assembled(lines: Seq<Seq<char>>, items: Seq<TestFileItemView>) -> Seq<char> {
    let tail = tail_text(lines, items);
    preamble_text(lines, items) + join(chunks_upto(lines, items, 4), "\n\n"@) + "\n"@
        + if tail.len() == 0 { Seq::<char>::empty() } else { "\n"@ + tail }
}

/// What the rewriter does with a file it governs and that parses into the
/// given items: nothing where there are no items or nothing would change.
pub open spec fn rewritten(file: SourceFileView, items: Seq<TestFileItemView>) -> Option<Seq<char>> {
    if items.len() == 0 || assembled(file.lines, items) == rejoined(file.lines) {
        None
    } else {
        Some(assembled(file.lines, items))
    }
}

/// What the rewriter owes a file: nothing where the structure rule does not
/// govern it or it does not parse, and otherwise the rewrite of the outline
/// `syn` gives of it.
pub open spec fn owed_rewrite(file: SourceFileView) -> Option<Seq<char>> {
    if structure_applies(file.path) && parse_failure(crate::syntax::parsed_text(file.lines)).is_none() {
        rewritten(file, test_items(file.lines, crate::syntax::file_syntax(file)))
    } else {
        None
    }
}

pub open spec fn text_of(o: Option<String>) -> Option<Seq<char>> {
    match o {
        Some(s) => Some(s@),
        None => None,
    }
}

pub struct TestFileRewriter;

impl TestFileRewriter {
    /// Only the files the structure rule governs are ever touched.
    fn governs(file: &SourceFile) -> (b: bool)
        ensures
            b == structure_applies(file@.path),
    {
        TestFileStructureRule::applies_to(file)
    }

    fn block(file: &SourceFile, item: &TestFileItem) -> (r: String)
        ensures
            r@ == block_text(file@.lines, item@),
    {
        let lines = file.lines();
        let start: usize = if item.first_line > 0 { item.first_line - 1 } else { 0 };
        let count: usize = if item.last_line >= item.first_line {
            if item.last_line - item.first_line < usize::MAX { item.last_line - item.first_line + 1 } else { usize::MAX }
        } else if item.last_line + 1 == item.first_line {
            0
        } else {
            0
        };
        proof {
            reveal_strlit("\n");
        }
        if start >= lines.len() {
            let empty: Vec<String> = Vec::new();
            let r = join_texts(&empty, "\n");
            assert(views(empty@) =~= Seq::<Seq<char>>::empty());
            return r;
        }
        let ghost rest = file@.lines.skip(start as int);
        let available = lines.len() - start;
        let n = if count < available { count } else { available };
        let mut taken: Vec<String> = Vec::new();
        let mut k: usize = 0;
        while k < n
            invariant
                k <= n,
                n <= available,
                available == lines.len() - start,
                start < lines.len(),
                views(lines@) == file@.lines,
                rest == file@.lines.skip(start as int),
                views(taken@) == rest.take(k as int),
            decreases n - k,
        {
            let c = lines[start + k].clone();
            proof {
                lemma_views_push(taken@, c);
            }
            taken.push(c);
            k = k + 1;
            assert(views(taken@) =~= rest.take(k as int));
        }
        proof {
            let wanted: nat = if item@.last_line + 1 >= item@.first_line { (item@.last_line + 1 - item@.first_line) as nat } else { 0 };
            assert(wanted == count || (wanted > usize::MAX && count == usize::MAX));
        }
        join_texts(&taken, "\n")
    }

    fn members(items: &Vec<TestFileItem>, section: Section) -> (r: Vec<TestFileItem>)
        ensures
            item_views(r@) == members_of(item_views(items@), section),
    {
        let mut out: Vec<TestFileItem> = Vec::new();
        let ghost all = item_views(items@);
        let mut i: usize = 0;
        assert(all.take(0) =~= Seq::<TestFileItemView>::empty());
        assert(item_views(out@) =~= members_of(all.take(0), section));
        while i < items.len()
            invariant
                i <= items.len(),
                all == item_views(items@),
                item_views(out@) == members_of(all.take(i as int), section),
            decreases items.len() - i,
        {
            assert(all.take(i + 1).drop_last() == all.take(i as int));
            assert(all.take(i + 1).last() == items@[i as int]@);
            if items[i].section == section {
                let c = items[i].copied();
                out.push(c);
                assert(item_views(out@) =~= members_of(all.take(i as int), section).push(c@));
            }
            i = i + 1;
        }
        assert(all.take(items.len() as int) == all);
        out
    }

    fn key_no_later(a: &TestFileItem, b: &TestFileItem) -> (r: bool)
        ensures
            r == key_no_later(a@, b@),
    {
        text_at_most(a.sort_key().as_str(), b.sort_key().as_str())
    }

    fn sorted(items: Vec<TestFileItem>) -> (r: Vec<TestFileItem>)
        ensures
            item_views(r@) == sorted_by_key(item_views(items@)),
    {
        let mut sorted: Vec<TestFileItem> = Vec::new();
        let ghost all = item_views(items@);
        let mut i: usize = 0;
        assert(all.take(0) =~= Seq::<TestFileItemView>::empty());
        assert(item_views(sorted@) =~= sorted_by_key(all.take(0)));
        while i < items.len()
            invariant
                i <= items.len(),
                all == item_views(items@),
                item_views(sorted@) == sorted_by_key(all.take(i as int)),
            decreases items.len() - i,
        {
            let ghost before = item_views(sorted@);
            assert(all.take(i + 1).drop_last() == all.take(i as int));
            assert(all.take(i + 1).last() == items@[i as int]@);
            let mut p: usize = 0;
            assert(before.skip(0) == before);
            while p < sorted.len() && Self::key_no_later(&sorted[p], &items[i])
                invariant
                    i < items.len(),
                    p <= sorted.len(),
                    before == item_views(sorted@),
                    place_by_key(before, items@[i as int]@) == p + place_by_key(before.skip(p as int), items@[i as int]@),
                decreases sorted.len() - p,
            {
                assert(before.skip(p as int)[0] == sorted@[p as int]@);
                assert(before.skip(p as int).drop_first() == before.skip(p + 1));
                p = p + 1;
            }
            proof {
                if p < sorted.len() {
                    assert(before.skip(p as int)[0] == sorted@[p as int]@);
                }
            }
            let c = items[i].copied();
            sorted.insert(p, c);
            assert(item_views(sorted@) =~= before.insert(p as int, c@));
            i = i + 1;
        }
        assert(all.take(items.len() as int) == all);
        sorted
    }

    fn section_members(items: &Vec<TestFileItem>, section: Section) -> (r: Vec<TestFileItem>)
        ensures
            item_views(r@) == section_members(item_views(items@), section),
    {
        let members = Self::members(items, section);
        if section == Section::Imports {
            members
        } else {
            Self::sorted(members)
        }
    }

    fn chunk(file: &SourceFile, items: &Vec<TestFileItem>, section: Section) -> (r: String)
        ensures
            r@ == chunk(file@.lines, item_views(items@), section),
    {
        let members = Self::section_members(items, section);
        let ghost ordered = item_views(members@);
        let mut texts: Vec<String> = Vec::new();
        let mut i: usize = 0;
        while i < members.len()
            invariant
                i <= members.len(),
                ordered == item_views(members@),
                views(texts@) == blocks(file@.lines, ordered).take(i as int),
            decreases members.len() - i,
        {
            let b = Self::block(file, &members[i]);
            proof {
                lemma_views_push(texts@, b);
            }
            texts.push(b);
            i = i + 1;
            assert(views(texts@) =~= blocks(file@.lines, ordered).take(i as int));
        }
        assert(blocks(file@.lines, ordered).take(members.len() as int) == blocks(file@.lines, ordered));
        let gap = if section.blank_lines_between_entries() == 0 { "\n" } else { "\n\n" };
        proof {
            reveal_strlit("\n");
            reveal_strlit("\n\n");
            assert(newlines(0) == Seq::<char>::empty());
            assert(newlines(1) == newlines(0).push('\n'));
            assert(newlines(2) == newlines(1).push('\n'));
            assert(newlines(1) =~= "\n"@);
            assert(newlines(2) =~= "\n\n"@);
        }
        join_texts(&texts, gap)
    }

    fn chunks(file: &SourceFile, items: &Vec<TestFileItem>) -> (r: Vec<String>)
        ensures
            views(r@) == chunks_upto(file@.lines, item_views(items@), 4),
    {
        let order = [Section::Imports, Section::Constants, Section::Helpers, Section::Tests];
        let mut out: Vec<String> = Vec::new();
        let mut k: usize = 0;
        assert(views(out@) =~= chunks_upto(file@.lines, item_views(items@), 0));
        while k < 4
            invariant
                k <= 4,
                order@ == section_order(),
                views(out@) == chunks_upto(file@.lines, item_views(items@), k as nat),
            decreases 4 - k,
        {
            let section = order[k];
            let members = Self::members(items, section);
            if members.len() > 0 {
                let c = Self::chunk(file, items, section);
                proof {
                    lemma_views_push(out@, c);
                }
                out.push(c);
            }
            k = k + 1;
        }
        out
    }

    fn first_line(items: &Vec<TestFileItem>) -> (r: usize)
        ensures
            r == first_line_of(item_views(items@)),
    {
        let ghost all = item_views(items@);
        if items.len() == 0 {
            return 1;
        }
        let mut best = items[0].first_line;
        let mut i: usize = 1;
        assert(all.take(1).drop_last().len() == 0);
        assert(all.take(1)[0] == all[0]);
        while i < items.len()
            invariant
                1 <= i <= items.len(),
                all == item_views(items@),
                best == first_line_of(all.take(i as int)),
            decreases items.len() - i,
        {
            assert(all.take(i + 1).drop_last() == all.take(i as int));
            assert(all.take(i + 1).last() == items@[i as int]@);
            if items[i].first_line < best {
                best = items[i].first_line;
            }
            i = i + 1;
        }
        assert(all.take(items.len() as int) == all);
        best
    }

    fn last_line(items: &Vec<TestFileItem>) -> (r: usize)
        ensures
            r == last_line_of(item_views(items@)),
    {
        let ghost all = item_views(items@);
        let mut best: usize = 0;
        let mut i: usize = 0;
        assert(all.take(0) =~= Seq::<TestFileItemView>::empty());
        while i < items.len()
            invariant
                i <= items.len(),
                all == item_views(items@),
                best == last_line_of(all.take(i as int)),
            decreases items.len() - i,
        {
            assert(all.take(i + 1).drop_last() == all.take(i as int));
            assert(all.take(i + 1).last() == items@[i as int]@);
            if items[i].last_line > best {
                best = items[i].last_line;
            }
            i = i + 1;
        }
        assert(all.take(items.len() as int) == all);
        best
    }

    /// The lines from `start` up to `end`, trailing blank lines dropped, and
    /// leading ones too where asked.
    fn trimmed_range(lines: &Vec<String>, start: usize, end: usize, leading: bool) -> (r: Vec<String>)
        requires
            start <= end <= lines.len(),
        ensures
            leading ==> views(r@) == without_trailing_blanks(without_leading_blanks(views(lines@).subrange(start as int, end as int))),
            !leading ==> views(r@) == without_trailing_blanks(views(lines@).subrange(start as int, end as int)),
    {
        let ghost range = views(lines@).subrange(start as int, end as int);
        let mut first = start;
        assert(range.skip(0) == range);
        while first < end && leading && is_blank_text(lines[first].as_str())
            invariant
                start <= first <= end,
                first > start ==> leading,
                end <= lines.len(),
                range == views(lines@).subrange(start as int, end as int),
                without_leading_blanks(range) == without_leading_blanks(range.skip(first - start)),
            decreases end - first,
        {
            assert(range.skip(first - start)[0] == lines@[first as int]@);
            assert(range.skip(first - start).drop_first() == range.skip(first + 1 - start));
            first = first + 1;
        }
        proof {
            if leading && first < end {
                assert(range.skip(first - start)[0] == lines@[first as int]@);
            }
        }
        let ghost inner = range.skip(first - start);
        assert(leading ==> without_leading_blanks(range) == inner);
        assert(!leading ==> range == inner);
        let mut last = end;
        assert(inner.take(last - first) =~= inner);
        while last > first && is_blank_text(lines[last - 1].as_str())
            invariant
                first <= last <= end,
                end <= lines.len(),
                start <= first,
                inner == views(lines@).subrange(first as int, end as int),
                without_trailing_blanks(inner) == without_trailing_blanks(inner.take(last - first)),
            decreases last,
        {
            assert(inner.take(last - first).last() == lines@[last - 1]@);
            assert(inner.take(last - first).drop_last() == inner.take(last - 1 - first));
            last = last - 1;
        }
        proof {
            if last > first {
                assert(inner.take(last - first).last() == lines@[last - 1]@);
            }
        }
        let mut out: Vec<String> = Vec::new();
        let mut k = first;
        while k < last
            invariant
                first <= k <= last,
                last <= lines.len(),
                views(out@) == views(lines@).subrange(first as int, k as int),
            decreases last - k,
        {
            let c = lines[k].clone();
            proof {
                lemma_views_push(out@, c);
            }
            out.push(c);
            k = k + 1;
            assert(views(out@) =~= views(lines@).subrange(first as int, k as int));
        }
        assert(inner.take(last - first) =~= views(lines@).subrange(first as int, last as int));
        out
    }

    fn preamble(file: &SourceFile, items: &Vec<TestFileItem>) -> (r: String)
        ensures
            r@ == preamble_text(file@.lines, item_views(items@)),
    {
        let lines = file.lines();
        let first = Self::first_line(items);
        let keep: usize = if first > 0 { first - 1 } else { 0 };
        let end = if keep < lines.len() { keep } else { lines.len() };
        let kept = Self::trimmed_range(lines, 0, end, false);
        proof {
            let range = views(lines@).subrange(0, end as int);
            assert(range =~= file@.lines.take(end as int));
        }
        if kept.len() == 0 {
            return String::new();
        }
        let mut r = join_texts(&kept, "\n");
        r.append("\n\n");
        r
    }

    fn tail(file: &SourceFile, items: &Vec<TestFileItem>) -> (r: String)
        ensures
            r@ == tail_text(file@.lines, item_views(items@)),
    {
        let lines = file.lines();
        let last = Self::last_line(items);
        let start = if last < lines.len() { last } else { lines.len() };
        let kept = Self::trimmed_range(lines, start, lines.len(), true);
        proof {
            let range = views(lines@).subrange(start as int, lines.len() as int);
            if last < lines.len() {
                assert(range =~= file@.lines.skip(last as int));
            } else {
                assert(range =~= Seq::<Seq<char>>::empty());
            }
        }
        if kept.len() == 0 {
            return String::new();
        }
        let mut r = join_texts(&kept, "\n");
        r.append("\n");
        r
    }

    fn assemble(file: &SourceFile, items: &Vec<TestFileItem>) -> (r: String)
        ensures
            r@ == assembled(file@.lines, item_views(items@)),
    {
        let chunks = Self::chunks(file, items);
        let mut out = Self::preamble(file, items);
        out.append(join_texts(&chunks, "\n\n").as_str());
        out.append("\n");
        let tail = Self::tail(file, items);
        if tail.as_str().unicode_len() != 0 {
            out.append("\n");
            out.append(tail.as_str());
        }
        proof {
            reveal_strlit("\n");
        }
        assert(tail@.len() == 0 ==> out@ =~= assembled(file@.lines, item_views(items@)));
        out
    }

    /// The file as parsed into these items, put back in order: none where
    /// there is nothing to do or nothing would change.
    pub fn rewrite_items(file: &SourceFile, items: &Vec<TestFileItem>) -> (r: Option<String>)
        ensures
            text_of(r) == rewritten(file@, item_views(items@)),
            items_tile(file@.lines, item_views(items@)) ==> (r matches Some(t) ==> keeps_lines(t@, file@.lines)),
    {
        if items.len() == 0 {
            return None;
        }
        let rewritten = Self::assemble(file, items);
        let contents = file.contents();
        proof {
            if items_tile(file@.lines, item_views(items@)) {
                assert forall|x: Seq<char>| !is_blank(x) implies #[trigger] crate::rewrite_lines::line_count(
                    rewritten@,
                    x,
                ) == crate::rewrite_lines::occurrences_of(file@.lines, x) by {
                    law_a_rewrite_keeps_the_files_lines(file@, item_views(items@), x);
                }
            }
        }
        if rewritten == contents {
            None
        } else {
            Some(rewritten)
        }
    }

    /// None when the file is not this rewriter's to touch, does not parse,
    /// holds no items, or is already correct.
    pub fn rewrite(file: &SourceFile) -> (r: Option<String>)
        ensures
            !structure_applies(file@.path) ==> r.is_none(),
            parse_failure(crate::syntax::parsed_text(file@.lines)).is_some() ==> r.is_none(),
            structure_applies(file@.path) && parse_failure(crate::syntax::parsed_text(file@.lines)).is_none()
                ==> text_of(r) == rewritten(file@, test_items(file@.lines, crate::syntax::syntax_outline(crate::syntax::parsed_text(file@.lines)))),
            r matches Some(t) ==> made_of_lines(t@, file@.lines),
            structure_applies(file@.path) && parse_failure(crate::syntax::parsed_text(file@.lines)).is_none()
                && items_tile(file@.lines, test_items(file@.lines, crate::syntax::file_syntax(file@)))
                ==> (r matches Some(t) ==> keeps_lines(t@, file@.lines)),
            text_of(r) == owed_rewrite(file@),
    {
        if !Self::governs(file) {
            return None;
        }
        match TestFileParser::parse(file) {
            Some(items) => {
                let r = Self::rewrite_items(file, &items);
                proof {
                    law_a_rewrite_only_moves_whole_lines(file@, item_views(items@));
                }
                r
            },
            None => None,
        }
    }
}

} // verus!
