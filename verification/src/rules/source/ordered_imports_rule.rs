//! Imports in `src/` run in alphabetic order.
//!
//! A block ends where the lines stop being consecutive: a blank line or a
//! comment between two imports separates them, and the first import of a
//! block is compared with nothing. Pairs whose order rustfmt decides stand
//! down.
use vstd::prelude::*;
use crate::import_path::{rustfmt_decides, ImportPath};
use crate::offence::{all_by, lemma_all_by_push, offence_views, plain, Offence, OffenceView};
use crate::rules::source::pure_traits_rule::pure_applies;
use crate::source_file::{rejoined, SourceFile, SourceFileView};
use crate::syntax::{file_outline, parse_failure, ItemKind, ItemOutline};
use crate::test_file_parser::{line_text, TestFileParser};
use crate::text::{has_prefix, text_at_most, text_le};

verus! {

pub open spec fn ordered_rule_name() -> Seq<char> {
    "ordered-imports"@
}

/// The top-level imports, in the order written.
pub open spec fn imports(items: Seq<ItemOutline>) -> Seq<ItemOutline>
    decreases items.len(),
{
    if items.len() == 0 {
        items
    } else if items.last().depth == 0 && items.last().kind == ItemKind::Use {
        imports(items.drop_last()).push(items.last())
    } else {
        imports(items.drop_last())
    }
}

/// The second import starts on the line after the first ends.
pub open spec fn follows(previous: ItemOutline, import: ItemOutline) -> bool {
    import.first_line == previous.last_line + 1
}

pub open spec fn order_offence(file: SourceFileView, previous: Seq<char>, import: Seq<char>, line: nat) -> OffenceView {
    plain(
        file.path,
        line,
        ordered_rule_name(),
        "`"@ + import + "` is out of alphabetic order; it follows `"@ + previous + "`"@,
        "move `"@ + import + "` above `"@ + previous + "`"@,
    ).about(import)
}

pub open spec fn pair_offence(file: SourceFileView, previous: ItemOutline, import: ItemOutline) -> Option<OffenceView> {
    let before = line_text(file.lines, previous.first_line as nat);
    let text = line_text(file.lines, import.first_line as nat);
    if !follows(previous, import) || rustfmt_decides(before, text) || text_le(before, text) {
        None
    } else {
        Some(order_offence(file, before, text, import.first_line as nat))
    }
}

pub open spec fn pair_offences(file: SourceFileView, imports: Seq<ItemOutline>) -> Seq<OffenceView>
    decreases imports.len(),
{
    if imports.len() < 2 {
        Seq::<OffenceView>::empty()
    } else {
        let earlier = pair_offences(file, imports.drop_last());
        match pair_offence(file, imports[imports.len() - 2], imports.last()) {
            Some(o) => earlier.push(o),
            None => earlier,
        }
    }
}

pub open spec fn ordered_offences(file: SourceFileView, items: Seq<ItemOutline>) -> Seq<OffenceView> {
    pair_offences(file, imports(items))
}

/// A blank line or a comment between two imports ends a block: an import is
/// only ever reported where it starts on the line right after the import
/// before it ends, and it is reported on its own first line.
pub proof fn law_only_touching_imports_are_compared(file: SourceFileView, imports: Seq<ItemOutline>)
    ensures
        forall|j: int|
            0 <= j < pair_offences(file, imports).len() ==> exists|k: int|
                #![trigger imports[k]]
                1 <= k < imports.len() && imports[k].first_line == imports[k - 1].last_line + 1
                    && (#[trigger] pair_offences(file, imports)[j]).line == imports[k].first_line,
    decreases imports.len(),
{
    if imports.len() >= 2 {
        let rest = imports.drop_last();
        law_only_touching_imports_are_compared(file, rest);
        let earlier = pair_offences(file, rest);
        let all = pair_offences(file, imports);
        let last = imports.len() - 1;
        assert forall|j: int| 0 <= j < all.len() implies exists|k: int|
            #![trigger imports[k]]
            1 <= k < imports.len() && imports[k].first_line == imports[k - 1].last_line + 1 && (#[trigger] all[j]).line
                == imports[k].first_line by {
            if j < earlier.len() {
                assert(all[j] == earlier[j]);
                let k = choose|k: int|
                    #![trigger rest[k]]
                    1 <= k < rest.len() && rest[k].first_line == rest[k - 1].last_line + 1 && earlier[j].line
                        == rest[k].first_line;
                assert(rest[k] == imports[k] && rest[k - 1] == imports[k - 1]);
            } else {
                assert(imports[last - 1] == imports[imports.len() - 2]);
                assert(imports[last] == imports.last());
            }
        }
    }
}

/// Imports none of which starts right after the one before it ends are never
/// reported, whatever their order.
pub proof fn law_separated_imports_are_never_reported(file: SourceFileView, imports: Seq<ItemOutline>)
    requires
        forall|k: int| 1 <= k < imports.len() ==> #[trigger] imports[k].first_line != imports[k - 1].last_line + 1,
    ensures
        pair_offences(file, imports).len() == 0,
{
    law_only_touching_imports_are_compared(file, imports);
    if pair_offences(file, imports).len() > 0 {
        let k = choose|k: int|
            #![trigger imports[k]]
            1 <= k < imports.len() && imports[k].first_line == imports[k - 1].last_line + 1
                && pair_offences(file, imports)[0].line == imports[k].first_line;
        assert(imports[k].first_line != imports[k - 1].last_line + 1);
    }
}

/// Every offence the rule finds is reported under its name.
pub proof fn lemma_ordered_by_rule(file: SourceFileView, imports: Seq<ItemOutline>)
    ensures
        all_by(pair_offences(file, imports), ordered_rule_name()),
    decreases imports.len(),
{
    if imports.len() >= 2 {
        lemma_ordered_by_rule(file, imports.drop_last());
        match pair_offence(file, imports[imports.len() - 2], imports.last()) {
            Some(o) => lemma_all_by_push(pair_offences(file, imports.drop_last()), o, ordered_rule_name()),
            None => {},
        }
    }
}

pub struct OrderedImportsRule;

impl OrderedImportsRule {
    pub const SOURCE_ROOT: &'static str = "src/";

    pub fn new() -> (r: OrderedImportsRule) {
        OrderedImportsRule
    }

    pub fn name(&self) -> (r: &'static str)
        ensures
            r@ == ordered_rule_name(),
    {
        "ordered-imports"
    }

    pub fn applies_to(file: &SourceFile) -> (b: bool)
        ensures
            b == pure_applies(file@.path),
    {
        has_prefix(file.relative_path(), Self::SOURCE_ROOT)
    }

    fn imports(items: &Vec<ItemOutline>) -> (r: Vec<usize>)
        ensures
            r@.map_values(|i: usize| items@[i as int]) == imports(items@),
            forall|k: int| 0 <= k < r@.len() ==> r@[k] < items@.len(),
    {
        let mut out: Vec<usize> = Vec::new();
        let mut i: usize = 0;
        assert(items@.take(0) =~= Seq::<ItemOutline>::empty());
        assert(out@.map_values(|i: usize| items@[i as int]) =~= imports(items@.take(0)));
        while i < items.len()
            invariant
                i <= items.len(),
                out@.map_values(|i: usize| items@[i as int]) == imports(items@.take(i as int)),
                forall|k: int| 0 <= k < out@.len() ==> out@[k] < items@.len(),
            decreases items.len() - i,
        {
            assert(items@.take(i + 1).drop_last() == items@.take(i as int));
            assert(items@.take(i + 1).last() == items@[i as int]);
            if items[i].depth == 0 && items[i].kind == ItemKind::Use {
                let ghost before = out@;
                out.push(i);
                assert(out@.map_values(|i: usize| items@[i as int]) =~= before.map_values(|i: usize| items@[i as int]).push(items@[i as int]));
            }
            i = i + 1;
        }
        assert(items@.take(items.len() as int) == items@);
        out
    }

    /// Consecutive lines, so a blank line or a comment between two imports
    /// ends the block.
    fn follows(previous: &ItemOutline, import: &ItemOutline) -> (b: bool)
        ensures
            b == follows(*previous, *import),
    {
        import.first_line > 0 && import.first_line - 1 == previous.last_line
    }

    fn offence(&self, file: &SourceFile, previous: &str, import: &str, line: usize) -> (o: Offence)
        ensures
            o@ == order_offence(file@, previous@, import@, line as nat),
    {
        let mut description = String::from_str("`");
        description.append(import);
        description.append("` is out of alphabetic order; it follows `");
        description.append(previous);
        description.append("`");
        let mut correction = String::from_str("move `");
        correction.append(import);
        correction.append("` above `");
        correction.append(previous);
        correction.append("`");
        Offence::new(file.relative_path(), line, self.name(), description, correction).with_subject(import)
    }

    pub fn check_outline(&self, file: &SourceFile, items: &Vec<ItemOutline>) -> (r: Vec<Offence>)
        ensures
            offence_views(r@) == ordered_offences(file@, items@),
    {
        let found = Self::imports(items);
        let ghost list = imports(items@);
        let mut out: Vec<Offence> = Vec::new();
        if found.len() < 2 {
            assert(offence_views(out@) =~= ordered_offences(file@, items@));
            return out;
        }
        let mut k: usize = 1;
        assert(list.take(1).len() < 2);
        assert(offence_views(out@) =~= pair_offences(file@, list.take(1)));
        while k < found.len()
            invariant
                1 <= k <= found.len(),
                list == imports(items@),
                found@.map_values(|i: usize| items@[i as int]) == list,
                forall|m: int| 0 <= m < found@.len() ==> found@[m] < items@.len(),
                offence_views(out@) == pair_offences(file@, list.take(k as int)),
            decreases found.len() - k,
        {
            let previous = &items[found[k - 1]];
            let import = &items[found[k]];
            assert(*previous == list[k - 1]);
            assert(*import == list[k as int]);
            assert(list.take(k + 1).drop_last() == list.take(k as int));
            assert(list.take(k + 1)[k - 1] == list[k - 1]);
            if Self::follows(previous, import) {
                let before = TestFileParser::source_line(file, previous.first_line);
                let text = TestFileParser::source_line(file, import.first_line);
                if !ImportPath::decides_order(before.as_str(), text.as_str())
                    && !text_at_most(before.as_str(), text.as_str()) {
                    let o = self.offence(file, before.as_str(), text.as_str(), import.first_line);
                    let ghost earlier = offence_views(out@);
                    out.push(o);
                    assert(offence_views(out@) =~= earlier.push(o@));
                }
            }
            k = k + 1;
        }
        assert(list.take(found.len() as int) == list);
        out
    }

    pub fn check(&self, file: &SourceFile) -> (r: Vec<Offence>)
        ensures
            !pure_applies(file@.path) ==> r@.len() == 0,
            parse_failure(crate::syntax::parsed_text(file@.lines)).is_some() ==> r@.len() == 0,
            pure_applies(file@.path) && parse_failure(crate::syntax::parsed_text(file@.lines)).is_none()
                ==> offence_views(r@) == ordered_offences(file@, crate::syntax::syntax_outline(crate::syntax::parsed_text(file@.lines))),
    {
        if !Self::applies_to(file) {
            return Vec::new();
        }
        match file_outline(file) {
            Some(items) => self.check_outline(file, &items),
            None => Vec::new(),
        }
    }
}

} // verus!
