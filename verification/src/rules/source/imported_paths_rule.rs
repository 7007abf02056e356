//! A function is called through a name this file imported, not through a path.
//!
//! `use` items are a file's list of dependencies. A path written out at the
//! call site is a dependency that never appears on that list. One imported
//! segment is allowed and is the point: `use std::fs;` then `fs::read(..)`
//! names the route once and still says where the function came from. A call
//! through a type's name, such as `Vec::new()`, names no route and is not a
//! path in this sense.
use vstd::prelude::*;
use crate::rule_explanation::RuleExplanation;
use crate::offence::{all_by, lemma_all_by_concat, lemma_all_by_push, offence_views, plain, Offence, OffenceView};
use crate::rules::source::single_implemented_type_rule::is_upper;
use crate::source_file::{rejoined, SourceFile, SourceFileView};
use crate::syntax::{file_outline, parse_failure, CallOutline, ItemKind, ItemOutline};
use crate::text::{contains_text, extend_texts, join, join_texts, views};
use crate::token_finder::copy_texts;

verus! {

pub open spec fn imported_paths_rule_name() -> Seq<char> {
    "imported-paths"@
}

/// Every name the file's `use` items bring into scope, in order.
pub open spec fn imported_names(items: Seq<ItemOutline>) -> Seq<Seq<char>>
    decreases items.len(),
{
    if items.len() == 0 {
        Seq::<Seq<char>>::empty()
    } else if items.last().kind == ItemKind::Use {
        imported_names(items.drop_last()) + views(items.last().imports@)
    } else {
        imported_names(items.drop_last())
    }
}

/// A segment that names a type, whose associated functions are reached
/// through the type rather than a route.
pub open spec fn is_type_name(segment: Seq<char>) -> bool {
    segment.len() > 0 && is_upper(segment[0])
}

pub open spec fn reached_through_path(call: CallOutline, imported: Seq<Seq<char>>) -> bool {
    call.path@.len() >= 2 && !imported.contains(call.path@[0]@) && !is_type_name(call.path@[0]@)
}

pub open spec fn call_path(call: CallOutline) -> Seq<char> {
    join(views(call.path@), "::"@)
}

/// What to import: the module the function sits in where the path names one,
/// else the function itself.
pub open spec fn import_of(call: CallOutline) -> Seq<char> {
    if call.path@.len() >= 3 { join(views(call.path@).drop_last(), "::"@) } else { call_path(call) }
}

/// How the call reads once the import is in place: through its module where
/// the path names one, else by the function's bare name.
pub open spec fn call_of(call: CallOutline) -> Seq<char> {
    let n = call.path@.len();
    if n >= 3 { call.path@[n - 2]@ + "::"@ + call.path@[n - 1]@ } else { call.path@.last()@ }
}

pub open spec fn path_offence(file: SourceFileView, call: CallOutline) -> OffenceView {
    plain(
        file.path,
        call.line as nat,
        imported_paths_rule_name(),
        "`"@ + call_path(call) + "` is reached through a path; no import of this file names it"@,
        "add `use "@ + import_of(call) + ";` and call `"@ + call_of(call) + "`"@,
    ).about(call_path(call))
}

pub open spec fn call_offences(file: SourceFileView, calls: Seq<CallOutline>, imported: Seq<Seq<char>>) -> Seq<OffenceView>
    decreases calls.len(),
{
    if calls.len() == 0 {
        Seq::<OffenceView>::empty()
    } else if reached_through_path(calls.last(), imported) {
        call_offences(file, calls.drop_last(), imported).push(path_offence(file, calls.last()))
    } else {
        call_offences(file, calls.drop_last(), imported)
    }
}

/// The calls reached through a path, item by item.
pub open spec fn imported_paths_offences(file: SourceFileView, items: Seq<ItemOutline>, imported: Seq<Seq<char>>) -> Seq<OffenceView>
    decreases items.len(),
{
    if items.len() == 0 {
        Seq::<OffenceView>::empty()
    } else {
        imported_paths_offences(file, items.drop_last(), imported) + call_offences(file, items.last().calls@, imported)
    }
}

/// Every offence the rule finds is reported under its name.
pub proof fn lemma_imported_paths_by_rule(file: SourceFileView, items: Seq<ItemOutline>, imported: Seq<Seq<char>>)
    ensures
        all_by(imported_paths_offences(file, items, imported), imported_paths_rule_name()),
    decreases items.len(),
{
    if items.len() > 0 {
        lemma_imported_paths_by_rule(file, items.drop_last(), imported);
        lemma_call_offences_by_rule(file, items.last().calls@, imported);
        lemma_all_by_concat(
            imported_paths_offences(file, items.drop_last(), imported),
            call_offences(file, items.last().calls@, imported),
            imported_paths_rule_name(),
        );
    }
}

pub proof fn lemma_call_offences_by_rule(file: SourceFileView, calls: Seq<CallOutline>, imported: Seq<Seq<char>>)
    ensures
        all_by(call_offences(file, calls, imported), imported_paths_rule_name()),
    decreases calls.len(),
{
    if calls.len() > 0 {
        lemma_call_offences_by_rule(file, calls.drop_last(), imported);
        if reached_through_path(calls.last(), imported) {
            lemma_all_by_push(call_offences(file, calls.drop_last(), imported), path_offence(file, calls.last()), imported_paths_rule_name());
        }
    }
}

/// What the rule wants, a scrap of source that breaks it and the same scrap
/// put right.
pub open spec fn imported_paths_explanation() -> (Seq<char>, Seq<char>, Seq<char>, Seq<char>) {
    (
        imported_paths_rule_name(),
        "A function is called through a name this file imported, not through a path."@,
        "let parsed = syn::parse_file(text);"@,
        "use syn::parse_file;\n\nlet parsed = parse_file(text);"@,
    )
}

pub struct ImportedPathsRule;

impl ImportedPathsRule {
    pub fn new() -> (r: ImportedPathsRule) {
        ImportedPathsRule
    }

    pub fn name(&self) -> (r: &'static str)
        ensures
            r@ == imported_paths_rule_name(),
    {
        "imported-paths"
    }

    /// What the rule wants, a scrap of source that breaks it and the same
    /// scrap put right.
    pub fn explanation(&self) -> (r: RuleExplanation)
        ensures
            r@ == imported_paths_explanation(),
    {
        RuleExplanation::new(
            self.name(),
            "A function is called through a name this file imported, not through a path.",
            "let parsed = syn::parse_file(text);",
            "use syn::parse_file;\n\nlet parsed = parse_file(text);",
        )
    }

    pub fn imported_names(items: &Vec<ItemOutline>) -> (r: Vec<String>)
        ensures
            views(r@) == imported_names(items@),
    {
        let mut r: Vec<String> = Vec::new();
        let mut i: usize = 0;
        assert(items@.take(0) =~= Seq::<ItemOutline>::empty());
        while i < items.len()
            invariant
                i <= items.len(),
                views(r@) == imported_names(items@.take(i as int)),
            decreases items.len() - i,
        {
            assert(items@.take(i + 1).drop_last() == items@.take(i as int));
            assert(items@.take(i + 1).last() == items@[i as int]);
            if items[i].kind == ItemKind::Use {
                extend_texts(&mut r, copy_texts(&items[i].imports));
            }
            i = i + 1;
        }
        assert(items@.take(items.len() as int) == items@);
        r
    }

    fn is_type_name(segment: &str) -> (b: bool)
        ensures
            b == is_type_name(segment@),
    {
        let v = crate::text::chars_of(segment);
        v.len() > 0 && 'A' <= v[0] && v[0] <= 'Z'
    }

    fn offence(&self, file: &SourceFile, call: &CallOutline) -> (o: Offence)
        requires
            call.path@.len() > 0,
        ensures
            o@ == path_offence(file@, *call),
    {
        let path = join_texts(&call.path, "::");
        let n = call.path.len();
        let (import, called) = if n >= 3 {
            let mut module = copy_texts(&call.path);
            let ghost all = views(module@);
            module.pop();
            assert(views(module@) =~= all.drop_last());
            let mut called = call.path[n - 2].clone();
            called.append("::");
            called.append(call.path[n - 1].as_str());
            (join_texts(&module, "::"), called)
        } else {
            (join_texts(&call.path, "::"), call.path[n - 1].clone())
        };
        let mut description = String::from_str("`");
        description.append(path.as_str());
        description.append("` is reached through a path; no import of this file names it");
        let mut correction = String::from_str("add `use ");
        correction.append(import.as_str());
        correction.append(";` and call `");
        correction.append(called.as_str());
        correction.append("`");
        Offence::new(file.relative_path(), call.line, self.name(), description, correction).with_subject(path.as_str())
    }

    fn calls(&self, file: &SourceFile, calls: &Vec<CallOutline>, imported: &Vec<String>, out: &mut Vec<Offence>)
        ensures
            offence_views(final(out)@) == offence_views(old(out)@) + call_offences(file@, calls@, views(imported@)),
    {
        let ghost head = offence_views(out@);
        let mut j: usize = 0;
        assert(calls@.take(0) =~= Seq::<CallOutline>::empty());
        assert(head + call_offences(file@, calls@.take(0), views(imported@)) =~= head);
        while j < calls.len()
            invariant
                j <= calls.len(),
                offence_views(out@) == head + call_offences(file@, calls@.take(j as int), views(imported@)),
            decreases calls.len() - j,
        {
            assert(calls@.take(j + 1).drop_last() == calls@.take(j as int));
            assert(calls@.take(j + 1).last() == calls@[j as int]);
            let call = &calls[j];
            if call.path.len() >= 2 && !contains_text(imported, call.path[0].as_str())
                && !Self::is_type_name(call.path[0].as_str()) {
                let o = self.offence(file, call);
                let ghost before = out@;
                out.push(o);
                assert(offence_views(out@) =~= offence_views(before).push(o@));
            }
            j = j + 1;
        }
        assert(calls@.take(calls.len() as int) == calls@);
    }

    pub fn check_outline(&self, file: &SourceFile, items: &Vec<ItemOutline>) -> (r: Vec<Offence>)
        ensures
            offence_views(r@) == imported_paths_offences(file@, items@, imported_names(items@)),
    {
        let imported = Self::imported_names(items);
        let mut r: Vec<Offence> = Vec::new();
        let mut i: usize = 0;
        assert(items@.take(0) =~= Seq::<ItemOutline>::empty());
        while i < items.len()
            invariant
                i <= items.len(),
                views(imported@) == imported_names(items@),
                offence_views(r@) == imported_paths_offences(file@, items@.take(i as int), views(imported@)),
            decreases items.len() - i,
        {
            assert(items@.take(i + 1).drop_last() == items@.take(i as int));
            assert(items@.take(i + 1).last() == items@[i as int]);
            self.calls(file, &items[i].calls, &imported, &mut r);
            i = i + 1;
        }
        assert(items@.take(items.len() as int) == items@);
        r
    }

    /// Both productive and test files are checked: a test file has the same
    /// reader.
    pub fn check(&self, file: &SourceFile) -> (r: Vec<Offence>)
        ensures
            parse_failure(crate::syntax::parsed_text(file@.lines)).is_some() ==> r@.len() == 0,
            parse_failure(crate::syntax::parsed_text(file@.lines)).is_none() ==> offence_views(r@)
                == imported_paths_offences(file@, crate::syntax::syntax_outline(crate::syntax::parsed_text(file@.lines)), imported_names(crate::syntax::syntax_outline(crate::syntax::parsed_text(file@.lines)))),
    {
        match file_outline(file) {
            Some(items) => self.check_outline(file, &items),
            None => Vec::new(),
        }
    }
}

} // verus!
