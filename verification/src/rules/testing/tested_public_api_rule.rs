//! Every public entry point is called by at least one test.
//!
//! Starting from the declared entry points needs no guess about intent: a
//! `pub fn` under `src/` either appears at a call site under `tests/` or it
//! does not. Entry points are matched on name and arity, which is all a call
//! site shows without type inference, so two entry points sharing both are
//! indistinguishable and a test calling one marks both: the rule errs toward
//! silence rather than toward accusing tested code. Trait impls and derives
//! declare no `pub fn` and never enter the count.
use vstd::prelude::*;
use crate::rule_explanation::RuleExplanation;
use crate::offence::{all_by, lemma_all_by_push, offence_views, plain, Offence, OffenceView};
use crate::package_tree::paths_of;
use crate::source_file::{rejoined, SourceFile};
use crate::syntax::{file_outline, name_text, parse_failure, CallOutline, ItemKind, ItemOutline, MethodOutline};
use crate::text::{decimal, decimal_text, has_prefix, same_text, starts_with};

verus! {

pub open spec fn tested_api_rule_name() -> Seq<char> {
    "tested-public-api"@
}

/// The public methods, as name and arity, in order.
pub open spec fn method_entries(methods: Seq<MethodOutline>) -> Seq<(Seq<char>, nat)>
    decreases methods.len(),
{
    if methods.len() == 0 {
        Seq::<(Seq<char>, nat)>::empty()
    } else if methods.last().is_public {
        method_entries(methods.drop_last()).push((methods.last().name@, methods.last().arity as nat))
    } else {
        method_entries(methods.drop_last())
    }
}

/// The entry points a file declares: each public function, and each public
/// method of an impl block, in order.
pub open spec fn entries_of(items: Seq<ItemOutline>) -> Seq<(Seq<char>, nat)>
    decreases items.len(),
{
    if items.len() == 0 {
        Seq::<(Seq<char>, nat)>::empty()
    } else {
        let item = items.last();
        entries_of(items.drop_last()) + if item.kind == ItemKind::Fn && item.is_public {
            seq![(name_text(item), item.arity as nat)]
        } else if item.kind == ItemKind::Impl {
            method_entries(item.methods@)
        } else {
            Seq::<(Seq<char>, nat)>::empty()
        }
    }
}

/// What a call site offers: the name it calls and how many arguments.
pub open spec fn call_entry(call: CallOutline) -> (Seq<char>, nat) {
    (if call.path@.len() > 0 { call.path@.last()@ } else { Seq::<char>::empty() }, call.arity as nat)
}

pub open spec fn call_entries(items: Seq<ItemOutline>) -> Seq<(Seq<char>, nat)>
    decreases items.len(),
{
    if items.len() == 0 {
        Seq::<(Seq<char>, nat)>::empty()
    } else {
        call_entries(items.drop_last()) + items.last().calls@.map_values(|c: CallOutline| call_entry(c))
    }
}

/// Everything the test files call.
pub open spec fn called_in(paths: Seq<Seq<char>>, outlines: Seq<Option<Vec<ItemOutline>>>) -> Seq<(Seq<char>, nat)>
    decreases paths.len(),
{
    if paths.len() == 0 || outlines.len() != paths.len() {
        Seq::<(Seq<char>, nat)>::empty()
    } else {
        let earlier = called_in(paths.drop_last(), outlines.drop_last());
        match outlines.last() {
            Some(items) if starts_with(paths.last(), "tests/"@) => earlier + call_entries(items@),
            _ => earlier,
        }
    }
}

/// Everything the source files declare, with the file declaring it.
pub open spec fn declared_in(paths: Seq<Seq<char>>, outlines: Seq<Option<Vec<ItemOutline>>>) -> Seq<(Seq<char>, (Seq<char>, nat))>
    decreases paths.len(),
{
    if paths.len() == 0 || outlines.len() != paths.len() {
        Seq::<(Seq<char>, (Seq<char>, nat))>::empty()
    } else {
        let earlier = declared_in(paths.drop_last(), outlines.drop_last());
        let path = paths.last();
        match outlines.last() {
            Some(items) if starts_with(path, "src/"@) => earlier + entries_of(items@).map_values(
                |e: (Seq<char>, nat)| (path, e),
            ),
            _ => earlier,
        }
    }
}

pub open spec fn signature(entry: (Seq<char>, nat)) -> Seq<char> {
    entry.0 + "/"@ + decimal(entry.1)
}

pub open spec fn untested_offence(file: Seq<char>, entry: (Seq<char>, nat)) -> OffenceView {
    plain(
        file,
        1,
        tested_api_rule_name(),
        "`"@ + entry.0 + "` is public but no test calls it with "@ + decimal(entry.1) + " argument(s)"@,
        "call `"@ + entry.0 + "` from a test, or stop exposing it if nothing outside needs it"@,
    ).about(signature(entry))
}

pub open spec fn untested(declared: Seq<(Seq<char>, (Seq<char>, nat))>, called: Seq<(Seq<char>, nat)>) -> Seq<OffenceView>
    decreases declared.len(),
{
    if declared.len() == 0 {
        Seq::<OffenceView>::empty()
    } else if called.contains(declared.last().1) {
        untested(declared.drop_last(), called)
    } else {
        untested(declared.drop_last(), called).push(untested_offence(declared.last().0, declared.last().1))
    }
}

pub open spec fn tested_api_offences(paths: Seq<Seq<char>>, outlines: Seq<Option<Vec<ItemOutline>>>) -> Seq<OffenceView> {
    untested(declared_in(paths, outlines), called_in(paths, outlines))
}

/// Every offence the rule finds is reported under its name.
pub proof fn lemma_tested_api_by_rule(declared: Seq<(Seq<char>, (Seq<char>, nat))>, called: Seq<(Seq<char>, nat)>)
    ensures
        all_by(untested(declared, called), tested_api_rule_name()),
    decreases declared.len(),
{
    if declared.len() > 0 {
        lemma_tested_api_by_rule(declared.drop_last(), called);
        if !called.contains(declared.last().1) {
            lemma_all_by_push(
                untested(declared.drop_last(), called),
                untested_offence(declared.last().0, declared.last().1),
                tested_api_rule_name(),
            );
        }
    }
}

pub open spec fn entry_views(v: Seq<(String, usize)>) -> Seq<(Seq<char>, nat)> {
    v.map_values(|e: (String, usize)| (e.0@, e.1 as nat))
}

pub open spec fn declared_views(v: Seq<(String, (String, usize))>) -> Seq<(Seq<char>, (Seq<char>, nat))> {
    v.map_values(|e: (String, (String, usize))| (e.0@, (e.1.0@, e.1.1 as nat)))
}

/// What the rule wants, a scrap of source that breaks it and the same scrap
/// put right.
pub open spec fn tested_api_explanation() -> (Seq<char>, Seq<char>, Seq<char>, Seq<char>) {
    (
        tested_api_rule_name(),
        "Every public entry point is called by at least one test."@,
        "pub fn commit(&self) -> bool   -- no test calls it"@,
        "#[test]\nfn commit_without_a_quorum_returns_false() {\n    assert!(!store.commit());\n}"@,
    )
}

pub struct TestedPublicApiRule;

impl TestedPublicApiRule {
    pub const SOURCE_ROOT: &'static str = "src/";

    pub const TESTS_ROOT: &'static str = "tests/";

    pub fn new() -> (r: TestedPublicApiRule) {
        TestedPublicApiRule
    }

    pub fn name(&self) -> (r: &'static str)
        ensures
            r@ == tested_api_rule_name(),
    {
        "tested-public-api"
    }

    /// What the rule wants, a scrap of source that breaks it and the same
    /// scrap put right.
    pub fn explanation(&self) -> (r: RuleExplanation)
        ensures
            r@ == tested_api_explanation(),
    {
        RuleExplanation::new(
            self.name(),
            "Every public entry point is called by at least one test.",
            "pub fn commit(&self) -> bool   -- no test calls it",
            "#[test]\nfn commit_without_a_quorum_returns_false() {\n    assert!(!store.commit());\n}",
        )
    }

    /// The entry points the items declare.
    pub fn entries_of(items: &Vec<ItemOutline>) -> (r: Vec<(String, usize)>)
        ensures
            entry_views(r@) == entries_of(items@),
    {
        let mut r: Vec<(String, usize)> = Vec::new();
        let mut i: usize = 0;
        assert(items@.take(0) =~= Seq::<ItemOutline>::empty());
        while i < items.len()
            invariant
                i <= items.len(),
                entry_views(r@) == entries_of(items@.take(i as int)),
            decreases items.len() - i,
        {
            assert(items@.take(i + 1).drop_last() == items@.take(i as int));
            assert(items@.take(i + 1).last() == items@[i as int]);
            let item = &items[i];
            let ghost head = entry_views(r@);
            if item.kind == ItemKind::Fn && item.is_public {
                let e = (item.name_or_empty(), item.arity);
                r.push(e);
                assert(entry_views(r@) =~= head + seq![(e.0@, e.1 as nat)]);
            } else if item.kind == ItemKind::Impl {
                let methods = &item.methods;
                let mut j: usize = 0;
                assert(methods@.take(0) =~= Seq::<MethodOutline>::empty());
                assert(head + method_entries(methods@.take(0)) =~= head);
                while j < methods.len()
                    invariant
                        j <= methods.len(),
                        entry_views(r@) == head + method_entries(methods@.take(j as int)),
                    decreases methods.len() - j,
                {
                    assert(methods@.take(j + 1).drop_last() == methods@.take(j as int));
                    assert(methods@.take(j + 1).last() == methods@[j as int]);
                    if methods[j].is_public {
                        let e = (methods[j].name.clone(), methods[j].arity);
                        let ghost before = r@;
                        r.push(e);
                        assert(entry_views(r@) =~= entry_views(before).push((e.0@, e.1 as nat)));
                    }
                    j = j + 1;
                }
                assert(methods@.take(methods.len() as int) == methods@);
            } else {
                assert(entry_views(r@) =~= head + Seq::<(Seq<char>, nat)>::empty());
            }
            i = i + 1;
        }
        assert(items@.take(items.len() as int) == items@);
        r
    }

    /// What the items' call sites offer, appended to `out`.
    pub fn calls_of(items: &Vec<ItemOutline>, out: &mut Vec<(String, usize)>)
        ensures
            entry_views(final(out)@) == entry_views(old(out)@) + call_entries(items@),
    {
        let ghost start = entry_views(out@);
        let mut i: usize = 0;
        assert(items@.take(0) =~= Seq::<ItemOutline>::empty());
        assert(start + call_entries(items@.take(0)) =~= start);
        while i < items.len()
            invariant
                i <= items.len(),
                entry_views(out@) == start + call_entries(items@.take(i as int)),
            decreases items.len() - i,
        {
            assert(items@.take(i + 1).drop_last() == items@.take(i as int));
            assert(items@.take(i + 1).last() == items@[i as int]);
            let calls = &items[i].calls;
            let ghost head = entry_views(out@);
            let mut j: usize = 0;
            while j < calls.len()
                invariant
                    j <= calls.len(),
                    entry_views(out@) == head + calls@.take(j as int).map_values(|c: CallOutline| call_entry(c)),
                decreases calls.len() - j,
            {
                let call = &calls[j];
                let name = if call.path.len() > 0 {
                    call.path[call.path.len() - 1].clone()
                } else {
                    String::new()
                };
                let e = (name, call.arity);
                let ghost before = out@;
                out.push(e);
                assert(entry_views(out@) =~= entry_views(before).push((e.0@, e.1 as nat)));
                assert(calls@.take(j + 1).map_values(|c: CallOutline| call_entry(c)) =~= calls@.take(j as int).map_values(
                    |c: CallOutline| call_entry(c),
                ).push(call_entry(calls@[j as int])));
                j = j + 1;
            }
            assert(calls@.take(calls.len() as int) == calls@);
            assert(entry_views(out@) =~= start + call_entries(items@.take(i + 1)));
            i = i + 1;
        }
        assert(items@.take(items.len() as int) == items@);
    }

    fn is_called(called: &Vec<(String, usize)>, name: &str, arity: usize) -> (b: bool)
        ensures
            b == entry_views(called@).contains((name@, arity as nat)),
    {
        let ghost all = entry_views(called@);
        let mut i: usize = 0;
        while i < called.len()
            invariant
                i <= called.len(),
                all == entry_views(called@),
                forall|k: int| 0 <= k < i ==> all[k] != (name@, arity as nat),
            decreases called.len() - i,
        {
            if called[i].1 == arity && same_text(called[i].0.as_str(), name) {
                assert(all[i as int] == (name@, arity as nat));
                return true;
            }
            i = i + 1;
        }
        assert(!all.contains((name@, arity as nat))) by {
            if all.contains((name@, arity as nat)) {
                let k = choose|k: int| 0 <= k < all.len() && all[k] == (name@, arity as nat);
                assert(all[k] != (name@, arity as nat));
            }
        }
        false
    }

    fn offence(&self, file: &str, name: &str, arity: usize) -> (o: Offence)
        ensures
            o@ == untested_offence(file@, (name@, arity as nat)),
    {
        let count = decimal_text(arity);
        let mut description = String::from_str("`");
        description.append(name);
        description.append("` is public but no test calls it with ");
        description.append(count.as_str());
        description.append(" argument(s)");
        let mut correction = String::from_str("call `");
        correction.append(name);
        correction.append("` from a test, or stop exposing it if nothing outside needs it");
        let mut signature = String::from_str(name);
        signature.append("/");
        signature.append(count.as_str());
        Offence::new(file, 1, self.name(), description, correction).with_subject(signature.as_str())
    }

    /// The offences, given the outline of every file that parses.
    pub fn check_outlines(&self, files: &Vec<SourceFile>, outlines: &Vec<Option<Vec<ItemOutline>>>) -> (r: Vec<Offence>)
        requires
            outlines.len() == files.len(),
        ensures
            offence_views(r@) == tested_api_offences(paths_of(files@), outlines@),
    {
        let ghost paths = paths_of(files@);
        let mut called: Vec<(String, usize)> = Vec::new();
        let mut declared: Vec<(String, (String, usize))> = Vec::new();
        let mut i: usize = 0;
        assert(paths.take(0) =~= Seq::<Seq<char>>::empty());
        assert(entry_views(called@) =~= called_in(paths.take(0), outlines@.take(0)));
        assert(declared_views(declared@) =~= declared_in(paths.take(0), outlines@.take(0)));
        while i < files.len()
            invariant
                i <= files.len(),
                outlines.len() == files.len(),
                paths == paths_of(files@),
                entry_views(called@) == called_in(paths.take(i as int), outlines@.take(i as int)),
                declared_views(declared@) == declared_in(paths.take(i as int), outlines@.take(i as int)),
            decreases files.len() - i,
        {
            assert(paths.take(i + 1).drop_last() == paths.take(i as int));
            assert(outlines@.take(i + 1).drop_last() == outlines@.take(i as int));
            assert(paths.take(i + 1).last() == paths[i as int]);
            assert(outlines@.take(i + 1).last() == outlines@[i as int]);
            let path = files[i].relative_path();
            match &outlines[i] {
                Some(items) => {
                    if has_prefix(path, Self::TESTS_ROOT) {
                        Self::calls_of(items, &mut called);
                    }
                    if has_prefix(path, Self::SOURCE_ROOT) {
                        let entries = Self::entries_of(items);
                        let ghost head = declared_views(declared@);
                        let mut j: usize = 0;
                        while j < entries.len()
                            invariant
                                j <= entries.len(),
                                declared_views(declared@) == head + entry_views(entries@).take(j as int).map_values(
                                    |e: (Seq<char>, nat)| (path@, e),
                                ),
                            decreases entries.len() - j,
                        {
                            let d = (String::from_str(path), (entries[j].0.clone(), entries[j].1));
                            let ghost before = declared@;
                            declared.push(d);
                            assert(declared_views(declared@) =~= declared_views(before).push((d.0@, (d.1.0@, d.1.1 as nat))));
                            assert(entry_views(entries@).take(j + 1).map_values(|e: (Seq<char>, nat)| (path@, e))
                                =~= entry_views(entries@).take(j as int).map_values(|e: (Seq<char>, nat)| (path@, e)).push(
                                (path@, entry_views(entries@)[j as int]),
                            ));
                            j = j + 1;
                        }
                        assert(entry_views(entries@).take(entries.len() as int) == entry_views(entries@));
                    }
                },
                None => {},
            }
            i = i + 1;
        }
        assert(paths.take(files.len() as int) == paths);
        assert(outlines@.take(files.len() as int) == outlines@);
        let ghost all = declared_views(declared@);
        let ghost calls = entry_views(called@);
        let mut r: Vec<Offence> = Vec::new();
        let mut k: usize = 0;
        assert(all.take(0) =~= Seq::<(Seq<char>, (Seq<char>, nat))>::empty());
        while k < declared.len()
            invariant
                k <= declared.len(),
                all == declared_views(declared@),
                calls == entry_views(called@),
                offence_views(r@) == untested(all.take(k as int), calls),
            decreases declared.len() - k,
        {
            assert(all.take(k + 1).drop_last() == all.take(k as int));
            assert(all.take(k + 1).last() == all[k as int]);
            let (file, (name, arity)) = (&declared[k].0, (&declared[k].1.0, declared[k].1.1));
            if !Self::is_called(&called, name.as_str(), arity) {
                let o = self.offence(file.as_str(), name.as_str(), arity);
                let ghost before = r@;
                r.push(o);
                assert(offence_views(r@) =~= offence_views(before).push(o@));
            }
            k = k + 1;
        }
        assert(all.take(declared.len() as int) == all);
        r
    }

    /// Nothing: an entry point is declared in one file and exercised in
    /// another.
    pub fn check(&self, file: &SourceFile) -> (r: Vec<Offence>)
        ensures
            r@.len() == 0,
    {
        Vec::new()
    }

    pub fn check_workspace(&self, files: &Vec<SourceFile>) -> (r: Vec<Offence>)
        ensures
            exists|outlines: Seq<Option<Vec<ItemOutline>>>| {
                &&& outlines.len() == files@.len()
                &&& forall|k: int| 0 <= k < files@.len()
                    ==> (#[trigger] outlines[k].is_none() <==> parse_failure(crate::syntax::parsed_text(files@[k]@.lines)).is_some())
                &&& forall|k: int| 0 <= k < files@.len() ==> (#[trigger] outlines[k] matches Some(v) ==> v@
                    == crate::syntax::file_syntax(files@[k]@))
                &&& offence_views(r@) == tested_api_offences(paths_of(files@), outlines)
            },
    {
        let mut outlines: Vec<Option<Vec<ItemOutline>>> = Vec::new();
        let mut i: usize = 0;
        while i < files.len()
            invariant
                i <= files.len(),
                outlines.len() == i,
                forall|k: int| 0 <= k < i
                    ==> (#[trigger] outlines@[k].is_none() <==> parse_failure(crate::syntax::parsed_text(files@[k]@.lines)).is_some()),
                forall|k: int| 0 <= k < i ==> (#[trigger] outlines@[k] matches Some(v) ==> v@
                    == crate::syntax::file_syntax(files@[k]@)),
            decreases files.len() - i,
        {
            outlines.push(file_outline(&files[i]));
            i = i + 1;
        }
        self.check_outlines(files, &outlines)
    }
}

} // verus!
