//! A trait declares; it does not implement.
//!
//! A default body reads as a convenience and works as a decision nobody made.
//! Every body is reported, at the method, because each is a separate edit.
//! Associated types and constants may keep defaults: neither is behaviour.
//! `tests/` is exempt, where a trait with a body is a deliberate fake.
use vstd::prelude::*;
use crate::rule_explanation::RuleExplanation;
use crate::offence::{all_by, lemma_all_by_concat, lemma_all_by_push, offence_views, plain, Offence, OffenceView};
use crate::source_file::{rejoined, SourceFile, SourceFileView};
use crate::syntax::{file_outline, name_text, parse_failure, ItemKind, ItemOutline, MethodOutline};
use crate::text::{has_prefix, starts_with};

verus! {

pub open spec fn pure_rule_name() -> Seq<char> {
    "pure-traits"@
}

pub open spec fn pure_applies(path: Seq<char>) -> bool {
    starts_with(path, "src/"@)
}

pub open spec fn body_offence(file: SourceFileView, declared_by: Seq<char>, method: MethodOutline) -> OffenceView {
    let subject = declared_by + "::"@ + method.name@;
    plain(
        file.path,
        method.line as nat,
        pure_rule_name(),
        "`"@ + subject + "` has a default body, so an implementor that says nothing about it cannot be told from one that chose it"@,
        "move the body into each implementor"@,
    ).about(subject)
}

pub open spec fn bodies(file: SourceFileView, declared_by: Seq<char>, methods: Seq<MethodOutline>) -> Seq<OffenceView>
    decreases methods.len(),
{
    if methods.len() == 0 {
        Seq::<OffenceView>::empty()
    } else {
        let earlier = bodies(file, declared_by, methods.drop_last());
        if methods.last().has_default {
            earlier.push(body_offence(file, declared_by, methods.last()))
        } else {
            earlier
        }
    }
}

/// Every default body of every trait, at any depth of inline modules.
pub open spec fn pure_offences(file: SourceFileView, items: Seq<ItemOutline>) -> Seq<OffenceView>
    decreases items.len(),
{
    if items.len() == 0 {
        Seq::<OffenceView>::empty()
    } else {
        let earlier = pure_offences(file, items.drop_last());
        let item = items.last();
        if item.kind == ItemKind::Trait {
            earlier + bodies(file, name_text(item), item.methods@)
        } else {
            earlier
        }
    }
}

/// Every offence the rule finds is reported under its name.
pub proof fn lemma_pure_by_rule(file: SourceFileView, items: Seq<ItemOutline>)
    ensures
        all_by(pure_offences(file, items), pure_rule_name()),
    decreases items.len(),
{
    if items.len() > 0 {
        lemma_pure_by_rule(file, items.drop_last());
        let item = items.last();
        if item.kind == ItemKind::Trait {
            lemma_bodies_by_rule(file, name_text(item), item.methods@);
            lemma_all_by_concat(pure_offences(file, items.drop_last()), bodies(file, name_text(item), item.methods@), pure_rule_name());
        }
    }
}

pub proof fn lemma_bodies_by_rule(file: SourceFileView, declared_by: Seq<char>, methods: Seq<MethodOutline>)
    ensures
        all_by(bodies(file, declared_by, methods), pure_rule_name()),
    decreases methods.len(),
{
    if methods.len() > 0 {
        lemma_bodies_by_rule(file, declared_by, methods.drop_last());
        if methods.last().has_default {
            lemma_all_by_push(bodies(file, declared_by, methods.drop_last()), body_offence(file, declared_by, methods.last()), pure_rule_name());
        }
    }
}

/// What the rule wants, a scrap of source that breaks it and the same scrap
/// put right.
pub open spec fn pure_explanation() -> (Seq<char>, Seq<char>, Seq<char>, Seq<char>) {
    (
        pure_rule_name(),
        "A trait declares; it does not implement."@,
        "trait Store {\n    fn commit(&self) -> bool {\n        true\n    }\n}"@,
        "trait Store {\n    fn commit(&self) -> bool;\n}"@,
    )
}

pub struct PureTraitsRule;

impl PureTraitsRule {
    pub const SOURCE_ROOT: &'static str = "src/";

    pub fn new() -> (r: PureTraitsRule) {
        PureTraitsRule
    }

    pub fn name(&self) -> (r: &'static str)
        ensures
            r@ == pure_rule_name(),
    {
        "pure-traits"
    }

    /// What the rule wants, a scrap of source that breaks it and the same
    /// scrap put right.
    pub fn explanation(&self) -> (r: RuleExplanation)
        ensures
            r@ == pure_explanation(),
    {
        RuleExplanation::new(
            self.name(),
            "A trait declares; it does not implement.",
            "trait Store {\n    fn commit(&self) -> bool {\n        true\n    }\n}",
            "trait Store {\n    fn commit(&self) -> bool;\n}",
        )
    }

    pub fn applies_to(file: &SourceFile) -> (b: bool)
        ensures
            b == pure_applies(file@.path),
    {
        has_prefix(file.relative_path(), Self::SOURCE_ROOT)
    }

    fn offence(&self, file: &SourceFile, declared_by: &str, method: &MethodOutline) -> (o: Offence)
        ensures
            o@ == body_offence(file@, declared_by@, *method),
    {
        let mut subject = String::from_str(declared_by);
        subject.append("::");
        subject.append(method.name.as_str());
        let mut description = String::from_str("`");
        description.append(subject.as_str());
        description.append("` has a default body, so an implementor that says nothing about it cannot be told from one that chose it");
        Offence::new(
            file.relative_path(),
            method.line,
            self.name(),
            description,
            String::from_str("move the body into each implementor"),
        ).with_subject(subject.as_str())
    }

    fn bodies(&self, file: &SourceFile, declaration: &ItemOutline, out: &mut Vec<Offence>)
        ensures
            offence_views(final(out)@) == offence_views(old(out)@) + bodies(file@, name_text(*declaration), declaration.methods@),
    {
        let declared_by = declaration.name_or_empty();
        let methods = &declaration.methods;
        let ghost start = offence_views(out@);
        let mut i: usize = 0;
        assert(methods@.take(0) =~= Seq::<MethodOutline>::empty());
        assert(offence_views(out@) =~= start + bodies(file@, declared_by@, methods@.take(0)));
        while i < methods.len()
            invariant
                i <= methods.len(),
                start == offence_views(old(out)@),
                offence_views(out@) == start + bodies(file@, declared_by@, methods@.take(i as int)),
            decreases methods.len() - i,
        {
            assert(methods@.take(i + 1).drop_last() == methods@.take(i as int));
            assert(methods@.take(i + 1).last() == methods@[i as int]);
            if methods[i].has_default {
                let o = self.offence(file, declared_by.as_str(), &methods[i]);
                let ghost before = offence_views(out@);
                out.push(o);
                assert(offence_views(out@) =~= before.push(o@));
            }
            i = i + 1;
        }
        assert(methods@.take(methods.len() as int) == methods@);
    }

    pub fn check_outline(&self, file: &SourceFile, items: &Vec<ItemOutline>) -> (r: Vec<Offence>)
        ensures
            offence_views(r@) == pure_offences(file@, items@),
    {
        let mut out: Vec<Offence> = Vec::new();
        let mut i: usize = 0;
        assert(items@.take(0) =~= Seq::<ItemOutline>::empty());
        assert(offence_views(out@) =~= pure_offences(file@, items@.take(0)));
        while i < items.len()
            invariant
                i <= items.len(),
                offence_views(out@) == pure_offences(file@, items@.take(i as int)),
            decreases items.len() - i,
        {
            assert(items@.take(i + 1).drop_last() == items@.take(i as int));
            assert(items@.take(i + 1).last() == items@[i as int]);
            if items[i].kind == ItemKind::Trait {
                self.bodies(file, &items[i], &mut out);
            }
            i = i + 1;
        }
        assert(items@.take(items.len() as int) == items@);
        out
    }

    pub fn check(&self, file: &SourceFile) -> (r: Vec<Offence>)
        ensures
            !pure_applies(file@.path) ==> r@.len() == 0,
            parse_failure(crate::syntax::parsed_text(file@.lines)).is_some() ==> r@.len() == 0,
            pure_applies(file@.path) && parse_failure(crate::syntax::parsed_text(file@.lines)).is_none()
                ==> offence_views(r@) == pure_offences(file@, crate::syntax::syntax_outline(crate::syntax::parsed_text(file@.lines))),
    {
        if !Self::applies_to(file) {
            return Vec::new();
        }
        match file_outline(file) {
            Some(items) => self.check_outline(file, &items),
            None => Vec::new(),
        }
    }
}

} // verus!
