//! A module is declared by name: `mod alpha;` reaches `alpha.rs` or
//! `alpha/mod.rs`, and nothing else decides which file that is.
//!
//! `#[path = "..."]` is the one attribute that makes another rule here give a
//! confident wrong answer, so it is reported wherever it appears, inline
//! modules included. A `cfg_attr` wrapping one is left alone.
use vstd::prelude::*;
use crate::offence::{all_by, lemma_all_by_push, offence_views, plain, Offence, OffenceView};
use crate::source_file::{rejoined, SourceFile, SourceFileView};
use crate::syntax::{file_outline, name_text, parse_failure, AttributeOutline, ItemKind, ItemOutline};
use crate::test_file_parser::option_text;
use crate::text::same_text;

verus! {

pub open spec fn declared_rule_name() -> Seq<char> {
    "declared-by-name"@
}

pub open spec fn is_path_attribute(attr: AttributeOutline) -> bool {
    option_text(attr.key) == Some("path"@) && attr.text_value.is_some()
}

/// The file a module's bare `#[path = "..."]` attribute names: the first
/// such attribute with a string value.
pub open spec fn path_target(attrs: Seq<AttributeOutline>) -> Option<Seq<char>>
    decreases attrs.len(),
{
    if attrs.len() == 0 {
        None
    } else if is_path_attribute(attrs[0]) {
        Some(attrs[0].text_value.unwrap()@)
    } else {
        path_target(attrs.drop_first())
    }
}

pub open spec fn declared_offence(file: SourceFileView, module: ItemOutline, target: Seq<char>) -> OffenceView {
    let name = name_text(module);
    let expected = name + ".rs"@;
    plain(
        file.path,
        module.name_line as nat,
        declared_rule_name(),
        "`mod "@ + name + "` is reached through `#[path = \""@ + target
            + "\"]`, so the file it declares cannot be found from its name"@,
        "move `"@ + target + "` to `"@ + expected + "` beside this file and drop the `#[path]` attribute"@,
    ).about(name).expecting(expected)
}

/// Every module, at any depth, declared through a path attribute.
pub open spec fn declared_offences(file: SourceFileView, items: Seq<ItemOutline>) -> Seq<OffenceView>
    decreases items.len(),
{
    if items.len() == 0 {
        Seq::<OffenceView>::empty()
    } else {
        let earlier = declared_offences(file, items.drop_last());
        let item = items.last();
        if item.kind == ItemKind::Mod && path_target(item.attributes@).is_some() {
            earlier.push(declared_offence(file, item, path_target(item.attributes@).unwrap()))
        } else {
            earlier
        }
    }
}

/// Every offence the rule finds is reported under its name.
pub proof fn lemma_declared_by_rule(file: SourceFileView, items: Seq<ItemOutline>)
    ensures
        all_by(declared_offences(file, items), declared_rule_name()),
    decreases items.len(),
{
    if items.len() > 0 {
        lemma_declared_by_rule(file, items.drop_last());
        let item = items.last();
        if item.kind == ItemKind::Mod && path_target(item.attributes@).is_some() {
            lemma_all_by_push(
                declared_offences(file, items.drop_last()),
                declared_offence(file, item, path_target(item.attributes@).unwrap()),
                declared_rule_name(),
            );
        }
    }
}

pub struct DeclaredByNameRule;

impl DeclaredByNameRule {
    pub const ATTRIBUTE: &'static str = "path";

    pub fn new() -> (r: DeclaredByNameRule) {
        DeclaredByNameRule
    }

    pub fn name(&self) -> (r: &'static str)
        ensures
            r@ == declared_rule_name(),
    {
        "declared-by-name"
    }

    /// Only the bare `#[path = "..."]`.
    pub fn target_of(attrs: &Vec<AttributeOutline>) -> (r: Option<String>)
        ensures
            option_text(r) == path_target(attrs@),
    {
        let mut i: usize = 0;
        assert(attrs@.skip(0) == attrs@);
        while i < attrs.len()
            invariant
                i <= attrs.len(),
                path_target(attrs@) == path_target(attrs@.skip(i as int)),
            decreases attrs.len() - i,
        {
            assert(attrs@.skip(i as int)[0] == attrs@[i as int]);
            assert(attrs@.skip(i as int).drop_first() == attrs@.skip(i + 1));
            let attr = &attrs[i];
            match (&attr.key, &attr.text_value) {
                (Some(key), Some(value)) => {
                    if same_text(key.as_str(), Self::ATTRIBUTE) {
                        proof {
                            reveal_strlit("path");
                        }
                        return Some(value.clone());
                    }
                },
                _ => {},
            }
            i = i + 1;
        }
        assert(attrs@.skip(attrs.len() as int).len() == 0);
        None
    }

    /// The correction names both files, because the fix is a move and a
    /// deletion rather than an edit to the declaration.
    fn offence(&self, file: &SourceFile, module: &ItemOutline, target: &str) -> (o: Offence)
        ensures
            o@ == declared_offence(file@, *module, target@),
    {
        let name = module.name_or_empty();
        let mut expected = name.clone();
        expected.append(".rs");
        let mut description = String::from_str("`mod ");
        description.append(name.as_str());
        description.append("` is reached through `#[path = \"");
        description.append(target);
        description.append("\"]`, so the file it declares cannot be found from its name");
        let mut correction = String::from_str("move `");
        correction.append(target);
        correction.append("` to `");
        correction.append(expected.as_str());
        correction.append("` beside this file and drop the `#[path]` attribute");
        Offence::new(file.relative_path(), module.name_line, self.name(), description, correction)
            .with_subject(name.as_str())
            .with_expected(expected.as_str())
    }

    pub fn check_outline(&self, file: &SourceFile, items: &Vec<ItemOutline>) -> (r: Vec<Offence>)
        ensures
            offence_views(r@) == declared_offences(file@, items@),
    {
        let mut out: Vec<Offence> = Vec::new();
        let mut i: usize = 0;
        assert(items@.take(0) =~= Seq::<ItemOutline>::empty());
        assert(offence_views(out@) =~= declared_offences(file@, items@.take(0)));
        while i < items.len()
            invariant
                i <= items.len(),
                offence_views(out@) == declared_offences(file@, items@.take(i as int)),
            decreases items.len() - i,
        {
            assert(items@.take(i + 1).drop_last() == items@.take(i as int));
            assert(items@.take(i + 1).last() == items@[i as int]);
            let item = &items[i];
            if item.kind == ItemKind::Mod {
                match Self::target_of(&item.attributes) {
                    Some(target) => {
                        let o = self.offence(file, item, target.as_str());
                        let ghost before = offence_views(out@);
                        out.push(o);
                        assert(offence_views(out@) =~= before.push(o@));
                    },
                    None => {},
                }
            }
            i = i + 1;
        }
        assert(items@.take(items.len() as int) == items@);
        out
    }

    pub fn check(&self, file: &SourceFile) -> (r: Vec<Offence>)
        ensures
            parse_failure(crate::syntax::parsed_text(file@.lines)).is_some() ==> r@.len() == 0,
            parse_failure(crate::syntax::parsed_text(file@.lines)).is_none()
                ==> offence_views(r@) == declared_offences(file@, crate::syntax::syntax_outline(crate::syntax::parsed_text(file@.lines))),
    {
        match file_outline(file) {
            Some(items) => self.check_outline(file, &items),
            None => Vec::new(),
        }
    }
}

} // verus!
