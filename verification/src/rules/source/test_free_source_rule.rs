//! Tests live in `tests/`, and the production source tree carries none of them.
//!
//! A unit test inside `src/` is a test nobody can find from the outside, and
//! it is compiled under a configuration the shipped build never uses. Three
//! things mark one: `#[test]`, `#[cfg(test)]` and `#[cfg_attr(test, ...)]` --
//! the last because a type carrying a derive only under test means one thing
//! to the tests and another to the shipped build. Gates on anything the shipped
//! build can also select, such as a feature, are ordinary library work. Every
//! marked item is reported, at any depth of inline modules.
use vstd::prelude::*;
use crate::offence::{all_by, offence_views, plain, Offence, OffenceView};
use crate::source_file::{rejoined, SourceFile, SourceFileView};
use crate::syntax::{file_outline, name_text, parse_failure, AttributeOutline, ItemKind, ItemOutline};
use crate::text::{has_prefix, same_text, starts_with};

verus! {

pub open spec fn test_free_rule_name() -> Seq<char> {
    "test-free-source"@
}

pub open spec fn text_is(o: Option<String>, t: Seq<char>) -> bool {
    o.is_some() && o.unwrap()@ == t
}

pub open spec fn quoted_item(item: ItemOutline) -> Seq<char> {
    "`"@ + name_text(item) + "`"@
}

/// What one attribute of an item marks it as, if a test: its label and the
/// correction.
pub open spec fn attribute_site(item: ItemOutline, a: AttributeOutline) -> Option<(Seq<char>, Seq<char>)> {
    if text_is(a.last_segment, "test"@) {
        Some(("test "@ + quoted_item(item), "move "@ + quoted_item(item) + " into the matching file under tests/"@))
    } else if text_is(a.last_segment, "cfg"@) && text_is(a.list_head, "test"@) {
        if item.kind == ItemKind::Mod {
            Some((
                "test module "@ + quoted_item(item),
                "move its tests into the matching file under tests/ and delete the module"@,
            ))
        } else {
            Some(("test-only item "@ + quoted_item(item), "move it into the matching file under tests/"@))
        }
    } else if text_is(a.last_segment, "cfg_attr"@) && text_is(a.list_head, "test"@) {
        Some((
            "`#[cfg_attr(test, ...)]` on "@ + quoted_item(item),
            "remove it, so the item means the same thing to its tests as to the shipped build"@,
        ))
    } else {
        None
    }
}

/// The test sites an item's attributes mark, in order, at the item's line.
pub open spec fn attribute_sites(item: ItemOutline, attrs: Seq<AttributeOutline>) -> Seq<(nat, Seq<char>, Seq<char>)>
    decreases attrs.len(),
{
    if attrs.len() == 0 {
        Seq::<(nat, Seq<char>, Seq<char>)>::empty()
    } else {
        let earlier = attribute_sites(item, attrs.drop_last());
        match attribute_site(item, attrs.last()) {
            Some((label, correction)) => earlier.push((item.first_line as nat, label, correction)),
            None => earlier,
        }
    }
}

/// Every test site of the file, item by item.
pub open spec fn unit_test_sites(items: Seq<ItemOutline>) -> Seq<(nat, Seq<char>, Seq<char>)>
    decreases items.len(),
{
    if items.len() == 0 {
        Seq::<(nat, Seq<char>, Seq<char>)>::empty()
    } else {
        unit_test_sites(items.drop_last()) + attribute_sites(items.last(), items.last().attributes@)
    }
}

pub open spec fn site_offence(file: SourceFileView, site: (nat, Seq<char>, Seq<char>)) -> OffenceView {
    plain(file.path, site.0, test_free_rule_name(), site.1 + " does not belong in the source tree"@, site.2).about(site.1)
}

pub open spec fn test_free_offences(file: SourceFileView, items: Seq<ItemOutline>) -> Seq<OffenceView> {
    unit_test_sites(items).map_values(|site: (nat, Seq<char>, Seq<char>)| site_offence(file, site))
}

/// Every offence the rule finds is reported under its name.
pub proof fn lemma_test_free_by_rule(file: SourceFileView, items: Seq<ItemOutline>)
    ensures
        all_by(test_free_offences(file, items), test_free_rule_name()),
{
}

pub struct TestFreeSourceRule;

impl TestFreeSourceRule {
    pub const ROOT: &'static str = "tests/";

    pub fn new() -> (r: TestFreeSourceRule) {
        TestFreeSourceRule
    }

    pub fn name(&self) -> (r: &'static str)
        ensures
            r@ == test_free_rule_name(),
    {
        "test-free-source"
    }

    /// `tests/` is exempt: a `#[test]` there is the entire point of it.
    pub fn applies_to(file: &SourceFile) -> (b: bool)
        ensures
            b == !starts_with(file@.path, "tests/"@),
    {
        !has_prefix(file.relative_path(), Self::ROOT)
    }

    fn text_is(o: &Option<String>, t: &str) -> (b: bool)
        ensures
            b == text_is(*o, t@),
    {
        match o {
            Some(s) => same_text(s.as_str(), t),
            None => false,
        }
    }

    fn quoted_item(item: &ItemOutline) -> (r: String)
        ensures
            r@ == quoted_item(*item),
    {
        let mut r = String::from_str("`");
        r.append(item.name_or_empty().as_str());
        r.append("`");
        r
    }

    fn labelled(prefix: &str, item: &ItemOutline) -> (r: String)
        ensures
            r@ == prefix@ + quoted_item(*item),
    {
        let mut r = String::from_str(prefix);
        r.append(Self::quoted_item(item).as_str());
        r
    }

    pub fn attribute_site(item: &ItemOutline, a: &AttributeOutline) -> (r: Option<(String, String)>)
        ensures
            match r {
                Some((label, correction)) => attribute_site(*item, *a) == Some((label@, correction@)),
                None => attribute_site(*item, *a).is_none(),
            },
    {
        if Self::text_is(&a.last_segment, "test") {
            let mut correction = String::from_str("move ");
            correction.append(Self::quoted_item(item).as_str());
            correction.append(" into the matching file under tests/");
            Some((Self::labelled("test ", item), correction))
        } else if Self::text_is(&a.last_segment, "cfg") && Self::text_is(&a.list_head, "test") {
            if item.kind == ItemKind::Mod {
                Some((
                    Self::labelled("test module ", item),
                    String::from_str("move its tests into the matching file under tests/ and delete the module"),
                ))
            } else {
                Some((
                    Self::labelled("test-only item ", item),
                    String::from_str("move it into the matching file under tests/"),
                ))
            }
        } else if Self::text_is(&a.last_segment, "cfg_attr") && Self::text_is(&a.list_head, "test") {
            Some((
                Self::labelled("`#[cfg_attr(test, ...)]` on ", item),
                String::from_str("remove it, so the item means the same thing to its tests as to the shipped build"),
            ))
        } else {
            None
        }
    }

    fn site_offence(&self, file: &SourceFile, line: usize, label: String, correction: String) -> (o: Offence)
        ensures
            o@ == site_offence(file@, (line as nat, label@, correction@)),
    {
        let mut description = label.clone();
        description.append(" does not belong in the source tree");
        Offence::new(file.relative_path(), line, self.name(), description, correction).with_subject(label.as_str())
    }

    pub fn check_outline(&self, file: &SourceFile, items: &Vec<ItemOutline>) -> (r: Vec<Offence>)
        ensures
            offence_views(r@) == test_free_offences(file@, items@),
    {
        let mut r: Vec<Offence> = Vec::new();
        let mut i: usize = 0;
        assert(items@.take(0) =~= Seq::<ItemOutline>::empty());
        assert(offence_views(r@) =~= test_free_offences(file@, items@.take(0)));
        while i < items.len()
            invariant
                i <= items.len(),
                offence_views(r@) == test_free_offences(file@, items@.take(i as int)),
            decreases items.len() - i,
        {
            assert(items@.take(i + 1).drop_last() == items@.take(i as int));
            assert(items@.take(i + 1).last() == items@[i as int]);
            let item = &items[i];
            let attrs = &item.attributes;
            let ghost head = offence_views(r@);
            let mut j: usize = 0;
            assert(attrs@.take(0) =~= Seq::<AttributeOutline>::empty());
            assert(head + attribute_sites(*item, attrs@.take(0)).map_values(
                |site: (nat, Seq<char>, Seq<char>)| site_offence(file@, site),
            ) =~= head);
            while j < attrs.len()
                invariant
                    j <= attrs.len(),
                    offence_views(r@) == head + attribute_sites(*item, attrs@.take(j as int)).map_values(
                        |site: (nat, Seq<char>, Seq<char>)| site_offence(file@, site),
                    ),
                decreases attrs.len() - j,
            {
                assert(attrs@.take(j + 1).drop_last() == attrs@.take(j as int));
                assert(attrs@.take(j + 1).last() == attrs@[j as int]);
                match Self::attribute_site(item, &attrs[j]) {
                    Some((label, correction)) => {
                        let o = self.site_offence(file, item.first_line, label, correction);
                        let ghost before = r@;
                        r.push(o);
                        assert(offence_views(r@) =~= offence_views(before).push(o@));
                        assert(offence_views(r@) =~= head + attribute_sites(*item, attrs@.take(j + 1)).map_values(
                            |site: (nat, Seq<char>, Seq<char>)| site_offence(file@, site),
                        ));
                    },
                    None => {},
                }
                j = j + 1;
            }
            assert(attrs@.take(attrs.len() as int) == attrs@);
            assert(test_free_offences(file@, items@.take(i + 1)) =~= test_free_offences(file@, items@.take(i as int))
                + attribute_sites(items@[i as int], items@[i as int].attributes@).map_values(
                |site: (nat, Seq<char>, Seq<char>)| site_offence(file@, site),
            ));
            i = i + 1;
        }
        assert(items@.take(items.len() as int) == items@);
        r
    }

    pub fn check(&self, file: &SourceFile) -> (r: Vec<Offence>)
        ensures
            starts_with(file@.path, "tests/"@) ==> r@.len() == 0,
            parse_failure(crate::syntax::parsed_text(file@.lines)).is_some() ==> r@.len() == 0,
            !starts_with(file@.path, "tests/"@) && parse_failure(crate::syntax::parsed_text(file@.lines)).is_none()
                ==> offence_views(r@) == test_free_offences(file@, crate::syntax::syntax_outline(crate::syntax::parsed_text(file@.lines))),
    {
        if !Self::applies_to(file) {
            return Vec::new();
        }
        match file_outline(file) {
            Some(items) => self.check_outline(file, &items),
            None => Vec::new(),
        }
    }
}

} // verus!
