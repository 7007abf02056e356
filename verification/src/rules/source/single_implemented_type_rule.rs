//! A source file has one subject: at most one type that carries behaviour.
//!
//! Plain data declarations are not subjects, so a file may hold as many
//! structs and enums without impl blocks as its subject needs. What it may not
//! hold is a second type with an impl block, because then the file has two
//! things to be named after. The first type implemented is taken as the
//! subject and every later one is reported, so the offence names the type to
//! move. `tests/` is exempt: a test file legitimately holds several fakes that
//! each carry an impl block.
use vstd::prelude::*;
use crate::offence::{all_by, offence_views, plain, Offence, OffenceView};
use crate::source_file::{rejoined, SourceFile, SourceFileView};
use crate::syntax::{file_outline, name_text, parse_failure, ItemKind, ItemOutline};
use crate::text::{contains_text, has_prefix, lemma_views_push, same_text, starts_with, string_of, views};

verus! {

pub open spec fn single_type_rule_name() -> Seq<char> {
    "single-implemented-type"@
}

pub open spec fn is_upper(c: char) -> bool {
    'A' <= c && c <= 'Z'
}

pub open spec fn lower(c: char) -> char {
    if is_upper(c) { ((c as u32) + 32) as char } else { c }
}

/// A type's name as a file is named: each capital lowered, with an
/// underscore before every capital but a leading one.
pub open spec fn snake(s: Seq<char>) -> Seq<char>
    decreases s.len(),
{
    if s.len() == 0 {
        Seq::<char>::empty()
    } else {
        snake(s.drop_last()) + (if is_upper(s.last()) && s.len() > 1 { seq!['_'] } else { Seq::<char>::empty() })
            + seq![lower(s.last())]
    }
}

pub open spec fn suggested_file(name: Seq<char>) -> Seq<char> {
    snake(name) + ".rs"@
}

/// The file declares a struct or an enum of that name at its top level.
pub open spec fn declares(all: Seq<ItemOutline>, name: Seq<char>) -> bool {
    exists|k: int| 0 <= k < all.len() && all[k].depth == 0 && (all[k].kind == ItemKind::Struct
        || all[k].kind == ItemKind::Enum) && #[trigger] name_text(all[k]) == name
}

/// Each struct or enum the file both declares and implements at the top
/// level, in the order its first impl block appears among `items`, with that
/// block's first line.
pub open spec fn implemented_types(all: Seq<ItemOutline>, items: Seq<ItemOutline>) -> Seq<(Seq<char>, nat)>
    decreases items.len(),
{
    if items.len() == 0 {
        Seq::<(Seq<char>, nat)>::empty()
    } else {
        let earlier = implemented_types(all, items.drop_last());
        let item = items.last();
        match item.name {
            Some(name) if item.depth == 0 && item.kind == ItemKind::Impl && declares(all, name@)
                && !(exists|k: int| 0 <= k < earlier.len() && #[trigger] earlier[k].0 == name@) => earlier.push(
                (name@, item.first_line as nat),
            ),
            _ => earlier,
        }
    }
}

pub open spec fn second_type_offence(file: SourceFileView, subject: Seq<char>, extra: (Seq<char>, nat)) -> OffenceView {
    plain(
        file.path,
        extra.1,
        single_type_rule_name(),
        "`"@ + extra.0 + "` is a second type with an impl block; this file's subject is already `"@ + subject + "`"@,
        "move `"@ + extra.0 + "` and its impl blocks into "@ + suggested_file(extra.0),
    ).about(extra.0)
}

pub open spec fn single_type_offences(file: SourceFileView, items: Seq<ItemOutline>) -> Seq<OffenceView> {
    let found = implemented_types(items, items);
    if found.len() == 0 {
        Seq::<OffenceView>::empty()
    } else {
        found.skip(1).map_values(|extra: (Seq<char>, nat)| second_type_offence(file, found[0].0, extra))
    }
}

/// Every offence the rule finds is reported under its name.
pub proof fn lemma_single_type_by_rule(file: SourceFileView, items: Seq<ItemOutline>)
    ensures
        all_by(single_type_offences(file, items), single_type_rule_name()),
{
}

pub open spec fn type_views(v: Seq<(String, usize)>) -> Seq<(Seq<char>, nat)> {
    v.map_values(|t: (String, usize)| (t.0@, t.1 as nat))
}

pub fn lowered(c: char) -> (r: char)
    ensures
        r == lower(c),
{
    if 'A' <= c && c <= 'Z' {
        let code: u32 = c as u32;
        let shifted: u32 = code + 32;
        assert(shifted <= 0x7f);
        shifted as u8 as char
    } else {
        c
    }
}

pub fn snake_case(s: &str) -> (r: String)
    ensures
        r@ == snake(s@),
{
    let v = crate::text::chars_of(s);
    let mut out: Vec<char> = Vec::new();
    let mut i: usize = 0;
    while i < v.len()
        invariant
            i <= v.len(),
            v@ == s@,
            out@ == snake(s@.take(i as int)),
        decreases v.len() - i,
    {
        assert(s@.take(i + 1).drop_last() == s@.take(i as int));
        assert(s@.take(i + 1).last() == s@[i as int]);
        let c = v[i];
        if 'A' <= c && c <= 'Z' && i > 0 {
            out.push('_');
        }
        out.push(lowered(c));
        assert(out@ =~= snake(s@.take(i + 1)));
        i = i + 1;
    }
    assert(s@.take(v.len() as int) == s@);
    string_of(out.as_slice())
}

pub struct SingleImplementedTypeRule;

impl SingleImplementedTypeRule {
    pub const TESTS_ROOT: &'static str = "tests/";

    pub fn new() -> (r: SingleImplementedTypeRule) {
        SingleImplementedTypeRule
    }

    pub fn name(&self) -> (r: &'static str)
        ensures
            r@ == single_type_rule_name(),
    {
        "single-implemented-type"
    }

    pub fn applies_to(file: &SourceFile) -> (b: bool)
        ensures
            b == !starts_with(file@.path, "tests/"@),
    {
        !has_prefix(file.relative_path(), Self::TESTS_ROOT)
    }

    fn known(found: &Vec<(String, usize)>, name: &str) -> (b: bool)
        ensures
            b == exists|k: int| 0 <= k < found@.len() && #[trigger] type_views(found@)[k].0 == name@,
    {
        let mut i: usize = 0;
        while i < found.len()
            invariant
                i <= found.len(),
                forall|k: int| 0 <= k < i ==> #[trigger] type_views(found@)[k].0 != name@,
            decreases found.len() - i,
        {
            if same_text(found[i].0.as_str(), name) {
                assert(type_views(found@)[i as int].0 == name@);
                return true;
            }
            i = i + 1;
        }
        false
    }

    /// The structs and enums declared at the top level.
    pub fn declared_types(items: &Vec<ItemOutline>) -> (r: Vec<String>)
        ensures
            forall|t: Seq<char>| #[trigger] views(r@).contains(t) <==> declares(items@, t),
    {
        let mut r: Vec<String> = Vec::new();
        let mut i: usize = 0;
        while i < items.len()
            invariant
                i <= items.len(),
                forall|t: Seq<char>| #[trigger] views(r@).contains(t) <==> exists|k: int| 0 <= k < i
                    && items@[k].depth == 0 && (items@[k].kind == ItemKind::Struct || items@[k].kind == ItemKind::Enum)
                    && #[trigger] name_text(items@[k]) == t,
            decreases items.len() - i,
        {
            let item = &items[i];
            if item.depth == 0 && (item.kind == ItemKind::Struct || item.kind == ItemKind::Enum) {
                let name = item.name_or_empty();
                let ghost before = views(r@);
                proof {
                    lemma_views_push(r@, name);
                }
                r.push(name);
                assert forall|t: Seq<char>| #[trigger] views(r@).contains(t) <==> exists|k: int| 0 <= k < i + 1
                    && items@[k].depth == 0 && (items@[k].kind == ItemKind::Struct || items@[k].kind == ItemKind::Enum)
                    && #[trigger] name_text(items@[k]) == t by {
                    assert(views(r@) == before.push(name@));
                    assert(name_text(items@[i as int]) == name@);
                    if t == name@ {
                        assert(views(r@)[before.len() as int] == t);
                    } else {
                        assert(views(r@).contains(t) <==> before.contains(t)) by {
                            if views(r@).contains(t) {
                                let j = choose|j: int| 0 <= j < views(r@).len() && views(r@)[j] == t;
                                assert(before[j] == t);
                            }
                            if before.contains(t) {
                                let j = choose|j: int| 0 <= j < before.len() && before[j] == t;
                                assert(views(r@)[j] == t);
                            }
                        }
                    }
                }
            }
            i = i + 1;
        }
        r
    }

    /// The types declared and implemented at the top level, each once, in
    /// order.
    pub fn implemented_types(items: &Vec<ItemOutline>) -> (r: Vec<(String, usize)>)
        ensures
            type_views(r@) == implemented_types(items@, items@),
    {
        let declared = Self::declared_types(items);
        let mut r: Vec<(String, usize)> = Vec::new();
        let mut i: usize = 0;
        assert(items@.take(0) =~= Seq::<ItemOutline>::empty());
        while i < items.len()
            invariant
                i <= items.len(),
                forall|t: Seq<char>| #[trigger] views(declared@).contains(t) <==> declares(items@, t),
                type_views(r@) == implemented_types(items@, items@.take(i as int)),
            decreases items.len() - i,
        {
            assert(items@.take(i + 1).drop_last() == items@.take(i as int));
            assert(items@.take(i + 1).last() == items@[i as int]);
            let item = &items[i];
            if item.depth == 0 && item.kind == ItemKind::Impl {
                match &item.name {
                    Some(name) => {
                        if contains_text(&declared, name.as_str()) && !Self::known(&r, name.as_str()) {
                            let t = (name.clone(), item.first_line);
                            let ghost before = r@;
                            r.push(t);
                            assert(type_views(r@) =~= type_views(before).push((t.0@, t.1 as nat)));
                        }
                    },
                    None => {},
                }
            }
            i = i + 1;
        }
        assert(items@.take(items.len() as int) == items@);
        r
    }

    fn offence(&self, file: &SourceFile, subject: &str, extra: &(String, usize)) -> (o: Offence)
        ensures
            o@ == second_type_offence(file@, subject@, (extra.0@, extra.1 as nat)),
    {
        let name = extra.0.as_str();
        let mut description = String::from_str("`");
        description.append(name);
        description.append("` is a second type with an impl block; this file's subject is already `");
        description.append(subject);
        description.append("`");
        let mut correction = String::from_str("move `");
        correction.append(name);
        correction.append("` and its impl blocks into ");
        correction.append(snake_case(name).as_str());
        correction.append(".rs");
        assert(correction@ =~= "move `"@ + name@ + "` and its impl blocks into "@ + suggested_file(name@));
        Offence::new(file.relative_path(), extra.1, self.name(), description, correction).with_subject(name)
    }

    pub fn check_outline(&self, file: &SourceFile, items: &Vec<ItemOutline>) -> (r: Vec<Offence>)
        ensures
            offence_views(r@) == single_type_offences(file@, items@),
    {
        let found = Self::implemented_types(items);
        let mut r: Vec<Offence> = Vec::new();
        if found.len() == 0 {
            return r;
        }
        let subject = found[0].0.as_str();
        let ghost all = type_views(found@);
        let ghost expected = single_type_offences(file@, items@);
        let mut i: usize = 1;
        while i < found.len()
            invariant
                1 <= i <= found.len(),
                all == type_views(found@),
                all == implemented_types(items@, items@),
                subject@ == all[0].0,
                expected == single_type_offences(file@, items@),
                expected.len() == all.len() - 1,
                offence_views(r@) == expected.take(i - 1),
            decreases found.len() - i,
        {
            let o = self.offence(file, subject, &found[i]);
            assert(expected[i - 1] == second_type_offence(file@, all[0].0, all[i as int]));
            let ghost before = r@;
            r.push(o);
            assert(offence_views(r@) =~= offence_views(before).push(o@));
            assert(expected.take(i as int) =~= expected.take(i - 1).push(expected[i - 1]));
            i = i + 1;
        }
        assert(expected.take(found.len() - 1) =~= expected);
        r
    }

    pub fn check(&self, file: &SourceFile) -> (r: Vec<Offence>)
        ensures
            starts_with(file@.path, "tests/"@) ==> r@.len() == 0,
            parse_failure(crate::syntax::parsed_text(file@.lines)).is_some() ==> r@.len() == 0,
            !starts_with(file@.path, "tests/"@) && parse_failure(crate::syntax::parsed_text(file@.lines)).is_none()
                ==> offence_views(r@) == single_type_offences(file@, crate::syntax::syntax_outline(crate::syntax::parsed_text(file@.lines))),
    {
        if !Self::applies_to(file) {
            return Vec::new();
        }
        match file_outline(file) {
            Some(items) => self.check_outline(file, &items),
            None => Vec::new(),
        }
    }
}

} // verus!
