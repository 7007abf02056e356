//! What a registry file holds that a registry should not, and which modules
//! it declares.
//!
//! A registry -- a `lib.rs`, `mod.rs` or `tests/all_tests.rs` -- is a list of
//! the modules beneath it. Only its top-level items are judged: whatever an
//! inline module holds is part of that module, which is itself the stray.
use vstd::prelude::*;
use crate::source_file::{rejoined, SourceFile};
use crate::syntax::{file_outline, name_text, parse_failure, ItemKind, ItemOutline};
use crate::text::{lemma_views_push, same_text, views};

verus! {

/// Which declarations a registry may hold.
#[derive(Clone, Copy, Debug, PartialEq, Eq, Structural)]
pub enum RegistryPolicy {
    /// A registry under `src/`: module declarations of any visibility, and
    /// `extern crate alloc;`.
    Source,
    /// A registry under `tests/`: `pub mod` declarations only.
    Tests,
}

/// An item's name in backquotes.
pub open spec fn quoted_name(item: ItemOutline) -> Seq<char> {
    "`"@ + name_text(item) + "`"@
}

/// What a registry may hold: a module declared by name rather than written
/// out in place -- `pub` under `tests/` -- and, under `src/`, `extern crate
/// alloc;`.
pub open spec fn allowed(item: ItemOutline, policy: RegistryPolicy) -> bool {
    ||| item.kind == ItemKind::Mod && !item.inline && (item.is_public || policy == RegistryPolicy::Source)
    ||| item.kind == ItemKind::ExternCrate && policy == RegistryPolicy::Source && name_text(item) == "alloc"@
}

/// How a report names an item that does not belong.
pub open spec fn stray_label(item: ItemOutline) -> Seq<char> {
    if item.kind == ItemKind::Use {
        "the import `use "@ + item.use_tree@ + ";`"@
    } else if item.kind == ItemKind::Fn {
        "the function "@ + quoted_name(item)
    } else if item.kind == ItemKind::Mod && item.inline {
        "the inline module "@ + quoted_name(item)
    } else if item.kind == ItemKind::Mod {
        "the private module "@ + quoted_name(item)
    } else if item.kind == ItemKind::ExternCrate {
        "the `extern crate "@ + name_text(item) + ";`"@
    } else if item.kind == ItemKind::Struct {
        "the struct "@ + quoted_name(item)
    } else if item.kind == ItemKind::Enum {
        "the enum "@ + quoted_name(item)
    } else if item.kind == ItemKind::Trait {
        "the trait "@ + quoted_name(item)
    } else if item.kind == ItemKind::Impl {
        "the impl block for "@ + quoted_name(item)
    } else if item.kind == ItemKind::Const {
        "the constant "@ + quoted_name(item)
    } else if item.kind == ItemKind::Static {
        "the static "@ + quoted_name(item)
    } else if item.kind == ItemKind::Type {
        "the type alias "@ + quoted_name(item)
    } else {
        "an item the registry cannot hold"@
    }
}

/// The top-level items that do not belong, in the order the file states them.
pub open spec fn strays_of(items: Seq<ItemOutline>, policy: RegistryPolicy) -> Seq<(nat, Seq<char>)>
    decreases items.len(),
{
    if items.len() == 0 {
        Seq::<(nat, Seq<char>)>::empty()
    } else {
        let earlier = strays_of(items.drop_last(), policy);
        let item = items.last();
        if item.depth == 0 && !allowed(item, policy) {
            earlier.push((item.first_line as nat, stray_label(item)))
        } else {
            earlier
        }
    }
}

/// The modules the file declares by name at its top level, in order.
pub open spec fn declared_modules(items: Seq<ItemOutline>) -> Seq<Seq<char>>
    decreases items.len(),
{
    if items.len() == 0 {
        Seq::<Seq<char>>::empty()
    } else {
        let earlier = declared_modules(items.drop_last());
        let item = items.last();
        if item.depth == 0 && item.kind == ItemKind::Mod && !item.inline {
            earlier.push(name_text(item))
        } else {
            earlier
        }
    }
}

pub open spec fn stray_views(v: Seq<(usize, String)>) -> Seq<(nat, Seq<char>)> {
    v.map_values(|p: (usize, String)| (p.0 as nat, p.1@))
}

pub struct RegistryParser;

impl RegistryParser {
    pub fn allowed(item: &ItemOutline, policy: RegistryPolicy) -> (b: bool)
        ensures
            b == allowed(*item, policy),
    {
        if item.kind == ItemKind::Mod {
            !item.inline && (item.is_public || policy == RegistryPolicy::Source)
        } else if item.kind == ItemKind::ExternCrate && policy == RegistryPolicy::Source {
            same_text(item.name_or_empty().as_str(), "alloc")
        } else {
            false
        }
    }

    fn quoted_name(item: &ItemOutline) -> (r: String)
        ensures
            r@ == quoted_name(*item),
    {
        let mut r = String::from_str("`");
        r.append(item.name_or_empty().as_str());
        r.append("`");
        r
    }

    fn prefixed(prefix: &str, item: &ItemOutline) -> (r: String)
        ensures
            r@ == prefix@ + quoted_name(*item),
    {
        let mut r = String::from_str(prefix);
        r.append(Self::quoted_name(item).as_str());
        r
    }

    pub fn label(item: &ItemOutline) -> (r: String)
        ensures
            r@ == stray_label(*item),
    {
        if item.kind == ItemKind::Use {
            let mut r = String::from_str("the import `use ");
            r.append(item.use_tree.as_str());
            r.append(";`");
            r
        } else if item.kind == ItemKind::Fn {
            Self::prefixed("the function ", item)
        } else if item.kind == ItemKind::Mod && item.inline {
            Self::prefixed("the inline module ", item)
        } else if item.kind == ItemKind::Mod {
            Self::prefixed("the private module ", item)
        } else if item.kind == ItemKind::ExternCrate {
            let mut r = String::from_str("the `extern crate ");
            r.append(item.name_or_empty().as_str());
            r.append(";`");
            r
        } else if item.kind == ItemKind::Struct {
            Self::prefixed("the struct ", item)
        } else if item.kind == ItemKind::Enum {
            Self::prefixed("the enum ", item)
        } else if item.kind == ItemKind::Trait {
            Self::prefixed("the trait ", item)
        } else if item.kind == ItemKind::Impl {
            Self::prefixed("the impl block for ", item)
        } else if item.kind == ItemKind::Const {
            Self::prefixed("the constant ", item)
        } else if item.kind == ItemKind::Static {
            Self::prefixed("the static ", item)
        } else if item.kind == ItemKind::Type {
            Self::prefixed("the type alias ", item)
        } else {
            String::from_str("an item the registry cannot hold")
        }
    }

    /// Each top-level item that does not belong, as its line and label.
    pub fn strays_in(items: &Vec<ItemOutline>, policy: RegistryPolicy) -> (r: Vec<(usize, String)>)
        ensures
            stray_views(r@) == strays_of(items@, policy),
    {
        let mut r: Vec<(usize, String)> = Vec::new();
        let mut i: usize = 0;
        assert(items@.take(0) =~= Seq::<ItemOutline>::empty());
        while i < items.len()
            invariant
                i <= items.len(),
                stray_views(r@) == strays_of(items@.take(i as int), policy),
            decreases items.len() - i,
        {
            assert(items@.take(i + 1).drop_last() == items@.take(i as int));
            assert(items@.take(i + 1).last() == items@[i as int]);
            let item = &items[i];
            if item.depth == 0 && !Self::allowed(item, policy) {
                let stray = (item.first_line, Self::label(item));
                r.push(stray);
                assert(stray_views(r@) =~= stray_views(r@.drop_last()).push((stray.0 as nat, stray.1@)));
            }
            i = i + 1;
        }
        assert(items@.take(items.len() as int) == items@);
        r
    }

    /// The strays of a file, or nothing where it does not parse.
    pub fn strays(file: &SourceFile, policy: RegistryPolicy) -> (r: Option<Vec<(usize, String)>>)
        ensures
            r.is_none() <==> parse_failure(crate::syntax::parsed_text(file@.lines)).is_some(),
            r matches Some(found) ==> stray_views(found@) == strays_of(crate::syntax::syntax_outline(crate::syntax::parsed_text(file@.lines)), policy),
    {
        match file_outline(file) {
            Some(items) => Some(Self::strays_in(&items, policy)),
            None => None,
        }
    }

    /// The modules declared by name at the top level, in order.
    pub fn declared_in(items: &Vec<ItemOutline>) -> (r: Vec<String>)
        ensures
            views(r@) == declared_modules(items@),
    {
        let mut r: Vec<String> = Vec::new();
        let mut i: usize = 0;
        assert(items@.take(0) =~= Seq::<ItemOutline>::empty());
        while i < items.len()
            invariant
                i <= items.len(),
                views(r@) == declared_modules(items@.take(i as int)),
            decreases items.len() - i,
        {
            assert(items@.take(i + 1).drop_last() == items@.take(i as int));
            assert(items@.take(i + 1).last() == items@[i as int]);
            let item = &items[i];
            if item.depth == 0 && item.kind == ItemKind::Mod && !item.inline {
                let name = item.name_or_empty();
                proof {
                    lemma_views_push(r@, name);
                }
                r.push(name);
            }
            i = i + 1;
        }
        assert(items@.take(items.len() as int) == items@);
        r
    }
}

} // verus!
