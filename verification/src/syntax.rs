//! The outline of a parsed Rust file, as the rules read it.
//!
//! Parsing is `syn`'s. What the rules need from the syntax tree -- which items
//! there are, where they sit, what they are called, which attributes they
//! carry -- is copied out into plain values here, item by item, through small
//! accessors; everything the rules then decide is decided over those values.
use vstd::prelude::*;
use crate::text::{chars_of, is_white_space, string_of};
use crate::token_finder::{calls_in, imports_in, render_use};

verus! {

/// Declares `syn::File` to Verus, which sees nothing inside a value of it.
#[verifier::external_type_specification]
#[verifier::external_body]
pub struct ExFile(syn::File);

/// Declares `syn::Item` to Verus, which sees nothing inside a value of it.
#[verifier::external_type_specification]
#[verifier::external_body]
pub struct ExItem(syn::Item);

/// Declares `syn::Attribute` to Verus, which sees nothing inside a value of it.
#[verifier::external_type_specification]
#[verifier::external_body]
pub struct ExAttribute(syn::Attribute);

/// Declares `syn::TraitItem` to Verus, which sees nothing inside a value of it.
#[verifier::external_type_specification]
#[verifier::external_body]
pub struct ExTraitItem(syn::TraitItem);

/// Declares `syn::ImplItem` to Verus, which sees nothing inside a value of it.
#[verifier::external_type_specification]
#[verifier::external_body]
pub struct ExImplItem(syn::ImplItem);

/// Declares `syn::Signature` to Verus, which sees nothing inside a value of it.
#[verifier::external_type_specification]
#[verifier::external_body]
pub struct ExSignature(syn::Signature);

/// Declares `syn::Visibility` to Verus, which sees nothing inside a value of it.
#[verifier::external_type_specification]
#[verifier::external_body]
pub struct ExVisibility(syn::Visibility);

/// Declares `proc_macro2::TokenStream` to Verus, which sees nothing inside a value of it.
#[verifier::external_type_specification]
#[verifier::external_body]
pub struct ExTokenStream(proc_macro2::TokenStream);

/// Declares `proc_macro2::TokenTree` to Verus, which sees nothing inside a value of it.
#[verifier::external_type_specification]
#[verifier::external_body]
pub struct ExTokenTree(proc_macro2::TokenTree);

/// Declares `syn::parse::ParseBuffer`, the input a parser reads from, to
/// Verus, which sees nothing inside a value of it.
#[verifier::external_type_specification]
#[verifier::external_body]
pub struct ExParseBuffer<'a>(syn::parse::ParseBuffer<'a>);

/// Declares `syn::Error` to Verus, which sees nothing inside a value of it.
#[verifier::external_type_specification]
#[verifier::external_body]
pub struct ExError(syn::Error);

/// Names what `syn` says of a text it refuses as a file, through
/// `syn::parse::Parser::parse_str`: the line its error's span starts on and
/// the error's message; nothing for a text it accepts.
pub uninterp spec fn parse_failure(text: Seq<char>) -> Option<(nat, Seq<char>)>;

/// Names the outline `outline_in` copies out of the file `syn` parses from a
/// text, through `syn::parse::Parser::parse_str`.
pub uninterp spec fn syntax_outline(text: Seq<char>) -> Seq<ItemOutline>;

/// Calls `syn::parse::Parser::parse_str` with `outline_in` as the parser, so
/// that the file `syn` reads from the text is copied out into an outline.
/// A refusal is handed back as the line the error's span starts on and the
/// error's `Display` text. Both results depend on the text alone and are
/// stated through the names `parse_failure` and `syntax_outline`.
#[verifier::external_body]
fn parse_outline(text: &str) -> (r: Result<Vec<ItemOutline>, (usize, String)>)
    ensures
        match r {
            Ok(items) => parse_failure(text@).is_none() && items@ == syntax_outline(text@),
            Err((line, message)) => parse_failure(text@) == Some((line as nat, message@)),
        },
{
    match syn::parse::Parser::parse_str(outline_in, text) {
        Ok(items) => Ok(items),
        Err(error) => Err((error.span().start().line, error.to_string())),
    }
}

/// Reads a file from a parser's input through `ParseBuffer::parse` with
/// `syn::File`. Nothing is claimed of it.
#[verifier::external_body]
fn file_in(input: syn::parse::ParseStream) -> Result<syn::File, syn::Error> {
    input.parse::<syn::File>()
}

/// The position of the first character at or after `i` that is not white
/// space.
pub open spec fn next_solid(s: Seq<char>, i: int) -> int
    decreases s.len() - i,
{
    if i >= s.len() || !is_white_space(s[i]) {
        i
    } else {
        next_solid(s, i + 1)
    }
}

/// The position of the first newline at or after `i`; the length where
/// there is none.
pub open spec fn newline_from(s: Seq<char>, i: int) -> int
    decreases s.len() - i,
{
    if i >= s.len() || s[i] == '\n' {
        i
    } else {
        newline_from(s, i + 1)
    }
}

/// A first line that starts with `#!` and does not go on, after white space,
/// into `[` is a shebang line rather than an inner attribute.
pub open spec fn opens_with_shebang(s: Seq<char>) -> bool {
    &&& s.len() >= 2 && s[0] == '#' && s[1] == '!'
    &&& !(next_solid(s, 2) < s.len() && s[next_solid(s, 2)] == '[')
}

/// The text a file is parsed as: a leading byte order mark dropped, and a
/// shebang line emptied, so every later line keeps its number.
pub open spec fn prepared(text: Seq<char>) -> Seq<char> {
    let t = crate::source_file::without_bom(text);
    if opens_with_shebang(t) {
        t.skip(newline_from(t, 0))
    } else {
        t
    }
}

/// The text a file's lines are parsed as.
pub open spec fn parsed_text(lines: Seq<Seq<char>>) -> Seq<char> {
    prepared(crate::source_file::rejoined(lines))
}

/// The outline `syn` gives of a file's lines.
pub open spec fn file_syntax(file: crate::source_file::SourceFileView) -> Seq<ItemOutline> {
    syntax_outline(parsed_text(file.lines))
}

/// The text a file is parsed as.
pub fn prepare(text: &str) -> (r: String)
    ensures
        r@ == prepared(text@),
{
    let chars = chars_of(text);
    let start: usize = if chars.len() > 0 && chars[0] == '\u{feff}' { 1 } else { 0 };
    let ghost t = crate::source_file::without_bom(text@);
    assert(t =~= chars@.skip(start as int));
    let mut from = start;
    if chars.len() >= start + 2 && chars[start] == '#' && chars[start + 1] == '!' {
        let mut j: usize = start + 2;
        while j < chars.len() && crate::text::is_white_space_char(chars[j])
            invariant
                start + 2 <= j <= chars.len(),
                t =~= chars@.skip(start as int),
                next_solid(t, 2) == next_solid(t, j - start),
            decreases chars.len() - j,
        {
            j = j + 1;
        }
        if !(j < chars.len() && chars[j] == '[') {
            let mut k: usize = start;
            while k < chars.len() && chars[k] != '\n'
                invariant
                    start <= k <= chars.len(),
                    t =~= chars@.skip(start as int),
                    newline_from(t, 0) == newline_from(t, k - start),
                decreases chars.len() - k,
            {
                k = k + 1;
            }
            from = k;
        }
    }
    let mut kept: Vec<char> = Vec::new();
    let mut i: usize = from;
    while i < chars.len()
        invariant
            from <= i <= chars.len(),
            kept@ =~= chars@.subrange(from as int, i as int),
        decreases chars.len() - i,
    {
        kept.push(chars[i]);
        i = i + 1;
    }
    assert(kept@ =~= prepared(text@));
    string_of(kept.as_slice())
}

/// The kinds of top-level item the rules tell apart.
#[derive(Clone, Copy, Debug, PartialEq, Eq, Structural)]
pub enum ItemKind {
    Use,
    Const,
    Static,
    Fn,
    Mod,
    Struct,
    Enum,
    Trait,
    Type,
    Impl,
    ExternCrate,
    Other,
}

/// What a token is, with each group opened and closed in place.
#[derive(Clone, Copy, Debug, PartialEq, Eq, Structural)]
pub enum TokenKind {
    Ident,
    Punct,
    Literal,
    /// A `(` opening a group.
    OpenParen,
    /// A `[`, `{` or invisible delimiter opening a group.
    OpenOther,
    /// The end of the innermost open group.
    Close,
}

/// One token of a token stream: its kind, its text for an identifier or a
/// punctuation character, and the line it starts on.
pub struct TokenOutline {
    pub kind: TokenKind,
    pub text: String,
    pub line: usize,
}

/// A call written in a function body: the path called, segment by segment,
/// the line of its last segment, and how many arguments it passes.
pub struct CallOutline {
    pub path: Vec<String>,
    pub line: usize,
    pub arity: usize,
}

/// One attribute: the last segment of its path, and for a `name = "value"`
/// attribute with a single-segment name, that name and the string value.
pub struct AttributeOutline {
    pub last_segment: Option<String>,
    pub key: Option<String>,
    pub text_value: Option<String>,
    /// For a `name(...)` attribute, the identifier its arguments start with.
    pub list_head: Option<String>,
}

/// One method a trait declares or an impl block defines.
pub struct MethodOutline {
    pub name: String,
    pub line: usize,
    pub has_default: bool,
    /// Declared `pub`.
    pub is_public: bool,
    /// How many arguments a call passes it, the receiver not counted.
    pub arity: usize,
}

/// One item of a file, at some depth of inline modules.
pub struct ItemOutline {
    pub kind: ItemKind,
    /// 0 for a top-level item, one more for each inline module around it.
    pub depth: usize,
    /// The item's own name; for an impl block, the name of the type it
    /// implements, where that is a path.
    pub name: Option<String>,
    pub first_line: usize,
    pub last_line: usize,
    /// The line of the item's identifier, where it has one.
    pub name_line: usize,
    /// Attributes, for functions and modules.
    pub attributes: Vec<AttributeOutline>,
    /// The methods of a trait.
    pub methods: Vec<MethodOutline>,
    /// The lines a function's body spans.
    pub body: Option<(usize, usize)>,
    /// The line spans of the literals inside a function's body.
    pub literals: Vec<(usize, usize)>,
    /// Declared `pub`.
    pub is_public: bool,
    /// A module written out in place, `mod name { ... }`.
    pub inline: bool,
    /// For a function, how many arguments a call passes it, the receiver
    /// not counted.
    pub arity: usize,
    /// For a `use` item, the names it brings into scope.
    pub imports: Vec<String>,
    /// For a `use` item, its tree as source text, such as `std::fmt`.
    pub use_tree: String,
    /// The calls written in a function's body, or in the bodies of an impl
    /// block's methods.
    pub calls: Vec<CallOutline>,
}

/// Borrows `syn::File::items`: the file's top-level items in source order.
/// Nothing is claimed of them.
#[verifier::external_body]
fn file_items(file: &syn::File) -> &Vec<syn::Item> {
    &file.items
}

/// Tells the variants of `syn::Item` apart, one arm each. Nothing is claimed of
/// which variant an item is.
#[verifier::external_body]
fn item_kind(item: &syn::Item) -> ItemKind {
    match item {
        syn::Item::Use(_) => ItemKind::Use,
        syn::Item::Const(_) => ItemKind::Const,
        syn::Item::Static(_) => ItemKind::Static,
        syn::Item::Fn(_) => ItemKind::Fn,
        syn::Item::Mod(_) => ItemKind::Mod,
        syn::Item::Struct(_) => ItemKind::Struct,
        syn::Item::Enum(_) => ItemKind::Enum,
        syn::Item::Trait(_) => ItemKind::Trait,
        syn::Item::Type(_) => ItemKind::Type,
        syn::Item::Impl(_) => ItemKind::Impl,
        syn::Item::ExternCrate(_) => ItemKind::ExternCrate,
        _ => ItemKind::Other,
    }
}

/// Reads the `ident` field of the `syn::Item` variants that have one, through
/// `Ident::to_string`. Nothing is claimed of the name.
#[verifier::external_body]
fn item_ident(item: &syn::Item) -> Option<String> {
    match item {
        syn::Item::Const(inner) => Some(inner.ident.to_string()),
        syn::Item::Enum(inner) => Some(inner.ident.to_string()),
        syn::Item::Fn(inner) => Some(inner.sig.ident.to_string()),
        syn::Item::Mod(inner) => Some(inner.ident.to_string()),
        syn::Item::Static(inner) => Some(inner.ident.to_string()),
        syn::Item::Struct(inner) => Some(inner.ident.to_string()),
        syn::Item::Trait(inner) => Some(inner.ident.to_string()),
        syn::Item::Type(inner) => Some(inner.ident.to_string()),
        syn::Item::ExternCrate(inner) => Some(inner.ident.to_string()),
        _ => None,
    }
}

/// For a `syn::ItemImpl` whose self type is a path, reads its last segment's
/// identifier through `Ident::to_string`. Nothing is claimed of it.
#[verifier::external_body]
fn implemented_type(item: &syn::Item) -> Option<String> {
    match item {
        syn::Item::Impl(inner) => match &*inner.self_ty {
            syn::Type::Path(path) => path.path.segments.last().map(|segment| segment.ident.to_string()),
            _ => None,
        },
        _ => None,
    }
}

/// Reads the start and end lines of `syn::spanned::Spanned::span` for the item.
/// Nothing is claimed of the lines.
#[verifier::external_body]
fn item_lines(item: &syn::Item) -> (usize, usize) {
    let span = syn::spanned::Spanned::span(item);
    (span.start().line, span.end().line)
}

/// Reads the start line of the identifier's span for a function, module or
/// trait. Nothing is claimed of it.
#[verifier::external_body]
fn ident_line(item: &syn::Item) -> Option<usize> {
    match item {
        syn::Item::Fn(inner) => Some(inner.sig.ident.span().start().line),
        syn::Item::Mod(inner) => Some(inner.ident.span().start().line),
        syn::Item::Trait(inner) => Some(inner.ident.span().start().line),
        _ => None,
    }
}

/// Borrows the `attrs` field of the `syn::Item` variants that carry attributes.
/// Nothing is claimed of them.
#[verifier::external_body]
fn item_attributes(item: &syn::Item) -> Option<&Vec<syn::Attribute>> {
    match item {
        syn::Item::Const(inner) => Some(&inner.attrs),
        syn::Item::Enum(inner) => Some(&inner.attrs),
        syn::Item::ExternCrate(inner) => Some(&inner.attrs),
        syn::Item::Fn(inner) => Some(&inner.attrs),
        syn::Item::Impl(inner) => Some(&inner.attrs),
        syn::Item::Mod(inner) => Some(&inner.attrs),
        syn::Item::Static(inner) => Some(&inner.attrs),
        syn::Item::Struct(inner) => Some(&inner.attrs),
        syn::Item::Trait(inner) => Some(&inner.attrs),
        syn::Item::Type(inner) => Some(&inner.attrs),
        syn::Item::Use(inner) => Some(&inner.attrs),
        _ => None,
    }
}

/// Borrows the `vis` field of the `syn::Item` variants that have one. Nothing
/// is claimed of it.
#[verifier::external_body]
fn item_visibility(item: &syn::Item) -> Option<&syn::Visibility> {
    match item {
        syn::Item::Const(inner) => Some(&inner.vis),
        syn::Item::Enum(inner) => Some(&inner.vis),
        syn::Item::ExternCrate(inner) => Some(&inner.vis),
        syn::Item::Fn(inner) => Some(&inner.vis),
        syn::Item::Mod(inner) => Some(&inner.vis),
        syn::Item::Static(inner) => Some(&inner.vis),
        syn::Item::Struct(inner) => Some(&inner.vis),
        syn::Item::Trait(inner) => Some(&inner.vis),
        syn::Item::Type(inner) => Some(&inner.vis),
        syn::Item::Use(inner) => Some(&inner.vis),
        _ => None,
    }
}

/// Tells `syn::Visibility::Public` apart from the other variants. Nothing is
/// claimed of which it is.
#[verifier::external_body]
fn is_public_visibility(vis: &syn::Visibility) -> bool {
    match vis {
        syn::Visibility::Public(_) => true,
        _ => false,
    }
}

/// Borrows the `sig` field of a `syn::ItemFn`. Nothing is claimed of it.
#[verifier::external_body]
fn item_signature(item: &syn::Item) -> Option<&syn::Signature> {
    match item {
        syn::Item::Fn(inner) => Some(&inner.sig),
        _ => None,
    }
}

/// Calls `Punctuated::len` on a signature's inputs, the receiver included.
/// Nothing is claimed of the count.
#[verifier::external_body]
fn input_count(sig: &syn::Signature) -> usize {
    sig.inputs.len()
}

/// Calls `syn::Signature::receiver` and says whether it found one. Nothing is
/// claimed of the answer.
#[verifier::external_body]
fn has_receiver(sig: &syn::Signature) -> bool {
    sig.receiver().is_some()
}

/// Borrows the `items` field of a `syn::ItemImpl`. Nothing is claimed of them.
#[verifier::external_body]
fn impl_items(item: &syn::Item) -> Option<&Vec<syn::ImplItem>> {
    match item {
        syn::Item::Impl(inner) => Some(&inner.items),
        _ => None,
    }
}

/// For a `syn::ImplItem::Fn`, borrows its signature and visibility and copies
/// its block out through `quote::ToTokens::to_token_stream`. Nothing is claimed
/// of them.
#[verifier::external_body]
fn impl_method(item: &syn::ImplItem) -> Option<(&syn::Signature, &syn::Visibility, proc_macro2::TokenStream)> {
    match item {
        syn::ImplItem::Fn(method) => Some((&method.sig, &method.vis, quote::ToTokens::to_token_stream(&method.block))),
        _ => None,
    }
}

/// Reads a signature's identifier through `Ident::to_string`, with the start
/// line of its span. Claims only that the name is not empty, as no `Ident`
/// is; which name and line they are, is not claimed.
#[verifier::external_body]
fn signature_name(sig: &syn::Signature) -> (r: (String, usize))
    ensures
        r.0@.len() > 0,
{
    (sig.ident.to_string(), sig.ident.span().start().line)
}

/// Copies a `syn::ItemUse`'s tree out through
/// `quote::ToTokens::to_token_stream`. Nothing is claimed of the tokens.
#[verifier::external_body]
fn use_tokens(item: &syn::Item) -> Option<proc_macro2::TokenStream> {
    match item {
        syn::Item::Use(inner) => Some(quote::ToTokens::to_token_stream(&inner.tree)),
        _ => None,
    }
}

/// Clones the tokens of a `syn::Meta::List` attribute. Nothing is claimed of
/// them.
#[verifier::external_body]
fn attribute_list_tokens(attr: &syn::Attribute) -> Option<proc_macro2::TokenStream> {
    match &attr.meta {
        syn::Meta::List(list) => Some(list.tokens.clone()),
        _ => None,
    }
}

/// Reads a `proc_macro2::TokenTree::Ident` through `Ident::to_string`. Claims
/// only that the text is not empty: proc_macro2 refuses to make an empty
/// `Ident`. Which identifier it is, is not claimed.
#[verifier::external_body]
fn token_ident(tree: &proc_macro2::TokenTree) -> (r: Option<String>)
    ensures
        r matches Some(text) ==> text@.len() > 0,
{
    match tree {
        proc_macro2::TokenTree::Ident(ident) => Some(ident.to_string()),
        _ => None,
    }
}

/// Reads a `proc_macro2::TokenTree::Punct` through `Punct::as_char`. Nothing is
/// claimed of it.
#[verifier::external_body]
fn token_punct(tree: &proc_macro2::TokenTree) -> Option<char> {
    match tree {
        proc_macro2::TokenTree::Punct(punct) => Some(punct.as_char()),
        _ => None,
    }
}

/// A group's contents, and whether it is delimited by parentheses.
/// For a `proc_macro2::TokenTree::Group`, calls `Group::stream` and tells a
/// parenthesis delimiter apart from the others. Nothing is claimed of either.
#[verifier::external_body]
fn token_group(tree: &proc_macro2::TokenTree) -> Option<(bool, proc_macro2::TokenStream)> {
    match tree {
        proc_macro2::TokenTree::Group(group) => Some((
            match group.delimiter() {
                proc_macro2::Delimiter::Parenthesis => true,
                _ => false,
            },
            group.stream(),
        )),
        _ => None,
    }
}

/// Reads the start line of `TokenTree::span`. Nothing is claimed of it.
#[verifier::external_body]
fn token_line(tree: &proc_macro2::TokenTree) -> usize {
    tree.span().start().line
}

/// Reads the last segment of `syn::Attribute::path` through `Ident::to_string`.
/// Claims only that the text is not empty, as no `Ident` is; which name it
/// is, is not claimed.
#[verifier::external_body]
fn attribute_last_segment(attr: &syn::Attribute) -> (r: Option<String>)
    ensures
        r matches Some(text) ==> text@.len() > 0,
{
    attr.path().segments.last().map(|segment| segment.ident.to_string())
}

/// For a `syn::Meta::NameValue` attribute whose path is one identifier, reads
/// it through `Ident::to_string`. Claims only that the text is not empty, as
/// no `Ident` is; which name it is, is not claimed.
#[verifier::external_body]
fn attribute_key(attr: &syn::Attribute) -> (r: Option<String>)
    ensures
        r matches Some(text) ==> text@.len() > 0,
{
    match &attr.meta {
        syn::Meta::NameValue(pair) => pair.path.get_ident().map(|ident| ident.to_string()),
        _ => None,
    }
}

/// For a `syn::Meta::NameValue` attribute whose value is a string literal,
/// reads it through `LitStr::value`. Nothing is claimed of it.
#[verifier::external_body]
fn attribute_text_value(attr: &syn::Attribute) -> Option<String> {
    match &attr.meta {
        syn::Meta::NameValue(pair) => match &pair.value {
            syn::Expr::Lit(literal) => match &literal.lit {
                syn::Lit::Str(text) => Some(text.value()),
                _ => None,
            },
            _ => None,
        },
        _ => None,
    }
}

/// Borrows the items of a `syn::ItemMod` written out in place. Nothing is
/// claimed of them.
#[verifier::external_body]
fn module_items(item: &syn::Item) -> Option<&Vec<syn::Item>> {
    match item {
        syn::Item::Mod(inner) => inner.content.as_ref().map(|content| &content.1),
        _ => None,
    }
}

/// Borrows the `items` field of a `syn::ItemTrait`. Nothing is claimed of them.
#[verifier::external_body]
fn trait_items(item: &syn::Item) -> Option<&Vec<syn::TraitItem>> {
    match item {
        syn::Item::Trait(inner) => Some(&inner.items),
        _ => None,
    }
}

/// For a `syn::TraitItem::Fn`, borrows its signature and says whether it has a
/// default body. Nothing is claimed of either.
#[verifier::external_body]
fn trait_method(item: &syn::TraitItem) -> Option<(&syn::Signature, bool)> {
    match item {
        syn::TraitItem::Fn(method) => Some((&method.sig, method.default.is_some())),
        _ => None,
    }
}

/// Reads the start and end lines of a function block's span. Nothing is claimed
/// of them.
#[verifier::external_body]
fn body_lines(item: &syn::Item) -> Option<(usize, usize)> {
    match item {
        syn::Item::Fn(inner) => {
            let span = syn::spanned::Spanned::span(&inner.block);
            Some((span.start().line, span.end().line))
        },
        _ => None,
    }
}

/// Copies a function's block out through `quote::ToTokens::to_token_stream`.
/// Nothing is claimed of the tokens.
#[verifier::external_body]
fn body_tokens(item: &syn::Item) -> Option<proc_macro2::TokenStream> {
    match item {
        syn::Item::Fn(inner) => Some(quote::ToTokens::to_token_stream(&inner.block)),
        _ => None,
    }
}

/// Collects a `proc_macro2::TokenStream` through its `IntoIterator`. Nothing is
/// claimed of the trees.
#[verifier::external_body]
fn token_trees(tokens: proc_macro2::TokenStream) -> Vec<proc_macro2::TokenTree> {
    tokens.into_iter().collect()
}

/// For a `proc_macro2::TokenTree::Group`, calls `Group::stream`. Nothing is
/// claimed of it.
#[verifier::external_body]
fn group_stream(tree: &proc_macro2::TokenTree) -> Option<proc_macro2::TokenStream> {
    match tree {
        proc_macro2::TokenTree::Group(group) => Some(group.stream()),
        _ => None,
    }
}

/// Reads the start and end lines of a `proc_macro2::TokenTree::Literal`'s span.
/// Nothing is claimed of them.
#[verifier::external_body]
fn literal_lines(tree: &proc_macro2::TokenTree) -> Option<(usize, usize)> {
    match tree {
        proc_macro2::TokenTree::Literal(literal) => {
            let span = literal.span();
            Some((span.start().line, span.end().line))
        },
        _ => None,
    }
}

/// How many arguments a call passes, given how many inputs a signature has
/// and whether one of them is a receiver: the receiver is written before the
/// dot.
fn arity_of(count: usize, receiver: bool) -> (n: usize)
    ensures
        n == (if receiver && count > 0 { count - 1 } else { count as int }),
{
    if receiver && count > 0 {
        count - 1
    } else {
        count
    }
}

fn single(c: char) -> (r: String)
    ensures
        r@ == seq![c],
{
    let v = vec![c];
    let r = string_of(v.as_slice());
    assert(v@ =~= seq![c]);
    r
}

/// A token's text is what its kind says it holds: an identifier's is not
/// empty, a punctuation character's is that one character, and a literal's or
/// a group delimiter's is empty.
pub open spec fn token_shaped(t: TokenOutline) -> bool {
    match t.kind {
        TokenKind::Ident => t.text@.len() > 0,
        TokenKind::Punct => t.text@.len() == 1,
        _ => t.text@.len() == 0,
    }
}

/// How many groups are open after the tokens.
pub open spec fn open_depth(s: Seq<TokenOutline>) -> int
    decreases s.len(),
{
    if s.len() == 0 {
        0
    } else {
        open_depth(s.drop_last()) + depth_change(s.last().kind)
    }
}

/// What a token of the kind does to the number of open groups.
pub open spec fn depth_change(kind: TokenKind) -> int {
    match kind {
        TokenKind::OpenParen => 1,
        TokenKind::OpenOther => 1,
        TokenKind::Close => -1,
        _ => 0,
    }
}

pub proof fn lemma_open_depth_one(t: TokenOutline)
    ensures
        open_depth(seq![t]) == depth_change(t.kind),
{
    let one = seq![t];
    assert(one.len() == 1);
    assert(one.drop_last() =~= Seq::<TokenOutline>::empty());
    assert(open_depth(one.drop_last()) == 0);
    assert(one.last() == t);
}

/// Tokens as a token stream gives them: each shaped as its kind says, and
/// every group opened is closed after it and no group closed before it
/// opened.
pub open spec fn well_formed_tokens(s: Seq<TokenOutline>) -> bool {
    &&& open_depth(s) == 0
    &&& forall|n: int| 0 <= n <= s.len() ==> open_depth(#[trigger] s.take(n)) >= 0
    &&& forall|k: int| 0 <= k < s.len() ==> token_shaped(#[trigger] s[k])
}

pub proof fn lemma_open_depth_concat(a: Seq<TokenOutline>, b: Seq<TokenOutline>)
    ensures
        open_depth(a + b) == open_depth(a) + open_depth(b),
    decreases b.len(),
{
    if b.len() == 0 {
        assert(a + b =~= a);
    } else {
        lemma_open_depth_concat(a, b.drop_last());
        assert((a + b).drop_last() =~= a + b.drop_last());
        assert((a + b).last() == b.last());
    }
}

pub proof fn lemma_well_formed_concat(a: Seq<TokenOutline>, b: Seq<TokenOutline>)
    requires
        well_formed_tokens(a),
        well_formed_tokens(b),
    ensures
        well_formed_tokens(a + b),
{
    lemma_open_depth_concat(a, b);
    assert forall|n: int| 0 <= n <= (a + b).len() implies open_depth(#[trigger] (a + b).take(n)) >= 0 by {
        if n <= a.len() {
            assert((a + b).take(n) =~= a.take(n));
        } else {
            assert((a + b).take(n) =~= a + b.take(n - a.len()));
            assert(open_depth(b.take(n - a.len())) >= 0);
            lemma_open_depth_concat(a, b.take(n - a.len()));
        }
    }
    assert forall|k: int| 0 <= k < (a + b).len() implies token_shaped(#[trigger] (a + b)[k]) by {
        if k < a.len() {
            assert((a + b)[k] == a[k]);
        } else {
            assert((a + b)[k] == b[k - a.len()]);
        }
    }
}

pub proof fn lemma_single_well_formed(t: TokenOutline)
    requires
        token_shaped(t),
        t.kind != TokenKind::OpenParen && t.kind != TokenKind::OpenOther && t.kind != TokenKind::Close,
    ensures
        well_formed_tokens(seq![t]),
{
    lemma_open_depth_one(t);
    assert forall|n: int| 0 <= n <= 1 implies open_depth(#[trigger] seq![t].take(n)) >= 0 by {
        if n == 0 {
            assert(seq![t].take(n) =~= Seq::<TokenOutline>::empty());
        } else {
            assert(seq![t].take(n) =~= seq![t]);
        }
    }
}

pub proof fn lemma_group_well_formed(open: TokenOutline, inner: Seq<TokenOutline>, close: TokenOutline)
    requires
        token_shaped(open),
        token_shaped(close),
        open.kind == TokenKind::OpenParen || open.kind == TokenKind::OpenOther,
        close.kind == TokenKind::Close,
        well_formed_tokens(inner),
    ensures
        well_formed_tokens(seq![open] + inner + seq![close]),
{
    let whole = seq![open] + inner + seq![close];
    lemma_open_depth_one(open);
    lemma_open_depth_one(close);
    lemma_open_depth_concat(seq![open], inner);
    lemma_open_depth_concat(seq![open] + inner, seq![close]);
    assert forall|n: int| 0 <= n <= whole.len() implies open_depth(#[trigger] whole.take(n)) >= 0 by {
        if n == 0 {
            assert(whole.take(n) =~= Seq::<TokenOutline>::empty());
        } else if n <= inner.len() + 1 {
            assert(whole.take(n) =~= seq![open] + inner.take(n - 1));
            assert(open_depth(inner.take(n - 1)) >= 0);
            lemma_open_depth_concat(seq![open], inner.take(n - 1));
        } else {
            assert(whole.take(n) =~= whole);
        }
    }
    assert forall|k: int| 0 <= k < whole.len() implies token_shaped(#[trigger] whole[k]) by {
        if k == 0 {
            assert(whole[k] == open);
        } else if k <= inner.len() {
            assert(whole[k] == inner[k - 1]);
        } else {
            assert(whole[k] == close);
        }
    }
}

/// Copies a token stream out as plain tokens, each group opened and closed
/// in place. A group is delimited by two characters of the text, so nesting
/// never runs deeper than `fuel`, the text's length.
fn tokens_of(tokens: proc_macro2::TokenStream, fuel: usize, out: &mut Vec<TokenOutline>)
    ensures
        final(out)@.len() >= old(out)@.len(),
        final(out)@.take(old(out)@.len() as int) == old(out)@,
        well_formed_tokens(final(out)@.skip(old(out)@.len() as int)),
    decreases fuel,
{
    let ghost start = out@;
    let trees = token_trees(tokens);
    let mut i: usize = 0;
    proof {
        assert(out@.skip(start.len() as int) =~= Seq::<TokenOutline>::empty());
        assert(Seq::<TokenOutline>::empty().take(0) =~= Seq::<TokenOutline>::empty());
        assert(out@.take(start.len() as int) =~= start);
    }
    while i < trees.len()
        invariant
            out@.len() >= start.len(),
            out@.take(start.len() as int) == start,
            well_formed_tokens(out@.skip(start.len() as int)),
        decreases trees.len() - i,
    {
        let tree = &trees[i];
        let line = token_line(tree);
        let ghost before = out@;
        let ghost added: Seq<TokenOutline>;
        match token_ident(tree) {
            Some(text) => {
                let t = TokenOutline { kind: TokenKind::Ident, text, line };
                proof {
                    added = seq![t];
                    lemma_single_well_formed(t);
                }
                out.push(t);
            },
            None => match token_punct(tree) {
                Some(c) => {
                    let t = TokenOutline { kind: TokenKind::Punct, text: single(c), line };
                    proof {
                        added = seq![t];
                        lemma_single_well_formed(t);
                    }
                    out.push(t);
                },
                None => match token_group(tree) {
                    Some((paren, inner)) => {
                        let kind = if paren { TokenKind::OpenParen } else { TokenKind::OpenOther };
                        let open = TokenOutline { kind, text: String::new(), line };
                        let ghost open_view = open;
                        out.push(open);
                        let ghost mid = out@;
                        if fuel > 0 {
                            tokens_of(inner, fuel - 1, out);
                        } else {
                            assert(out@.skip(mid.len() as int) =~= Seq::<TokenOutline>::empty());
                            assert(Seq::<TokenOutline>::empty().take(0) =~= Seq::<TokenOutline>::empty());
                            assert(out@.take(mid.len() as int) =~= mid);
                        }
                        let ghost nested = out@.skip(mid.len() as int);
                        assert(out@ =~= mid + nested);
                        assert(mid =~= before.push(open_view));
                        let close = TokenOutline { kind: TokenKind::Close, text: String::new(), line };
                        let ghost close_view = close;
                        out.push(close);
                        proof {
                            added = seq![open_view] + nested + seq![close_view];
                            lemma_group_well_formed(open_view, nested, close_view);
                            assert(out@ =~= before + added);
                        }
                    },
                    None => {
                        let t = TokenOutline { kind: TokenKind::Literal, text: String::new(), line };
                        proof {
                            added = seq![t];
                            lemma_single_well_formed(t);
                        }
                        out.push(t);
                    },
                },
            },
        }
        proof {
            assert(out@ =~= before + added);
            assert(out@.skip(start.len() as int) =~= before.skip(start.len() as int) + added);
            lemma_well_formed_concat(before.skip(start.len() as int), added);
            assert(out@.take(start.len() as int) =~= before.take(start.len() as int));
        }
        i = i + 1;
    }
}

fn plain_tokens(tokens: proc_macro2::TokenStream, fuel: usize) -> (r: Vec<TokenOutline>)
    ensures
        well_formed_tokens(r@),
{
    let mut out: Vec<TokenOutline> = Vec::new();
    tokens_of(tokens, fuel, &mut out);
    assert(out@.skip(0) =~= out@);
    out
}

/// Every name an attribute outline holds is a name: none is empty.
pub open spec fn attribute_named(a: AttributeOutline) -> bool {
    &&& a.last_segment matches Some(t) ==> t@.len() > 0
    &&& a.key matches Some(t) ==> t@.len() > 0
    &&& a.list_head matches Some(t) ==> t@.len() > 0
}

/// A method outline names its method, and only a method with a body is
/// public: a trait declares its methods without a visibility of their own.
pub open spec fn method_named(m: MethodOutline) -> bool {
    &&& m.name@.len() > 0
    &&& m.is_public ==> m.has_default
}

/// How many of the outlines stand at the depth.
pub open spec fn count_at(s: Seq<ItemOutline>, depth: usize) -> nat
    decreases s.len(),
{
    if s.len() == 0 {
        0
    } else {
        count_at(s.drop_last(), depth) + if s.last().depth == depth { 1nat } else { 0nat }
    }
}

/// An outline of an item as the parser read it: at least as deep as the
/// items it was read among, its attributes and methods named.
pub open spec fn outline_read(o: ItemOutline, depth: usize) -> bool {
    &&& o.depth >= depth
    &&& forall|k: int| 0 <= k < o.attributes@.len() ==> attribute_named(#[trigger] o.attributes@[k])
    &&& forall|k: int| 0 <= k < o.methods@.len() ==> method_named(#[trigger] o.methods@[k])
}

pub proof fn lemma_count_at_concat(a: Seq<ItemOutline>, b: Seq<ItemOutline>, depth: usize)
    ensures
        count_at(a + b, depth) == count_at(a, depth) + count_at(b, depth),
    decreases b.len(),
{
    if b.len() == 0 {
        assert(a + b =~= a);
    } else {
        lemma_count_at_concat(a, b.drop_last(), depth);
        assert((a + b).drop_last() =~= a + b.drop_last());
    }
}

pub proof fn lemma_count_at_deeper(s: Seq<ItemOutline>, depth: usize)
    requires
        forall|k: int| 0 <= k < s.len() ==> (#[trigger] s[k]).depth > depth,
    ensures
        count_at(s, depth) == 0,
    decreases s.len(),
{
    if s.len() > 0 {
        lemma_count_at_deeper(s.drop_last(), depth);
    }
}

fn attributes_of(item: &syn::Item, fuel: usize) -> (r: Vec<AttributeOutline>)
    ensures
        forall|k: int| 0 <= k < r@.len() ==> attribute_named(#[trigger] r@[k]),
{
    let mut out: Vec<AttributeOutline> = Vec::new();
    match item_attributes(item) {
        Some(attrs) => {
            let mut i: usize = 0;
            while i < attrs.len()
                invariant
                    forall|k: int| 0 <= k < out@.len() ==> attribute_named(#[trigger] out@[k]),
                decreases attrs.len() - i,
            {
                let attr = &attrs[i];
                let list_head = match attribute_list_tokens(attr) {
                    Some(tokens) => {
                        let plain = plain_tokens(tokens, fuel);
                        if plain.len() > 0 && plain[0].kind == TokenKind::Ident {
                            assert(token_shaped(plain@[0]));
                            Some(plain[0].text.clone())
                        } else {
                            None
                        }
                    },
                    None => None,
                };
                out.push(AttributeOutline {
                    last_segment: attribute_last_segment(attr),
                    key: attribute_key(attr),
                    text_value: attribute_text_value(attr),
                    list_head,
                });
                i = i + 1;
            }
        },
        None => {},
    }
    out
}

fn methods_of(item: &syn::Item, fuel: usize, calls: &mut Vec<CallOutline>) -> (r: Vec<MethodOutline>)
    ensures
        forall|k: int| 0 <= k < r@.len() ==> method_named(#[trigger] r@[k]),
        final(calls)@.len() >= old(calls)@.len(),
        final(calls)@.take(old(calls)@.len() as int) == old(calls)@,
{
    let ghost start = calls@;
    let mut out: Vec<MethodOutline> = Vec::new();
    match trait_items(item) {
        Some(items) => {
            let mut i: usize = 0;
            while i < items.len()
                invariant
                    forall|k: int| 0 <= k < out@.len() ==> method_named(#[trigger] out@[k]),
                decreases items.len() - i,
            {
                match trait_method(&items[i]) {
                    Some((sig, has_default)) => {
                        let (name, line) = signature_name(sig);
                        out.push(MethodOutline { name, line, has_default, is_public: false, arity: arity_of(input_count(sig), has_receiver(sig)) });
                    },
                    None => {},
                }
                i = i + 1;
            }
        },
        None => {},
    }
    assert(calls@.take(start.len() as int) =~= start);
    match impl_items(item) {
        Some(items) => {
            let mut i: usize = 0;
            while i < items.len()
                invariant
                    forall|k: int| 0 <= k < out@.len() ==> method_named(#[trigger] out@[k]),
                    calls@.len() >= start.len(),
                    calls@.take(start.len() as int) == start,
                decreases items.len() - i,
            {
                match impl_method(&items[i]) {
                    Some((sig, vis, body)) => {
                        let (name, line) = signature_name(sig);
                        out.push(MethodOutline {
                            name,
                            line,
                            has_default: true,
                            is_public: is_public_visibility(vis),
                            arity: arity_of(input_count(sig), has_receiver(sig)),
                        });
                        let found = calls_in(&plain_tokens(body, fuel));
                        let ghost before = calls@;
                        append_calls(calls, found);
                        assert(calls@.take(start.len() as int) =~= before.take(start.len() as int));
                    },
                    None => {},
                }
                i = i + 1;
            }
        },
        None => {},
    }
    out
}

fn append_calls(out: &mut Vec<CallOutline>, more: Vec<CallOutline>)
    ensures
        final(out)@ == old(out)@ + more@,
{
    let mut more = more;
    out.append(&mut more);
}

/// Collects the line spans of every literal in the tokens, groups included.
/// A token group is opened and closed by two characters of the text, so
/// nesting never runs deeper than the text is long and `fuel`, the text's
/// length, is never the reason the walk stops.
fn collect_literals(tokens: proc_macro2::TokenStream, fuel: usize, out: &mut Vec<(usize, usize)>)
    ensures
        final(out)@.len() >= old(out)@.len(),
        final(out)@.take(old(out)@.len() as int) == old(out)@,
    decreases fuel,
{
    let ghost start = out@;
    let trees = token_trees(tokens);
    let mut i: usize = 0;
    assert(out@.take(start.len() as int) =~= start);
    while i < trees.len()
        invariant
            out@.len() >= start.len(),
            out@.take(start.len() as int) == start,
        decreases trees.len() - i,
    {
        let tree = &trees[i];
        let ghost before = out@;
        match literal_lines(tree) {
            Some(lines) => out.push(lines),
            None => {},
        }
        assert(out@.take(start.len() as int) =~= before.take(start.len() as int));
        if fuel > 0 {
            match group_stream(tree) {
                Some(inner) => {
                    let ghost mid = out@;
                    collect_literals(inner, fuel - 1, out);
                    assert(out@.take(start.len() as int) =~= mid.take(mid.len() as int).take(start.len() as int));
                },
                None => {},
            }
        }
        i = i + 1;
    }
}

/// Copies every item out, each inline module followed by what it holds, in
/// the order the file states them. An inline module takes more than one
/// character of the text, so nesting never runs deeper than `fuel`, the
/// text's length.
fn flatten(items: &Vec<syn::Item>, depth: usize, fuel: usize, out: &mut Vec<ItemOutline>)
    ensures
        final(out)@.len() >= old(out)@.len(),
        final(out)@.take(old(out)@.len() as int) == old(out)@,
        count_at(final(out)@.skip(old(out)@.len() as int), depth) == items@.len(),
        forall|k: int|
            0 <= k < final(out)@.len() - old(out)@.len() ==> outline_read(
                #[trigger] final(out)@.skip(old(out)@.len() as int)[k],
                depth,
            ),
    decreases fuel,
{
    let ghost start = out@;
    let mut i: usize = 0;
    proof {
        assert(out@.take(start.len() as int) =~= start);
        assert(out@.skip(start.len() as int) =~= Seq::<ItemOutline>::empty());
    }
    while i < items.len()
        invariant
            i <= items.len(),
            out@.len() >= start.len(),
            out@.take(start.len() as int) == start,
            count_at(out@.skip(start.len() as int), depth) == i,
            forall|k: int|
                0 <= k < out@.len() - start.len() ==> outline_read(#[trigger] out@.skip(start.len() as int)[k], depth),
        decreases items.len() - i,
    {
        let item = &items[i];
        let kind = item_kind(item);
        let (first_line, last_line) = item_lines(item);
        let name = match item_ident(item) {
            Some(n) => Some(n),
            None => implemented_type(item),
        };
        let name_line = match ident_line(item) {
            Some(line) => line,
            None => first_line,
        };
        let mut literals: Vec<(usize, usize)> = Vec::new();
        let mut calls: Vec<CallOutline> = Vec::new();
        match body_tokens(item) {
            Some(tokens) => collect_literals(tokens, fuel, &mut literals),
            None => {},
        }
        match body_tokens(item) {
            Some(tokens) => calls = calls_in(&plain_tokens(tokens, fuel)),
            None => {},
        }
        let methods = methods_of(item, fuel, &mut calls);
        let is_public = match item_visibility(item) {
            Some(vis) => is_public_visibility(vis),
            None => false,
        };
        let arity = match item_signature(item) {
            Some(sig) => arity_of(input_count(sig), has_receiver(sig)),
            None => 0,
        };
        let (imports, use_tree) = match use_tokens(item) {
            Some(tokens) => {
                let plain = plain_tokens(tokens, fuel);
                (imports_in(&plain), render_use(&plain))
            },
            None => (Vec::new(), String::new()),
        };
        let inner = module_items(item);
        let ghost before = out@;
        out.push(ItemOutline {
            kind,
            depth,
            name,
            first_line,
            last_line,
            name_line,
            attributes: attributes_of(item, fuel),
            methods,
            body: body_lines(item),
            literals,
            is_public,
            inline: inner.is_some(),
            arity,
            imports,
            use_tree,
            calls,
        });
        proof {
            let pushed = out@.last();
            assert(outline_read(pushed, depth));
            assert(out@.skip(start.len() as int) =~= before.skip(start.len() as int).push(pushed));
            assert(out@.skip(start.len() as int).drop_last() =~= before.skip(start.len() as int));
            assert(out@.take(start.len() as int) =~= before.take(start.len() as int));
        }
        if fuel > 0 && depth < usize::MAX {
            match inner {
                Some(inner) => {
                    let ghost mid = out@;
                    flatten(inner, depth + 1, fuel - 1, out);
                    proof {
                        let nested = out@.skip(mid.len() as int);
                        assert(out@ =~= mid + nested);
                        assert forall|k: int| 0 <= k < nested.len() implies (#[trigger] nested[k]).depth > depth by {
                            assert(outline_read(nested[k], (depth + 1) as usize));
                        }
                        lemma_count_at_deeper(nested, depth);
                        assert(out@.skip(start.len() as int) =~= mid.skip(start.len() as int) + nested);
                        lemma_count_at_concat(mid.skip(start.len() as int), nested, depth);
                        assert(out@.take(start.len() as int) =~= mid.take(start.len() as int));
                        assert forall|k: int| 0 <= k < out@.len() - start.len() implies outline_read(
                            #[trigger] out@.skip(start.len() as int)[k],
                            depth,
                        ) by {
                            if k < mid.len() - start.len() {
                                assert(out@.skip(start.len() as int)[k] == mid.skip(start.len() as int)[k]);
                            } else {
                                assert(out@.skip(start.len() as int)[k] == nested[k - (mid.len() - start.len())]);
                                assert(outline_read(nested[k - (mid.len() - start.len())], (depth + 1) as usize));
                            }
                        }
                    }
                },
                None => {},
            }
        }
        i = i + 1;
    }
}

/// The outline of the file a parser's input holds: every item, each inline
/// module followed by what it holds.
fn outline_in(input: syn::parse::ParseStream) -> (r: Result<Vec<ItemOutline>, syn::Error>)
    ensures
        r matches Ok(items) ==> forall|k: int| 0 <= k < items@.len() ==> outline_read(#[trigger] items@[k], 0),
{
    match file_in(input) {
        Ok(file) => {
            let mut out: Vec<ItemOutline> = Vec::new();
            flatten(file_items(&file), 0, usize::MAX, &mut out);
            assert(out@.skip(0) =~= out@);
            Ok(out)
        },
        Err(error) => Err(error),
    }
}

/// The outline of a text, or where and why it does not parse.
pub fn outline(text: &str) -> (r: Result<Vec<ItemOutline>, (usize, String)>)
    ensures
        match r {
            Ok(items) => parse_failure(prepared(text@)).is_none() && items@ == syntax_outline(prepared(text@)),
            Err((line, message)) => parse_failure(prepared(text@)) == Some((line as nat, message@)),
        },
{
    let prepared_text = prepare(text);
    parse_outline(prepared_text.as_str())
}

/// The outline of a source file's contents, or nothing where they do not
/// parse.
pub fn file_outline(file: &crate::source_file::SourceFile) -> (r: Option<Vec<ItemOutline>>)
    ensures
        r.is_none() <==> parse_failure(parsed_text(file@.lines)).is_some(),
        r matches Some(items) ==> items@ == syntax_outline(parsed_text(file@.lines)),
{
    let contents = file.contents();
    match outline(contents.as_str()) {
        Ok(items) => Some(items),
        Err(_) => None,
    }
}

pub open spec fn name_text(item: ItemOutline) -> Seq<char> {
    match item.name {
        Some(n) => n@,
        None => Seq::<char>::empty(),
    }
}

impl ItemOutline {
    /// The item's name, empty where it has none.
    pub fn name_or_empty(&self) -> (r: String)
        ensures
            r@ == name_text(*self),
    {
        match &self.name {
            Some(n) => n.clone(),
            None => String::new(),
        }
    }
}

} // verus!
