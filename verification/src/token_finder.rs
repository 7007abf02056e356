//! What a run of plain tokens says about calls and imports.
//!
//! This reads syntax, not types: a call is a path written directly before a
//! parenthesised group, and its arity is the number of arguments the group
//! separates with commas at its own level.
use vstd::prelude::*;
use crate::syntax::{CallOutline, TokenKind, TokenOutline};
use crate::text::{lemma_views_push, same_text, views};

verus! {

/// The words that stand before a parenthesised group without calling
/// anything.
pub open spec fn keyword(word: Seq<char>) -> bool {
    word == "if"@ || word == "while"@ || word == "match"@ || word == "return"@ || word == "for"@
        || word == "in"@ || word == "loop"@ || word == "let"@ || word == "else"@ || word == "as"@
        || word == "move"@ || word == "fn"@ || word == "unsafe"@ || word == "where"@ || word == "mut"@
        || word == "ref"@ || word == "impl"@ || word == "dyn"@ || word == "break"@ || word == "await"@
}

pub fn is_keyword(word: &str) -> (b: bool)
    ensures
        b == keyword(word@),
{
    same_text(word, "if") || same_text(word, "while") || same_text(word, "match") || same_text(word, "return")
        || same_text(word, "for") || same_text(word, "in") || same_text(word, "loop") || same_text(word, "let")
        || same_text(word, "else") || same_text(word, "as") || same_text(word, "move") || same_text(word, "fn")
        || same_text(word, "unsafe") || same_text(word, "where") || same_text(word, "mut") || same_text(word, "ref")
        || same_text(word, "impl") || same_text(word, "dyn") || same_text(word, "break") || same_text(word, "await")
}

pub fn copy_texts(v: &Vec<String>) -> (r: Vec<String>)
    ensures
        views(r@) == views(v@),
{
    let mut r: Vec<String> = Vec::new();
    let mut i: usize = 0;
    while i < v.len()
        invariant
            i <= v.len(),
            views(r@) == views(v@).take(i as int),
        decreases v.len() - i,
    {
        let c = v[i].clone();
        proof {
            lemma_views_push(r@, c);
        }
        r.push(c);
        assert(views(v@).take(i + 1) =~= views(v@).take(i as int).push(v@[i as int]@));
        i = i + 1;
    }
    assert(views(v@).take(v.len() as int) =~= views(v@));
    r
}

pub open spec fn is_punct_token(t: TokenOutline, c: Seq<char>) -> bool {
    t.kind == TokenKind::Punct && t.text@ == c
}

fn is_punct(t: &TokenOutline, c: &str) -> (b: bool)
    ensures
        b == is_punct_token(*t, c@),
{
    t.kind == TokenKind::Punct && same_text(t.text.as_str(), c)
}

/// Where a scan of a parenthesised group's arguments stands.
pub struct ArityScan {
    /// How deep inside nested groups.
    pub depth: nat,
    /// Commas that separate arguments.
    pub commas: nat,
    /// Whether anything but a comma or a close has been seen.
    pub any: bool,
    pub last_comma: bool,
    /// Inside a closure's `|...|`.
    pub in_params: bool,
    /// At the start of an argument.
    pub at_start: bool,
    /// The group has closed.
    pub closed: bool,
}

pub open spec fn arity_start() -> ArityScan {
    ArityScan { depth: 0, commas: 0, any: false, last_comma: false, in_params: false, at_start: true, closed: false }
}

/// One token of the group read: a group closing at depth 0 ends the scan; a
/// comma at depth 0 outside a closure's parameters separates arguments; a
/// `|` at the start of an argument opens a closure's parameters and the next
/// one closes them.
pub open spec fn arity_step(s: ArityScan, token: TokenOutline) -> ArityScan {
    if s.closed {
        s
    } else if token.kind == TokenKind::Close {
        if s.depth == 0 {
            ArityScan { closed: true, ..s }
        } else {
            ArityScan { depth: (s.depth - 1) as nat, last_comma: false, ..s }
        }
    } else if token.kind == TokenKind::OpenParen || token.kind == TokenKind::OpenOther {
        ArityScan { depth: s.depth + 1, any: true, last_comma: false, at_start: false, ..s }
    } else if s.depth == 0 && is_punct_token(token, ","@) && !s.in_params {
        ArityScan { commas: s.commas + 1, last_comma: true, at_start: true, ..s }
    } else if s.depth == 0 && is_punct_token(token, "|"@) && (s.at_start || s.in_params) {
        ArityScan { in_params: !s.in_params, any: true, last_comma: false, at_start: false, ..s }
    } else {
        ArityScan { any: true, last_comma: false, at_start: false, ..s }
    }
}

/// The scan after the tokens from `from` up to, not including, `to`.
pub open spec fn arity_scan(t: Seq<TokenOutline>, from: int, to: int) -> ArityScan
    decreases to - from,
{
    if to <= from {
        arity_start()
    } else {
        arity_step(arity_scan(t, from, to - 1), t[to - 1])
    }
}

/// How many arguments the group opened at `open` passes: its separating
/// commas, one more unless the last is trailing, none for an empty group.
pub open spec fn arguments(t: Seq<TokenOutline>, open: int) -> nat {
    let s = arity_scan(t, open + 1, t.len() as int);
    if !s.any && s.commas == 0 {
        0
    } else if s.last_comma {
        s.commas
    } else {
        s.commas + 1
    }
}

pub proof fn lemma_closed_scan_stays(t: Seq<TokenOutline>, from: int, to: int, end: int)
    requires
        from <= to <= end,
        arity_scan(t, from, to).closed,
    ensures
        arity_scan(t, from, end) == arity_scan(t, from, to),
    decreases end - to,
{
    if end > to {
        lemma_closed_scan_stays(t, from, to, end - 1);
    }
}

/// How many arguments the group opened at `open` passes.
pub fn arity_at(t: &Vec<TokenOutline>, open: usize) -> (n: usize)
    requires
        open < t.len(),
    ensures
        n == arguments(t@, open as int),
{
    let mut depth: usize = 0;
    let mut commas: usize = 0;
    let mut any = false;
    let mut last_comma = false;
    let mut in_params = false;
    let mut at_start = true;
    let mut j: usize = open + 1;
    let ghost start = open + 1;
    while j < t.len()
        invariant
            open < j <= t.len(),
            start == open + 1,
            depth <= j,
            commas + open < j,
            arity_scan(t@, start as int, j as int) == (ArityScan {
                depth: depth as nat,
                commas: commas as nat,
                any,
                last_comma,
                in_params,
                at_start,
                closed: false,
            }),
        ensures
            ({
                let s = arity_scan(t@, start as int, t@.len() as int);
                s.commas == commas && s.any == any && s.last_comma == last_comma
            }),
        decreases t.len() - j,
    {
        let token = &t[j];
        if token.kind == TokenKind::Close {
            if depth == 0 {
                proof {
                    assert(arity_scan(t@, start as int, j + 1) == arity_step(arity_scan(t@, start as int, j as int), t@[j as int]));
                    lemma_closed_scan_stays(t@, start as int, j + 1, t@.len() as int);
                }
                break;
            }
            depth = depth - 1;
            last_comma = false;
        } else if token.kind == TokenKind::OpenParen || token.kind == TokenKind::OpenOther {
            depth = depth + 1;
            any = true;
            last_comma = false;
            at_start = false;
        } else if depth == 0 && is_punct(token, ",") && !in_params {
            commas = commas + 1;
            last_comma = true;
            at_start = true;
        } else if depth == 0 && is_punct(token, "|") && (at_start || in_params) {
            in_params = !in_params;
            any = true;
            last_comma = false;
            at_start = false;
        } else {
            any = true;
            last_comma = false;
            at_start = false;
        }
        j = j + 1;
    }
    if !any && commas == 0 {
        0
    } else if last_comma {
        commas
    } else {
        commas + 1
    }
}

/// The path written up to and including the identifier at `k`:
/// identifiers joined by `::`.
pub open spec fn path_to(t: Seq<TokenOutline>, k: int) -> Seq<Seq<char>>
    decreases k,
{
    if k >= 3 && is_punct_token(t[k - 1], ":"@) && is_punct_token(t[k - 2], ":"@) && t[k - 3].kind == TokenKind::Ident {
        path_to(t, k - 3).push(t[k].text@)
    } else {
        seq![t[k].text@]
    }
}

/// A call stands at `k`: an identifier that is no keyword and does not
/// follow `fn`, written directly before a `(`.
pub open spec fn is_call_at(t: Seq<TokenOutline>, k: int) -> bool {
    &&& 0 <= k && k + 1 < t.len()
    &&& t[k].kind == TokenKind::Ident
    &&& t[k + 1].kind == TokenKind::OpenParen
    &&& !keyword(t[k].text@)
    &&& !(k >= 1 && t[k - 1].kind == TokenKind::Ident && t[k - 1].text@ == "fn"@)
}

/// A call as plain values: its path, its line and its arity.
pub open spec fn call_view(c: CallOutline) -> (Seq<Seq<char>>, nat, nat) {
    (views(c.path@), c.line as nat, c.arity as nat)
}

/// The calls among the first `n` tokens, in order.
pub open spec fn calls_among(t: Seq<TokenOutline>, n: int) -> Seq<(Seq<Seq<char>>, nat, nat)>
    decreases n,
{
    if n <= 0 {
        Seq::<(Seq<Seq<char>>, nat, nat)>::empty()
    } else if is_call_at(t, n - 1) {
        calls_among(t, n - 1).push((path_to(t, n - 1), t[n - 1].line as nat, arguments(t, n)))
    } else {
        calls_among(t, n - 1)
    }
}

/// What the scan of `calls_in` knows at `i`: the path it is reading and the
/// colons since the path's last identifier.
pub open spec fn scan_state_ok(t: Seq<TokenOutline>, i: int, path: Seq<Seq<char>>, colons: nat) -> bool {
    &&& colons <= 2
    &&& (i >= 1 && t[i - 1].kind == TokenKind::Ident) ==> colons == 0 && path == path_to(t, i - 1)
    &&& (i >= 2 && is_punct_token(t[i - 1], ":"@) && t[i - 2].kind == TokenKind::Ident) ==> colons == 1
        && path == path_to(t, i - 2)
    &&& (i >= 3 && is_punct_token(t[i - 1], ":"@) && is_punct_token(t[i - 2], ":"@) && t[i - 3].kind == TokenKind::Ident)
        ==> colons == 2 && path == path_to(t, i - 3)
    &&& (colons == 2 && path.len() > 0) ==> (i >= 3 && is_punct_token(t[i - 1], ":"@) && is_punct_token(t[i - 2], ":"@)
        && t[i - 3].kind == TokenKind::Ident)
    &&& (colons == 1 && path.len() > 0) ==> (i >= 2 && is_punct_token(t[i - 1], ":"@) && t[i - 2].kind == TokenKind::Ident)
    &&& (colons == 0 && path.len() > 0) ==> (i >= 1 && t[i - 1].kind == TokenKind::Ident)
}

/// Every call in the tokens, in order.
pub(crate) fn calls_in(t: &Vec<TokenOutline>) -> (r: Vec<CallOutline>)
    ensures
        r@.map_values(|c: CallOutline| call_view(c)) == calls_among(t@, t@.len() as int),
{
    let mut out: Vec<CallOutline> = Vec::new();
    let mut path: Vec<String> = Vec::new();
    let mut colons: usize = 0;
    let mut after_fn = false;
    let mut i: usize = 0;
    proof {
        reveal_strlit("fn");
    }
    assert(out@.map_values(|c: CallOutline| call_view(c)) =~= calls_among(t@, 0));
    while i < t.len()
        invariant
            i <= t.len(),
            scan_state_ok(t@, i as int, views(path@), colons as nat),
            after_fn == (i >= 1 && t@[i - 1].kind == TokenKind::Ident && t@[i - 1].text@ == "fn"@),
            out@.map_values(|c: CallOutline| call_view(c)) == calls_among(t@, i as int),
        decreases t.len() - i,
    {
        let token = &t[i];
        let ghost before = views(path@);
        if token.kind == TokenKind::Ident {
            if colons == 2 && path.len() > 0 {
                let c = token.text.clone();
                proof {
                    lemma_views_push(path@, c);
                }
                path.push(c);
                assert(views(path@) == path_to(t@, i as int));
            } else {
                path = Vec::new();
                let c = token.text.clone();
                proof {
                    lemma_views_push(path@, c);
                }
                path.push(c);
                assert(views(path@) =~= seq![t@[i as int].text@]);
                assert(views(path@) == path_to(t@, i as int)) by {
                    if i >= 3 && is_punct_token(t@[i - 1], ":"@) && is_punct_token(t@[i - 2], ":"@)
                        && t@[i - 3].kind == TokenKind::Ident {
                        assert(colons == 2 && before == path_to(t@, i - 3));
                    }
                }
            }
            colons = 0;
            let ghost out_before = out@;
            if i + 1 < t.len() && t[i + 1].kind == TokenKind::OpenParen && !is_keyword(token.text.as_str()) && !after_fn {
                let call = CallOutline { path: copy_texts(&path), line: token.line, arity: arity_at(t, i + 1) };
                out.push(call);
                assert(out@.map_values(|c: CallOutline| call_view(c)) =~= out_before.map_values(|c: CallOutline| call_view(c)).push(
                    call_view(call),
                ));
            }
            after_fn = same_text(token.text.as_str(), "fn");
        } else if is_punct(token, ":") && colons < 2 {
            colons = colons + 1;
            after_fn = false;
        } else {
            path = Vec::new();
            colons = 0;
            after_fn = false;
            assert(views(path@) =~= Seq::<Seq<char>>::empty());
        }
        i = i + 1;
    }
    out
}

/// Where a scan of a `use` tree stands: the names found, the segment that
/// stood before each open group, and the last segment read.
pub struct ImportScan {
    pub found: Seq<Seq<char>>,
    pub enclosing: Seq<Seq<char>>,
    pub segment: Seq<char>,
}

/// The identifier at `i` is followed by `::`.
pub open spec fn before_path(t: Seq<TokenOutline>, i: int) -> bool {
    i + 2 < t.len() && is_punct_token(t[i + 1], ":"@) && is_punct_token(t[i + 2], ":"@)
}

/// The identifier at `i` is renamed by the `as` after it.
pub open spec fn renamed_at(t: Seq<TokenOutline>, i: int) -> bool {
    i + 1 < t.len() && t[i + 1].kind == TokenKind::Ident && t[i + 1].text@ == "as"@
}

/// One token of a `use` tree read: a segment before `::` is remembered; a
/// leaf is a name brought into scope, under its new name where renamed, and
/// `self` stands for the segment its group follows; a group remembers the
/// segment before it until it closes.
pub open spec fn import_step(s: ImportScan, t: Seq<TokenOutline>, i: int) -> ImportScan {
    let token = t[i];
    let word = token.text@;
    if token.kind == TokenKind::Ident {
        if before_path(t, i) {
            ImportScan { segment: word, ..s }
        } else if word == "as"@ || renamed_at(t, i) || word == "_"@ {
            s
        } else if word == "self"@ {
            if s.enclosing.len() > 0 && s.enclosing.last().len() > 0 {
                ImportScan { found: s.found.push(s.enclosing.last()), ..s }
            } else {
                s
            }
        } else {
            ImportScan { found: s.found.push(word), ..s }
        }
    } else if token.kind == TokenKind::OpenOther || token.kind == TokenKind::OpenParen {
        ImportScan { enclosing: s.enclosing.push(s.segment), segment: Seq::<char>::empty(), ..s }
    } else if token.kind == TokenKind::Close && s.enclosing.len() > 0 {
        ImportScan { enclosing: s.enclosing.drop_last(), ..s }
    } else {
        s
    }
}

/// The scan after the first `n` tokens.
pub open spec fn import_scan(t: Seq<TokenOutline>, n: int) -> ImportScan
    decreases n,
{
    if n <= 0 {
        ImportScan { found: Seq::<Seq<char>>::empty(), enclosing: Seq::<Seq<char>>::empty(), segment: Seq::<char>::empty() }
    } else {
        import_step(import_scan(t, n - 1), t, n - 1)
    }
}

/// The names a `use` tree's tokens bring into scope, in order.
pub(crate) fn imports_in(t: &Vec<TokenOutline>) -> (r: Vec<String>)
    ensures
        views(r@) == import_scan(t@, t@.len() as int).found,
{
    let mut out: Vec<String> = Vec::new();
    let mut enclosing: Vec<String> = Vec::new();
    let mut segment = String::new();
    let mut i: usize = 0;
    proof {
        reveal_strlit("as");
        reveal_strlit("_");
        reveal_strlit("self");
        reveal_strlit("");
    }
    assert(views(out@) =~= import_scan(t@, 0).found);
    assert(views(enclosing@) =~= import_scan(t@, 0).enclosing);
    while i < t.len()
        invariant
            i <= t.len(),
            views(out@) == import_scan(t@, i as int).found,
            views(enclosing@) == import_scan(t@, i as int).enclosing,
            segment@ == import_scan(t@, i as int).segment,
        decreases t.len() - i,
    {
        let token = &t[i];
        let ghost s = import_scan(t@, i as int);
        proof {
            reveal_strlit("as");
            reveal_strlit("_");
            reveal_strlit("self");
            reveal_strlit("");
        }
        if token.kind == TokenKind::Ident {
            let word = token.text.as_str();
            let before = t.len() - i > 2 && is_punct(&t[i + 1], ":") && is_punct(&t[i + 2], ":");
            let renamed = i + 1 < t.len() && t[i + 1].kind == TokenKind::Ident && same_text(t[i + 1].text.as_str(), "as");
            assert(before == before_path(t@, i as int));
            assert(renamed == renamed_at(t@, i as int));
            if before {
                segment = token.text.clone();
            } else if same_text(word, "as") || renamed || same_text(word, "_") {
            } else if same_text(word, "self") {
                if enclosing.len() > 0 {
                    let last = enclosing.len() - 1;
                    assert(""@ =~= Seq::<char>::empty());
                    assert(views(enclosing@).last() == enclosing@[last as int]@);
                    if !same_text(enclosing[last].as_str(), "") {
                        assert(enclosing@[last as int]@.len() > 0) by {
                            if enclosing@[last as int]@.len() == 0 {
                                assert(enclosing@[last as int]@ =~= ""@);
                            }
                        }
                        let c = enclosing[last].clone();
                        proof {
                            lemma_views_push(out@, c);
                        }
                        out.push(c);
                    }
                }
            } else {
                let c = token.text.clone();
                proof {
                    lemma_views_push(out@, c);
                }
                out.push(c);
            }
        } else if token.kind == TokenKind::OpenOther || token.kind == TokenKind::OpenParen {
            let pushed = segment;
            proof {
                lemma_views_push(enclosing@, pushed);
            }
            enclosing.push(pushed);
            segment = String::new();
        } else if token.kind == TokenKind::Close {
            if enclosing.len() > 0 {
                let ghost before_pop = enclosing@;
                enclosing.pop();
                assert(views(enclosing@) =~= views(before_pop).drop_last());
            }
        }
        assert(import_scan(t@, i + 1) == import_step(s, t@, i as int));
        i = i + 1;
    }
    out
}

/// One token of a `use` tree written out: a word, spaced from a word before
/// it; punctuation as it stands, a comma followed by a space; a group's
/// opening `(` or `{` and its closing `}`.
pub open spec fn rendered_piece(token: TokenOutline, after_word: bool) -> Seq<char> {
    if token.kind == TokenKind::Ident {
        (if after_word { " "@ } else { Seq::<char>::empty() }) + token.text@
    } else if token.kind == TokenKind::Punct {
        token.text@ + (if token.text@ == ","@ { " "@ } else { Seq::<char>::empty() })
    } else if token.kind == TokenKind::OpenParen {
        "("@
    } else if token.kind == TokenKind::OpenOther {
        "{"@
    } else if token.kind == TokenKind::Close {
        "}"@
    } else {
        Seq::<char>::empty()
    }
}

/// The first `n` tokens written out.
pub open spec fn rendered(t: Seq<TokenOutline>, n: int) -> Seq<char>
    decreases n,
{
    if n <= 0 {
        Seq::<char>::empty()
    } else {
        rendered(t, n - 1) + rendered_piece(t[n - 1], n >= 2 && t[n - 2].kind == TokenKind::Ident)
    }
}

/// A `use` tree's tokens written out as source text.
pub(crate) fn render_use(t: &Vec<TokenOutline>) -> (r: String)
    ensures
        r@ == rendered(t@, t@.len() as int),
{
    let mut r = String::new();
    let mut after_word = false;
    let mut i: usize = 0;
    while i < t.len()
        invariant
            i <= t.len(),
            r@ == rendered(t@, i as int),
            after_word == (i >= 1 && t@[i - 1].kind == TokenKind::Ident),
        decreases t.len() - i,
    {
        let token = &t[i];
        let ghost before = r@;
        if token.kind == TokenKind::Ident {
            if after_word {
                r.append(" ");
            }
            r.append(token.text.as_str());
            after_word = true;
        } else if token.kind == TokenKind::Punct {
            r.append(token.text.as_str());
            if is_punct(token, ",") {
                r.append(" ");
            }
            after_word = false;
        } else if token.kind == TokenKind::OpenParen {
            r.append("(");
            after_word = false;
        } else if token.kind == TokenKind::OpenOther {
            r.append("{");
            after_word = false;
        } else if token.kind == TokenKind::Close {
            r.append("}");
            after_word = false;
        } else {
            after_word = false;
        }
        assert(r@ =~= before + rendered_piece(t@[i as int], i >= 1 && t@[i - 1].kind == TokenKind::Ident));
        i = i + 1;
    }
    r
}

} // verus!
