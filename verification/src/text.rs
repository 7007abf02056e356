//! Character-level text handling shared by every rule.
//!
//! Strings are modelled by their view, a `Seq<char>`. The specifications here
//! are the vocabulary the rules' contracts are written in: trimming, prefixes,
//! splitting on a character, joining with a separator, and so on.
use vstd::prelude::*;

verus! {

/// The Unicode `White_Space` property, which is what `char::is_whitespace`
/// and therefore `str::trim` go by.
pub open spec fn is_white_space(c: char) -> bool {
    ||| ('\u{9}' <= c && c <= '\u{d}')
    ||| c == ' '
    ||| c == '\u{85}'
    ||| c == '\u{a0}'
    ||| c == '\u{1680}'
    ||| ('\u{2000}' <= c && c <= '\u{200a}')
    ||| c == '\u{2028}'
    ||| c == '\u{2029}'
    ||| c == '\u{202f}'
    ||| c == '\u{205f}'
    ||| c == '\u{3000}'
}

/// A text that trims to nothing.
pub open spec fn is_blank(s: Seq<char>) -> bool {
    forall|i: int| 0 <= i < s.len() ==> #[trigger] is_white_space(s[i])
}

pub open spec fn trim_start(s: Seq<char>) -> Seq<char>
    decreases s.len(),
{
    if s.len() > 0 && is_white_space(s[0]) {
        trim_start(s.drop_first())
    } else {
        s
    }
}

pub open spec fn trim_end(s: Seq<char>) -> Seq<char>
    decreases s.len(),
{
    if s.len() > 0 && is_white_space(s.last()) {
        trim_end(s.drop_last())
    } else {
        s
    }
}

/// What `str::trim` gives back.
pub open spec fn trim(s: Seq<char>) -> Seq<char> {
    trim_end(trim_start(s))
}

pub open spec fn starts_with(s: Seq<char>, prefix: Seq<char>) -> bool {
    prefix.len() <= s.len() && s.take(prefix.len() as int) == prefix
}

pub open spec fn ends_with(s: Seq<char>, suffix: Seq<char>) -> bool {
    suffix.len() <= s.len() && s.skip(s.len() - suffix.len()) == suffix
}

pub open spec fn contains_char(s: Seq<char>, c: char) -> bool {
    exists|i: int| 0 <= i < s.len() && s[i] == c
}

/// The pieces `str::split` yields for a single-character pattern: one more
/// piece than there are separators, empty pieces included.
pub open spec fn split_on(s: Seq<char>, sep: char) -> Seq<Seq<char>>
    decreases s.len(),
{
    if s.len() == 0 {
        seq![Seq::<char>::empty()]
    } else {
        let init = split_on(s.drop_last(), sep);
        if s.last() == sep {
            init.push(Seq::<char>::empty())
        } else {
            init.update(init.len() - 1, init.last().push(s.last()))
        }
    }
}

/// The pieces joined with `sep` between each adjacent pair.
pub open spec fn join(pieces: Seq<Seq<char>>, sep: Seq<char>) -> Seq<char>
    decreases pieces.len(),
{
    if pieces.len() == 0 {
        Seq::<char>::empty()
    } else if pieces.len() == 1 {
        pieces[0]
    } else {
        join(pieces.drop_last(), sep) + sep + pieces.last()
    }
}

/// Every backslash turned into a forward slash.
pub open spec fn forward_slashes(s: Seq<char>) -> Seq<char> {
    s.map_values(|c: char| if c == '\u{5c}' { '/' } else { c })
}

pub open spec fn digit_char(d: nat) -> char {
    if d == 0 { '0' }
    else if d == 1 { '1' }
    else if d == 2 { '2' }
    else if d == 3 { '3' }
    else if d == 4 { '4' }
    else if d == 5 { '5' }
    else if d == 6 { '6' }
    else if d == 7 { '7' }
    else if d == 8 { '8' }
    else { '9' }
}

/// The decimal rendering of a number, as `format!("{}", n)` writes it.
pub open spec fn decimal(n: nat) -> Seq<char>
    decreases n,
{
    if n < 10 {
        seq![digit_char(n)]
    } else {
        decimal(n / 10).push(digit_char(n % 10))
    }
}

/// Lexicographic order on code points, which for valid UTF-8 is also the
/// byte order `str`'s `Ord` uses.
pub open spec fn text_le(a: Seq<char>, b: Seq<char>) -> bool
    decreases a.len(),
{
    if a.len() == 0 {
        true
    } else if b.len() == 0 {
        false
    } else if a[0] != b[0] {
        a[0] < b[0]
    } else {
        text_le(a.drop_first(), b.drop_first())
    }
}

pub open spec fn text_lt(a: Seq<char>, b: Seq<char>) -> bool {
    text_le(a, b) && a != b
}

/// The views of a vector of strings.
pub open spec fn views(v: Seq<String>) -> Seq<Seq<char>> {
    v.map_values(|s: String| s@)
}

// ---------------------------------------------------------------------------
// Lemmas

pub proof fn lemma_views_push(v: Seq<String>, s: String)
    ensures
        views(v.push(s)) == views(v).push(s@),
{
    assert(views(v.push(s)) =~= views(v).push(s@));
}

pub proof fn lemma_split_on_nonempty(s: Seq<char>, sep: char)
    ensures
        split_on(s, sep).len() >= 1,
    decreases s.len(),
{
    if s.len() > 0 {
        lemma_split_on_nonempty(s.drop_last(), sep);
    }
}

/// No piece of a split holds the separator.
pub proof fn lemma_split_pieces_lack_sep(s: Seq<char>, sep: char)
    ensures
        forall|i: int| 0 <= i < split_on(s, sep).len() ==> !contains_char(#[trigger] split_on(s, sep)[i], sep),
    decreases s.len(),
{
    if s.len() > 0 {
        lemma_split_pieces_lack_sep(s.drop_last(), sep);
        lemma_split_on_nonempty(s.drop_last(), sep);
        let init = split_on(s.drop_last(), sep);
        if s.last() != sep {
            let last = init.last().push(s.last());
            assert(!contains_char(init.last(), sep));
            assert forall|j: int| 0 <= j < last.len() implies last[j] != sep by {
                if j < last.len() - 1 {
                    assert(last[j] == init.last()[j]);
                }
            }
        }
    }
}

/// Joining the pieces of a split with the separator gives the text back.
pub proof fn lemma_join_split(s: Seq<char>, sep: char)
    ensures
        join(split_on(s, sep), seq![sep]) == s,
    decreases s.len(),
{
    if s.len() > 0 {
        let init = split_on(s.drop_last(), sep);
        lemma_join_split(s.drop_last(), sep);
        lemma_split_on_nonempty(s.drop_last(), sep);
        if s.last() == sep {
            let pieces = init.push(Seq::<char>::empty());
            assert(pieces.drop_last() == init);
            assert(join(pieces, seq![sep]) == join(init, seq![sep]) + seq![sep] + Seq::<char>::empty());
            assert(s == s.drop_last() + seq![sep]);
        } else {
            let pieces = init.update(init.len() - 1, init.last().push(s.last()));
            assert(init.last().push(s.last()).drop_last() == init.last());
            lemma_join_replace_last(init, init.last().push(s.last()), seq![sep]);
            assert(s == s.drop_last().push(s.last()));
            assert(pieces.len() == init.len());
        }
    }
}

/// Replacing the last piece by that piece with one character more adds the
/// character to the end of the join.
pub proof fn lemma_join_replace_last(pieces: Seq<Seq<char>>, last: Seq<char>, sep: Seq<char>)
    requires
        pieces.len() >= 1,
        last.len() == pieces.last().len() + 1,
        last.drop_last() == pieces.last(),
    ensures
        join(pieces.update(pieces.len() - 1, last), sep) == join(pieces, sep).push(last.last()),
{
    let updated = pieces.update(pieces.len() - 1, last);
    assert(updated.drop_last() == pieces.drop_last());
    assert(last == pieces.last().push(last.last()));
    if pieces.len() == 1 {
        assert(updated[0] == last);
    } else {
        assert(join(updated, sep) == join(pieces.drop_last(), sep) + sep + last);
        assert(join(pieces, sep) == join(pieces.drop_last(), sep) + sep + pieces.last());
        assert((join(pieces.drop_last(), sep) + sep + pieces.last()).push(last.last())
            == join(pieces.drop_last(), sep) + sep + pieces.last().push(last.last()));
    }
}

/// Splitting the join of pieces that lack the separator gives the pieces back.
pub proof fn lemma_split_join(pieces: Seq<Seq<char>>, sep: char)
    requires
        pieces.len() >= 1,
        forall|i: int| 0 <= i < pieces.len() ==> !contains_char(#[trigger] pieces[i], sep),
    ensures
        split_on(join(pieces, seq![sep]), sep) == pieces,
    decreases pieces.len(),
{
    if pieces.len() == 1 {
        lemma_split_no_sep(pieces[0], sep);
    } else {
        let init = pieces.drop_last();
        assert forall|i: int| 0 <= i < init.len() implies !contains_char(#[trigger] init[i], sep) by {
            assert(init[i] == pieces[i]);
        }
        lemma_split_join(init, sep);
        let prefix = join(init, seq![sep]) + seq![sep];
        lemma_split_append(prefix, pieces.last(), sep);
        assert(!contains_char(pieces[pieces.len() - 1], sep));
        lemma_split_no_sep(pieces.last(), sep);
        assert(prefix.drop_last() == join(init, seq![sep]));
        assert(split_on(prefix, sep) == init.push(Seq::<char>::empty()));
        assert(join(pieces, seq![sep]) == prefix + pieces.last());
        assert(init.push(pieces.last()) == pieces);
    }
}

/// A text holding no separator splits into itself alone.
pub proof fn lemma_split_no_sep(s: Seq<char>, sep: char)
    requires
        !contains_char(s, sep),
    ensures
        split_on(s, sep) == seq![s],
    decreases s.len(),
{
    if s.len() > 0 {
        assert(!contains_char(s.drop_last(), sep)) by {
            if contains_char(s.drop_last(), sep) {
                let i = choose|i: int| 0 <= i < s.drop_last().len() && s.drop_last()[i] == sep;
                assert(s[i] == sep);
            }
        }
        lemma_split_no_sep(s.drop_last(), sep);
        assert(s.last() != sep) by {
            assert(s[s.len() - 1] == s.last());
        }
        assert(s.drop_last().push(s.last()) == s);
        assert(seq![s.drop_last()].update(0, s.drop_last().push(s.last())) == seq![s]);
    } else {
        assert(s == Seq::<char>::empty());
    }
}

/// Splitting `prefix + rest`, where `prefix` ends in the separator and `rest`
/// holds none, gives the pieces of `prefix` with the last (empty) one replaced
/// by `rest`.
pub proof fn lemma_split_append(prefix: Seq<char>, rest: Seq<char>, sep: char)
    requires
        prefix.len() >= 1,
        prefix.last() == sep,
        !contains_char(rest, sep),
    ensures
        split_on(prefix + rest, sep) == split_on(prefix, sep).drop_last().push(rest),
    decreases rest.len(),
{
    lemma_split_on_nonempty(prefix.drop_last(), sep);
    if rest.len() == 0 {
        assert(rest == Seq::<char>::empty());
        assert(prefix + rest == prefix);
        assert(split_on(prefix, sep) == split_on(prefix.drop_last(), sep).push(Seq::<char>::empty()));
        assert(split_on(prefix, sep).drop_last() == split_on(prefix.drop_last(), sep));
        assert(split_on(prefix, sep).drop_last().push(rest) == split_on(prefix, sep));
    } else {
        let shorter = rest.drop_last();
        assert(!contains_char(shorter, sep)) by {
            if contains_char(shorter, sep) {
                let i = choose|i: int| 0 <= i < shorter.len() && shorter[i] == sep;
                assert(rest[i] == sep);
            }
        }
        lemma_split_append(prefix, shorter, sep);
        assert((prefix + rest).drop_last() == prefix + shorter);
        assert((prefix + rest).last() == rest.last());
        assert(rest.last() != sep) by {
            assert(rest[rest.len() - 1] == rest.last());
        }
        let base = split_on(prefix, sep).drop_last();
        lemma_split_on_nonempty(prefix, sep);
        assert(shorter.push(rest.last()) == rest);
        assert(base.push(shorter).update(base.len() as int, shorter.push(rest.last())) == base.push(rest));
    }
}

pub proof fn lemma_decimal_nonempty(n: nat)
    ensures
        decimal(n).len() >= 1,
    decreases n,
{
    if n >= 10 {
        lemma_decimal_nonempty(n / 10);
    }
}

// ---------------------------------------------------------------------------
// Conversions between `str` and characters

/// Calls `str::chars` and collects what it yields, which is the string's
/// characters in order.
#[verifier::external_body]
pub(crate) fn chars_of(s: &str) -> (v: Vec<char>)
    ensures
        v@ == s@,
{
    s.chars().collect()
}

/// Collects characters into a `String` through `FromIterator<char>`, which
/// appends each in turn.
#[verifier::external_body]
pub(crate) fn string_of(v: &[char]) -> (s: String)
    ensures
        s@ == v@,
{
    v.iter().collect()
}

/// A copy of a string slice.
pub fn owned(s: &str) -> (r: String)
    ensures
        r@ == s@,
{
    String::from_str(s)
}

// ---------------------------------------------------------------------------
// Executable counterparts

pub fn is_white_space_char(c: char) -> (b: bool)
    ensures
        b == is_white_space(c),
{
    ('\u{9}' <= c && c <= '\u{d}') || c == ' ' || c == '\u{85}' || c == '\u{a0}' || c == '\u{1680}'
        || ('\u{2000}' <= c && c <= '\u{200a}') || c == '\u{2028}' || c == '\u{2029}'
        || c == '\u{202f}' || c == '\u{205f}' || c == '\u{3000}'
}

/// Whether the text trims to nothing.
pub fn is_blank_text(s: &str) -> (b: bool)
    ensures
        b == is_blank(s@),
{
    let v = chars_of(s);
    let mut i: usize = 0;
    while i < v.len()
        invariant
            v@ == s@,
            i <= v.len(),
            forall|j: int| 0 <= j < i ==> #[trigger] is_white_space(v@[j]),
        decreases v.len() - i,
    {
        if !is_white_space_char(v[i]) {
            return false;
        }
        i = i + 1;
    }
    true
}

pub proof fn lemma_trim_start_skip(s: Seq<char>, k: int)
    requires
        0 <= k <= s.len(),
        forall|j: int| 0 <= j < k ==> #[trigger] is_white_space(s[j]),
    ensures
        trim_start(s) == trim_start(s.skip(k)),
    decreases k,
{
    if k > 0 {
        assert(is_white_space(s[0]));
        lemma_trim_start_skip(s.drop_first(), k - 1);
        assert(s.drop_first().skip(k - 1) == s.skip(k));
    } else {
        assert(s.skip(0) == s);
    }
}

pub proof fn lemma_trim_end_take(s: Seq<char>, k: int)
    requires
        0 <= k <= s.len(),
        forall|j: int| k <= j < s.len() ==> #[trigger] is_white_space(s[j]),
    ensures
        trim_end(s) == trim_end(s.take(k)),
    decreases s.len() - k,
{
    if k < s.len() {
        assert(is_white_space(s[s.len() - 1]));
        assert(s.drop_last().take(k) == s.take(k));
        lemma_trim_end_take(s.drop_last(), k);
    } else {
        assert(s.take(k) == s);
    }
}

/// What `str::trim` gives back, as an owned string.
pub fn trimmed(s: &str) -> (r: String)
    ensures
        r@ == trim(s@),
{
    let v = chars_of(s);
    let mut start: usize = 0;
    while start < v.len() && is_white_space_char(v[start])
        invariant
            v@ == s@,
            start <= v.len(),
            forall|j: int| 0 <= j < start ==> #[trigger] is_white_space(v@[j]),
        decreases v.len() - start,
    {
        start = start + 1;
    }
    proof {
        lemma_trim_start_skip(v@, start as int);
    }
    let mut end: usize = v.len();
    while end > start && is_white_space_char(v[end - 1])
        invariant
            v@ == s@,
            start <= end <= v.len(),
            forall|j: int| end <= j < v.len() ==> #[trigger] is_white_space(v@[j]),
        decreases end,
    {
        end = end - 1;
    }
    let ghost rest = v@.skip(start as int);
    proof {
        if start < v.len() {
            assert(!is_white_space(v@[start as int]));
            assert(rest[0] == v@[start as int]);
        }
        assert(trim_start(rest) == rest);
        lemma_trim_end_take(rest, end - start);
        assert(rest.take(end - start) == v@.subrange(start as int, end as int));
        if end > start {
            let t = v@.subrange(start as int, end as int);
            assert(t.last() == v@[end - 1]);
        }
    }
    string_of(&v.as_slice()[start..end])
}


pub fn has_prefix(s: &str, prefix: &str) -> (b: bool)
    ensures
        b == starts_with(s@, prefix@),
{
    let v = chars_of(s);
    let p = chars_of(prefix);
    if p.len() > v.len() {
        return false;
    }
    let mut i: usize = 0;
    while i < p.len()
        invariant
            v@ == s@,
            p@ == prefix@,
            p.len() <= v.len(),
            i <= p.len(),
            forall|j: int| 0 <= j < i ==> v@[j] == p@[j],
        decreases p.len() - i,
    {
        if v[i] != p[i] {
            assert(s@.take(prefix@.len() as int)[i as int] != prefix@[i as int]);
            return false;
        }
        i = i + 1;
    }
    assert(s@.take(prefix@.len() as int) =~= prefix@);
    true
}

pub fn has_suffix(s: &str, suffix: &str) -> (b: bool)
    ensures
        b == ends_with(s@, suffix@),
{
    let v = chars_of(s);
    let p = chars_of(suffix);
    if p.len() > v.len() {
        return false;
    }
    let offset = v.len() - p.len();
    let mut i: usize = 0;
    while i < p.len()
        invariant
            v@ == s@,
            p@ == suffix@,
            offset == v.len() - p.len(),
            i <= p.len(),
            forall|j: int| 0 <= j < i ==> v@[offset + j] == p@[j],
        decreases p.len() - i,
    {
        if v[offset + i] != p[i] {
            assert(s@.skip(offset as int)[i as int] != suffix@[i as int]);
            return false;
        }
        i = i + 1;
    }
    assert(s@.skip(offset as int) =~= suffix@);
    true
}

pub fn has_char(s: &str, c: char) -> (b: bool)
    ensures
        b == contains_char(s@, c),
{
    let v = chars_of(s);
    let mut i: usize = 0;
    while i < v.len()
        invariant
            v@ == s@,
            i <= v.len(),
            forall|j: int| 0 <= j < i ==> v@[j] != c,
        decreases v.len() - i,
    {
        if v[i] == c {
            return true;
        }
        i = i + 1;
    }
    false
}

/// `str::split` on one character, each piece owned.
pub fn split_text(s: &str, sep: char) -> (r: Vec<String>)
    ensures
        views(r@) == split_on(s@, sep),
{
    let v = chars_of(s);
    let mut pieces: Vec<String> = Vec::new();
    let mut current: Vec<char> = Vec::new();
    let mut i: usize = 0;
    assert(v@.take(0) =~= Seq::<char>::empty());
    assert(views(pieces@).push(current@) =~= seq![Seq::<char>::empty()]);
    while i < v.len()
        invariant
            v@ == s@,
            i <= v.len(),
            views(pieces@).push(current@) == split_on(v@.take(i as int), sep),
        decreases v.len() - i,
    {
        let ghost before = split_on(v@.take(i as int), sep);
        assert(v@.take(i + 1).drop_last() == v@.take(i as int));
        assert(v@.take(i + 1).last() == v@[i as int]);
        if v[i] == sep {
            let piece = string_of(current.as_slice());
            pieces.push(piece);
            current = Vec::new();
            assert(views(pieces@) == before);
            assert(views(pieces@).push(current@) =~= before.push(Seq::<char>::empty()));
        } else {
            current.push(v[i]);
            assert(views(pieces@).push(current@) =~= before.update(before.len() - 1, before.last().push(v@[i as int])));
        }
        i = i + 1;
    }
    assert(v@.take(v.len() as int) == v@);
    let last = string_of(current.as_slice());
    pieces.push(last);
    assert(views(pieces@) =~= split_on(s@, sep));
    pieces
}

/// The pieces joined with `sep` between each pair, as `[String]::join` does.
pub fn join_texts(pieces: &Vec<String>, sep: &str) -> (r: String)
    ensures
        r@ == join(views(pieces@), sep@),
{
    let mut r = String::new();
    let mut i: usize = 0;
    assert(views(pieces@).take(0) =~= Seq::<Seq<char>>::empty());
    while i < pieces.len()
        invariant
            i <= pieces.len(),
            r@ == join(views(pieces@).take(i as int), sep@),
        decreases pieces.len() - i,
    {
        let ghost whole = views(pieces@);
        assert(whole.take(i + 1).drop_last() == whole.take(i as int));
        assert(whole.take(i + 1).last() == pieces@[i as int]@);
        if i > 0 {
            r.append(sep);
        } else {
            assert(whole.take(1)[0] == pieces@[0]@);
        }
        r.append(pieces[i].as_str());
        i = i + 1;
    }
    assert(views(pieces@).take(pieces.len() as int) == views(pieces@));
    r
}

/// Every backslash in a path turned into a forward slash, as
/// `str::replace('\\', "/")` does.
pub fn with_forward_slashes(s: &str) -> (r: String)
    ensures
        r@ == forward_slashes(s@),
{
    let v = chars_of(s);
    let mut out: Vec<char> = Vec::new();
    let mut i: usize = 0;
    while i < v.len()
        invariant
            v@ == s@,
            i <= v.len(),
            out@ == forward_slashes(v@.take(i as int)),
        decreases v.len() - i,
    {
        let c = v[i];
        if c == '\u{5c}' {
            out.push('/');
        } else {
            out.push(c);
        }
        i = i + 1;
        assert(out@ =~= forward_slashes(v@.take(i as int)));
    }
    assert(v@.take(v.len() as int) == v@);
    string_of(out.as_slice())
}

fn digit(d: usize) -> (c: char)
    requires
        d < 10,
    ensures
        c == digit_char(d as nat),
{
    if d == 0 { '0' }
    else if d == 1 { '1' }
    else if d == 2 { '2' }
    else if d == 3 { '3' }
    else if d == 4 { '4' }
    else if d == 5 { '5' }
    else if d == 6 { '6' }
    else if d == 7 { '7' }
    else if d == 8 { '8' }
    else { '9' }
}

fn decimal_chars(n: usize) -> (v: Vec<char>)
    ensures
        v@ == decimal(n as nat),
    decreases n,
{
    if n < 10 {
        let mut v = Vec::new();
        v.push(digit(n));
        assert(v@ =~= seq![digit_char(n as nat)]);
        v
    } else {
        let mut v = decimal_chars(n / 10);
        v.push(digit(n % 10));
        v
    }
}

/// A number written out in decimal.
pub fn decimal_text(n: usize) -> (r: String)
    ensures
        r@ == decimal(n as nat),
{
    let v = decimal_chars(n);
    string_of(v.as_slice())
}

/// Whether `a` sorts no later than `b`, as `<=` on `str` decides.
pub fn text_at_most(a: &str, b: &str) -> (r: bool)
    ensures
        r == text_le(a@, b@),
{
    let x = chars_of(a);
    let y = chars_of(b);
    let mut i: usize = 0;
    assert(x@.skip(0) == x@);
    assert(y@.skip(0) == y@);
    while i < x.len() && i < y.len() && x[i] == y[i]
        invariant
            x@ == a@,
            y@ == b@,
            i <= x.len(),
            i <= y.len(),
            text_le(a@, b@) == text_le(x@.skip(i as int), y@.skip(i as int)),
        decreases x.len() - i,
    {
        assert(x@.skip(i as int).drop_first() == x@.skip(i + 1));
        assert(y@.skip(i as int).drop_first() == y@.skip(i + 1));
        i = i + 1;
    }
    if i == x.len() {
        return true;
    }
    if i == y.len() {
        return false;
    }
    assert(x@.skip(i as int)[0] == x@[i as int]);
    assert(y@.skip(i as int)[0] == y@[i as int]);
    x[i] < y[i]
}

/// Whether two string slices hold the same characters.
pub fn same_text(a: &str, b: &str) -> (r: bool)
    ensures
        r == (a@ == b@),
{
    let x = owned(a);
    let y = owned(b);
    x == y
}

/// Names what `str::to_lowercase` gives back: the Unicode lowercase mapping,
/// applied character by character, some characters mapping to several.
pub uninterp spec fn lowercase(s: Seq<char>) -> Seq<char>;

/// Calls `str::to_lowercase`. Its result is stated only through the name
/// `lowercase`, which depends on the text alone.
#[verifier::external_body]
pub(crate) fn to_lowercase(s: &str) -> (r: String)
    ensures
        r@ == lowercase(s@),
{
    s.to_lowercase()
}

/// Names what `format!("{:?}", s)` writes for a string slice: the text in
/// double quotes, with quotes, backslashes and control characters escaped.
pub uninterp spec fn debug_quoted(s: Seq<char>) -> Seq<char>;

/// Formats a string slice with `Debug`. Its result is stated only through the
/// name `debug_quoted`, which depends on the text alone.
#[verifier::external_body]
pub(crate) fn quoted(s: &str) -> (r: String)
    ensures
        r@ == debug_quoted(s@),
{
    format!("{:?}", s)
}


/// `pattern` sits in `s` starting at `i`.
pub open spec fn occurs_at(s: Seq<char>, pattern: Seq<char>, i: int) -> bool {
    0 <= i && i + pattern.len() <= s.len() && s.subrange(i, i + pattern.len()) == pattern
}

pub open spec fn occurs(s: Seq<char>, pattern: Seq<char>) -> bool {
    exists|i: int| occurs_at(s, pattern, i)
}

pub open spec fn is_first_occurrence(s: Seq<char>, pattern: Seq<char>, i: int) -> bool {
    occurs_at(s, pattern, i) && forall|j: int| 0 <= j < i ==> !occurs_at(s, pattern, j)
}

pub open spec fn first_occurrence(s: Seq<char>, pattern: Seq<char>) -> int {
    choose|i: int| is_first_occurrence(s, pattern, i)
}

/// What follows the first occurrence of `pattern`, as the second half of
/// `str::split_once` gives it.
pub open spec fn after_first(s: Seq<char>, pattern: Seq<char>) -> Option<Seq<char>> {
    if occurs(s, pattern) {
        Some(s.skip(first_occurrence(s, pattern) + pattern.len()))
    } else {
        None
    }
}

pub proof fn lemma_first_occurrence_unique(s: Seq<char>, pattern: Seq<char>, i: int)
    requires
        is_first_occurrence(s, pattern, i),
    ensures
        first_occurrence(s, pattern) == i,
{
    let k = first_occurrence(s, pattern);
    assert(is_first_occurrence(s, pattern, k));
    if k < i {
        assert(!occurs_at(s, pattern, k));
    } else if k > i {
        assert(!occurs_at(s, pattern, i));
    }
}

/// The text after the first occurrence of `pattern`, if it occurs.
pub fn text_after(s: &str, pattern: &str) -> (r: Option<String>)
    ensures
        match r {
            Some(t) => after_first(s@, pattern@) == Some(t@),
            None => after_first(s@, pattern@).is_none(),
        },
{
    let v = chars_of(s);
    let p = chars_of(pattern);
    if p.len() > v.len() {
        assert forall|i: int| !occurs_at(s@, pattern@, i) by {}
        return None;
    }
    let last = v.len() - p.len();
    let mut i: usize = 0;
    while i <= last
        invariant
            v@ == s@,
            p@ == pattern@,
            last == v.len() - p.len(),
            p.len() <= v.len(),
            i <= last + 1,
            forall|j: int| 0 <= j < i ==> !occurs_at(s@, pattern@, j),
        decreases last + 1 - i,
    {
        let mut k: usize = 0;
        while k < p.len() && v[i + k] == p[k]
            invariant
                v@ == s@,
                p@ == pattern@,
                i <= last,
                last == v.len() - p.len(),
                k <= p.len(),
                forall|m: int| 0 <= m < k ==> v@[i + m] == p@[m],
            decreases p.len() - k,
        {
            k = k + 1;
        }
        if k == p.len() {
            assert(s@.subrange(i as int, i + pattern@.len()) =~= pattern@);
            assert(is_first_occurrence(s@, pattern@, i as int));
            proof {
                lemma_first_occurrence_unique(s@, pattern@, i as int);
            }
            let rest = string_of(&v.as_slice()[i + p.len()..v.len()]);
            assert(rest@ =~= s@.skip(i + pattern@.len()));
            return Some(rest);
        }
        assert(!occurs_at(s@, pattern@, i as int)) by {
            if occurs_at(s@, pattern@, i as int) {
                assert(s@.subrange(i as int, i + pattern@.len())[k as int] == v@[i + k]);
            }
        }
        i = i + 1;
    }
    assert forall|j: int| !occurs_at(s@, pattern@, j) by {
        if 0 <= j && j < i {
        }
    }
    None
}


// ---------------------------------------------------------------------------
// Order

pub proof fn lemma_text_le_total(a: Seq<char>, b: Seq<char>)
    ensures
        text_le(a, b) || text_le(b, a),
    decreases a.len(),
{
    if a.len() > 0 && b.len() > 0 && a[0] == b[0] {
        lemma_text_le_total(a.drop_first(), b.drop_first());
    }
}

pub proof fn lemma_text_le_antisymmetric(a: Seq<char>, b: Seq<char>)
    requires
        text_le(a, b),
        text_le(b, a),
    ensures
        a == b,
    decreases a.len(),
{
    if a.len() == 0 {
        assert(b.len() == 0);
        assert(a =~= b);
    } else {
        assert(b.len() > 0);
        assert(a[0] == b[0]);
        lemma_text_le_antisymmetric(a.drop_first(), b.drop_first());
        assert(a =~= seq![a[0]] + a.drop_first());
        assert(b =~= seq![b[0]] + b.drop_first());
    }
}

pub proof fn lemma_text_le_transitive(a: Seq<char>, b: Seq<char>, c: Seq<char>)
    requires
        text_le(a, b),
        text_le(b, c),
    ensures
        text_le(a, c),
    decreases a.len(),
{
    if a.len() > 0 && b.len() > 0 && c.len() > 0 && a[0] == b[0] && b[0] == c[0] {
        lemma_text_le_transitive(a.drop_first(), b.drop_first(), c.drop_first());
    }
}

pub proof fn lemma_text_le_reflexive(a: Seq<char>)
    ensures
        text_le(a, a),
    decreases a.len(),
{
    if a.len() > 0 {
        lemma_text_le_reflexive(a.drop_first());
    }
}

/// Each text sorts strictly before every later one: sorted, with no repeats.
pub open spec fn strictly_sorted(s: Seq<Seq<char>>) -> bool {
    forall|i: int, j: int| 0 <= i < j < s.len() ==> text_lt(#[trigger] s[i], #[trigger] s[j])
}

/// Adds `x` to a strictly sorted list of strings unless it is already there,
/// keeping the list strictly sorted.
pub fn insert_sorted(v: &mut Vec<String>, x: String)
    requires
        strictly_sorted(views(old(v)@)),
    ensures
        strictly_sorted(views(final(v)@)),
        forall|t: Seq<char>| #[trigger] views(final(v)@).contains(t) <==> (views(old(v)@).contains(t) || t == x@),
{
    let ghost before = views(v@);
    let mut p: usize = 0;
    while p < v.len() && !text_at_most(x.as_str(), v[p].as_str())
        invariant
            before == views(v@),
            p <= v.len(),
            forall|j: int| 0 <= j < p ==> text_lt(#[trigger] before[j], x@),
        decreases v.len() - p,
    {
        proof {
            lemma_text_le_total(x@, v@[p as int]@);
            assert(before[p as int] == v@[p as int]@);
            if before[p as int] == x@ {
                lemma_text_le_reflexive(x@);
            }
        }
        p = p + 1;
    }
    if p < v.len() && v[p] == x {
        assert(before[p as int] == x@);
        assert forall|t: Seq<char>| views(v@).contains(t) <==> (before.contains(t) || t == x@) by {
            if t == x@ {
                assert(views(v@)[p as int] == t);
            }
        }
        return;
    }
    proof {
        if p < v.len() {
            assert(before[p as int] == v@[p as int]@);
            assert(text_le(x@, before[p as int]));
            assert(x@ != before[p as int]);
        }
    }
    v.insert(p, x);
    let ghost after = views(v@);
    assert(after =~= before.insert(p as int, x@));
    assert forall|i: int, j: int| 0 <= i < j < after.len() implies text_lt(#[trigger] after[i], #[trigger] after[j]) by {
        if j < p {
            assert(after[i] == before[i] && after[j] == before[j]);
        } else if j == p {
            assert(after[i] == before[i]);
        } else if i == p {
            assert(after[j] == before[j - 1]);
            if j - 1 > p {
                assert(text_lt(before[p as int], before[j - 1]));
                lemma_text_le_transitive(x@, before[p as int], before[j - 1]);
                if x@ == before[j - 1] {
                    lemma_text_le_antisymmetric(x@, before[p as int]);
                }
            }
        } else if i < p {
            assert(after[i] == before[i]);
            assert(after[j] == before[j - 1]);
            if p < before.len() {
                assert(text_lt(before[i], x@));
                if j - 1 > p {
                    assert(text_lt(before[p as int], before[j - 1]));
                }
                assert(text_lt(before[i], before[j - 1]));
            } else {
                assert(false);
            }
        } else {
            assert(after[i] == before[i - 1]);
            assert(after[j] == before[j - 1]);
        }
    }
    assert forall|t: Seq<char>| after.contains(t) <==> (before.contains(t) || t == x@) by {
        if before.contains(t) {
            let k = choose|k: int| 0 <= k < before.len() && before[k] == t;
            if k < p {
                assert(after[k] == t);
            } else {
                assert(after[k + 1] == t);
            }
        }
        if t == x@ {
            assert(after[p as int] == t);
        }
        if after.contains(t) {
            let k = choose|k: int| 0 <= k < after.len() && after[k] == t;
            if k < p {
                assert(before[k] == t);
            } else if k > p {
                assert(before[k - 1] == t);
            }
        }
    }
}


/// Adds each of `more` to a strictly sorted list of strings.
pub fn insert_all_sorted(v: &mut Vec<String>, more: &Vec<String>)
    requires
        strictly_sorted(views(old(v)@)),
    ensures
        strictly_sorted(views(final(v)@)),
        forall|t: Seq<char>| #[trigger] views(final(v)@).contains(t) <==> (views(old(v)@).contains(t) || views(more@).contains(t)),
{
    let ghost start = views(v@);
    assert(start == views(old(v)@));
    let mut i: usize = 0;
    assert(views(more@).take(0) =~= Seq::<Seq<char>>::empty());
    while i < more.len()
        invariant
            i <= more.len(),
            start == views(old(v)@),
            strictly_sorted(views(v@)),
            forall|t: Seq<char>| #[trigger] views(v@).contains(t) <==> (start.contains(t) || views(more@).take(i as int).contains(t)),
        decreases more.len() - i,
    {
        let ghost before = views(v@);
        let x = more[i].clone();
        assert(x@ == views(more@)[i as int]);
        insert_sorted(v, x);
        assert forall|t: Seq<char>| views(v@).contains(t) <==> (start.contains(t) || views(more@).take(i + 1).contains(t)) by {
            let taken = views(more@).take(i + 1);
            assert(views(v@).contains(t) <==> (before.contains(t) || t == x@));
            assert(before.contains(t) <==> (start.contains(t) || views(more@).take(i as int).contains(t)));
            if taken.contains(t) {
                let k = choose|k: int| 0 <= k < taken.len() && taken[k] == t;
                if k < i {
                    assert(views(more@).take(i as int)[k] == t);
                }
            }
            if views(more@).take(i as int).contains(t) {
                let k = choose|k: int| 0 <= k < i && views(more@).take(i as int)[k] == t;
                assert(taken[k] == t);
            }
            if t == more@[i as int]@ {
                assert(taken[i as int] == t);
            }
        }
        i = i + 1;
    }
    assert(views(more@).take(more.len() as int) == views(more@));
}

/// The strings sorted, each once.
pub fn sorted_unique(items: &Vec<String>) -> (r: Vec<String>)
    ensures
        strictly_sorted(views(r@)),
        forall|t: Seq<char>| #[trigger] views(r@).contains(t) <==> views(items@).contains(t),
{
    let mut r: Vec<String> = Vec::new();
    assert(views(r@) =~= Seq::<Seq<char>>::empty());
    insert_all_sorted(&mut r, items);
    r
}

/// A strictly sorted list is fixed by the texts it holds.
pub proof fn lemma_strictly_sorted_unique(a: Seq<Seq<char>>, b: Seq<Seq<char>>)
    requires
        strictly_sorted(a),
        strictly_sorted(b),
        forall|t: Seq<char>| a.contains(t) <==> b.contains(t),
    ensures
        a == b,
    decreases a.len(),
{
    if a.len() == 0 {
        if b.len() > 0 {
            assert(b.contains(b[0]));
        }
        assert(a =~= b);
    } else {
        assert(a.contains(a[0]));
        assert(b.len() > 0);
        assert(b.contains(b[0]));
        let ka = choose|k: int| 0 <= k < a.len() && a[k] == b[0];
        let kb = choose|k: int| 0 <= k < b.len() && b[k] == a[0];
        if ka > 0 {
            assert(text_lt(a[0], a[ka]));
            if kb > 0 {
                assert(text_lt(b[0], b[kb]));
                lemma_text_le_antisymmetric(a[0], b[0]);
            }
        }
        if kb > 0 && ka == 0 {
            assert(text_lt(b[0], b[kb]));
        }
        assert(a[0] == b[0]);
        let ta = a.drop_first();
        let tb = b.drop_first();
        assert forall|t: Seq<char>| ta.contains(t) <==> tb.contains(t) by {
            if ta.contains(t) {
                let k = choose|k: int| 0 <= k < ta.len() && ta[k] == t;
                assert(a[k + 1] == t);
                assert(text_lt(a[0], t));
                assert(b.contains(t));
                let m = choose|m: int| 0 <= m < b.len() && b[m] == t;
                assert(m != 0);
                assert(tb[m - 1] == t);
            }
            if tb.contains(t) {
                let k = choose|k: int| 0 <= k < tb.len() && tb[k] == t;
                assert(b[k + 1] == t);
                assert(text_lt(b[0], t));
                assert(a.contains(t));
                let m = choose|m: int| 0 <= m < a.len() && a[m] == t;
                assert(m != 0);
                assert(ta[m - 1] == t);
            }
        }
        lemma_strictly_sorted_unique(ta, tb);
        assert(a =~= seq![a[0]] + ta);
        assert(b =~= seq![b[0]] + tb);
    }
}


/// What `str::trim_start` gives back, as an owned string.
pub fn trimmed_start(s: &str) -> (r: String)
    ensures
        r@ == trim_start(s@),
{
    let v = chars_of(s);
    let mut start: usize = 0;
    while start < v.len() && is_white_space_char(v[start])
        invariant
            v@ == s@,
            start <= v.len(),
            forall|j: int| 0 <= j < start ==> #[trigger] is_white_space(v@[j]),
        decreases v.len() - start,
    {
        start = start + 1;
    }
    proof {
        lemma_trim_start_skip(v@, start as int);
        if start < v.len() {
            assert(v@.skip(start as int)[0] == v@[start as int]);
        }
    }
    let r = string_of(&v.as_slice()[start..v.len()]);
    assert(r@ =~= v@.skip(start as int));
    r
}

/// Whether the text has no characters.
pub fn is_empty_text(s: &str) -> (b: bool)
    ensures
        b == (s@.len() == 0),
{
    s.unicode_len() == 0
}

/// The one strictly sorted list holding exactly the texts `has` holds of;
/// meaningful where there are finitely many.
pub open spec fn sorted_of(has: spec_fn(Seq<char>) -> bool) -> Seq<Seq<char>> {
    choose|s: Seq<Seq<char>>| strictly_sorted(s) && forall|t: Seq<char>| #[trigger] s.contains(t) <==> has(t)
}

/// Whatever strictly sorted list holds exactly those texts is the one
/// `sorted_of` names.
pub proof fn lemma_sorted_of(has: spec_fn(Seq<char>) -> bool, s: Seq<Seq<char>>)
    requires
        strictly_sorted(s),
        forall|t: Seq<char>| #[trigger] s.contains(t) <==> has(t),
    ensures
        sorted_of(has) == s,
{
    let chosen = sorted_of(has);
    assert(strictly_sorted(chosen) && forall|t: Seq<char>| #[trigger] chosen.contains(t) <==> has(t));
    lemma_strictly_sorted_unique(chosen, s);
}

/// Whether any of the texts is `t`.
pub fn contains_text(v: &Vec<String>, t: &str) -> (b: bool)
    ensures
        b == views(v@).contains(t@),
{
    let mut i: usize = 0;
    while i < v.len()
        invariant
            i <= v.len(),
            forall|k: int| 0 <= k < i ==> views(v@)[k] != t@,
        decreases v.len() - i,
    {
        if same_text(v[i].as_str(), t) {
            assert(views(v@)[i as int] == t@);
            return true;
        }
        i = i + 1;
    }
    assert(!views(v@).contains(t@)) by {
        if views(v@).contains(t@) {
            let k = choose|k: int| 0 <= k < views(v@).len() && views(v@)[k] == t@;
            assert(views(v@)[k] != t@);
        }
    }
    false
}

/// Appends the texts of `more`, in order.
pub fn extend_texts(v: &mut Vec<String>, more: Vec<String>)
    ensures
        views(final(v)@) == views(old(v)@) + views(more@),
{
    let mut more = more;
    let ghost added = more@;
    v.append(&mut more);
    assert(views(v@) =~= views(old(v)@) + views(added));
}

} // verus!
