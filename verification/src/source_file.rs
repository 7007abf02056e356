//! One source file, already normalised so rules never have to think about how
//! it reached the disk.
//!
//! Two normalisations, both of which would otherwise make every file on a
//! Windows checkout fail a rule that is really about content: a trailing
//! carriage return is stripped from every line, and a leading UTF-8 byte order
//! mark is stripped from the text.
use vstd::prelude::*;
use crate::text::{
    chars_of, contains_char, ends_with, forward_slashes, is_blank, is_blank_text, join, join_texts,
    lemma_split_join, lemma_split_on_nonempty, lemma_split_pieces_lack_sep, split_on, split_text,
    starts_with, string_of, views, with_forward_slashes,
};

verus! {

pub open spec fn without_bom(s: Seq<char>) -> Seq<char> {
    if s.len() > 0 && s[0] == '\u{feff}' { s.drop_first() } else { s }
}

pub open spec fn without_cr(s: Seq<char>) -> Seq<char> {
    if s.len() > 0 && s.last() == '\r' { s.drop_last() } else { s }
}

/// The lines a text is read as: split on `\n`, each with one trailing `\r`
/// removed, after a leading byte order mark is dropped.
pub open spec fn normalised_lines(contents: Seq<char>) -> Seq<Seq<char>> {
    without_crs(split_on(without_bom(contents), '\n'))
}

/// Each line with one trailing carriage return removed.
pub open spec fn without_crs(lines: Seq<Seq<char>>) -> Seq<Seq<char>> {
    lines.map_values(|line: Seq<char>| without_cr(line))
}

/// The lines joined back with `\n`.
pub open spec fn rejoined(lines: Seq<Seq<char>>) -> Seq<char> {
    join(lines, seq!['\n'])
}

/// No line holds a newline, as no line of a text split on newlines does.
pub open spec fn single_lines(lines: Seq<Seq<char>>) -> bool {
    forall|k: int| 0 <= k < lines.len() ==> !contains_char(#[trigger] lines[k], '\n')
}

/// The lines a text is read as hold no newline.
pub proof fn lemma_normalised_lines_are_single(contents: Seq<char>)
    ensures
        single_lines(normalised_lines(contents)),
{
    let pieces = split_on(without_bom(contents), '\n');
    lemma_split_pieces_lack_sep(without_bom(contents), '\n');
    let lines = normalised_lines(contents);
    assert forall|k: int| 0 <= k < lines.len() implies !contains_char(#[trigger] lines[k], '\n') by {
        assert(!contains_char(pieces[k], '\n'));
        assert(lines[k] == without_cr(pieces[k]));
        if contains_char(lines[k], '\n') {
            let i = choose|i: int| 0 <= i < lines[k].len() && lines[k][i] == '\n';
            assert(pieces[k][i] == '\n');
        }
    }
}

pub struct SourceFileView {
    pub path: Seq<char>,
    pub lines: Seq<Seq<char>>,
}

pub struct SourceFile {
    relative_path: String,
    lines: Vec<String>,
}

impl View for SourceFile {
    type V = SourceFileView;

    closed spec fn view(&self) -> SourceFileView {
        SourceFileView { path: self.relative_path@, lines: views(self.lines@) }
    }
}

/// One trailing carriage return removed.
pub fn strip_cr(s: &str) -> (r: String)
    ensures
        r@ == without_cr(s@),
{
    let v = chars_of(s);
    if v.len() > 0 && v[v.len() - 1] == '\r' {
        let r = string_of(&v.as_slice()[0..v.len() - 1]);
        assert(r@ =~= s@.drop_last());
        r
    } else {
        string_of(v.as_slice())
    }
}

/// A leading byte order mark removed.
pub fn strip_bom(s: &str) -> (r: String)
    ensures
        r@ == without_bom(s@),
{
    let v = chars_of(s);
    if v.len() > 0 && v[0] == '\u{feff}' {
        let r = string_of(&v.as_slice()[1..v.len()]);
        assert(r@ =~= s@.drop_first());
        r
    } else {
        string_of(v.as_slice())
    }
}

/// The normalised lines of a text.
pub fn lines_of(contents: &str) -> (r: Vec<String>)
    ensures
        views(r@) == normalised_lines(contents@),
{
    let text = strip_bom(contents);
    let pieces = split_text(text.as_str(), '\n');
    let mut lines: Vec<String> = Vec::new();
    let mut i: usize = 0;
    while i < pieces.len()
        invariant
            i <= pieces.len(),
            views(pieces@) == split_on(without_bom(contents@), '\n'),
            views(lines@) == without_crs(views(pieces@).take(i as int)),
        decreases pieces.len() - i,
    {
        let line = strip_cr(pieces[i].as_str());
        let ghost before = views(lines@);
        lines.push(line);
        i = i + 1;
        assert(views(lines@) =~= before.push(without_cr(pieces@[i - 1]@)));
        assert(views(lines@) =~= without_crs(views(pieces@).take(i as int)));
    }
    assert(views(pieces@).take(pieces.len() as int) == views(pieces@));
    lines
}

impl SourceFile {
    #[verifier::type_invariant]
    spec fn lines_are_single(self) -> bool {
        single_lines(views(self.lines@))
    }

    pub fn new(relative_path: &str, contents: &str) -> (f: SourceFile)
        ensures
            f@.path == forward_slashes(relative_path@),
            f@.lines == normalised_lines(contents@),
    {
        let lines = lines_of(contents);
        proof {
            lemma_normalised_lines_are_single(contents@);
        }
        SourceFile { relative_path: with_forward_slashes(relative_path), lines }
    }

    /// A copy of the file.
    pub fn copied(&self) -> (f: SourceFile)
        ensures
            f@ == self@,
    {
        proof {
            use_type_invariant(self);
        }
        SourceFile { relative_path: self.relative_path.clone(), lines: crate::settings::rule_selection::copy_all(&self.lines) }
    }

    /// The same file with new contents.
    pub fn with_contents(&self, contents: &str) -> (f: SourceFile)
        ensures
            f@.path == self@.path,
            f@.lines == normalised_lines(contents@),
    {
        let lines = lines_of(contents);
        proof {
            lemma_normalised_lines_are_single(contents@);
        }
        SourceFile { relative_path: self.relative_path.clone(), lines }
    }

    pub fn relative_path(&self) -> (r: &str)
        ensures
            r@ == self@.path,
    {
        self.relative_path.as_str()
    }

    pub fn lines(&self) -> (r: &Vec<String>)
        ensures
            views(r@) == self@.lines,
            single_lines(self@.lines),
    {
        proof {
            use_type_invariant(self);
        }
        &self.lines
    }

    /// Rejoined from the normalised lines rather than kept alongside them, so
    /// a parser and a line-counting rule can never disagree about what the
    /// file says.
    pub fn contents(&self) -> (r: String)
        ensures
            r@ == rejoined(self@.lines),
            single_lines(self@.lines),
    {
        proof {
            use_type_invariant(self);
            reveal_strlit("\n");
            assert("\n"@ =~= seq!['\n']);
        }
        join_texts(&self.lines, "\n")
    }

    /// An empty file splits into one empty line, which is not the same as
    /// having a line of content: a file is empty when every line is blank.
    pub fn is_empty(&self) -> (b: bool)
        ensures
            b == (forall|i: int| 0 <= i < self@.lines.len() ==> #[trigger] is_blank(self@.lines[i])),
    {
        let mut i: usize = 0;
        while i < self.lines.len()
            invariant
                i <= self.lines.len(),
                forall|j: int| 0 <= j < i ==> #[trigger] is_blank(views(self.lines@)[j]),
            decreases self.lines.len() - i,
        {
            if !is_blank_text(self.lines[i].as_str()) {
                assert(views(self.lines@)[i as int] == self.lines@[i as int]@);
                assert(!is_blank(self@.lines[i as int]));
                return false;
            }
            i = i + 1;
        }
        true
    }
}

/// Reading a file's contents back gives the same lines, wherever
/// normalising them a second time has nothing left to strip: no line ends in
/// a carriage return and the first does not open with a byte order mark.
pub proof fn law_contents_read_back(contents: Seq<char>)
    requires
        forall|i: int| 0 <= i < normalised_lines(contents).len()
            ==> !ends_with(#[trigger] normalised_lines(contents)[i], seq!['\r']),
        normalised_lines(contents).len() > 0 ==> !starts_with(normalised_lines(contents)[0], seq!['\u{feff}']),
    ensures
        normalised_lines(rejoined(normalised_lines(contents))) == normalised_lines(contents),
{
    let text = without_bom(contents);
    let pieces = split_on(text, '\n');
    let lines = normalised_lines(contents);
    lemma_split_on_nonempty(text, '\n');
    lemma_split_pieces_lack_sep(text, '\n');
    assert forall|i: int| 0 <= i < lines.len() implies !contains_char(#[trigger] lines[i], '\n') by {
        assert(!contains_char(pieces[i], '\n'));
        if contains_char(lines[i], '\n') {
            let k = choose|k: int| 0 <= k < lines[i].len() && lines[i][k] == '\n';
            assert(pieces[i][k] == lines[i][k]);
        }
    }
    lemma_split_join(lines, '\n');
    let joined = rejoined(lines);
    if joined.len() > 0 && joined[0] == '\u{feff}' {
        lemma_join_first(lines, seq!['\n']);
        if lines[0].len() > 0 {
            assert(lines[0][0] == joined[0]);
            assert(lines[0].take(1) =~= seq!['\u{feff}']);
        } else {
            assert(lines.len() == 1 ==> joined == lines[0]);
            lemma_join_second(lines, seq!['\n']);
        }
    }
    assert(without_bom(joined) == joined);
    assert forall|i: int| 0 <= i < lines.len() implies #[trigger] without_cr(lines[i]) == lines[i] by {
        if lines[i].len() > 0 && lines[i].last() == '\r' {
            assert(lines[i].skip(lines[i].len() - 1) =~= seq!['\r']);
        }
    }
    assert(without_crs(lines) =~= lines);
}

/// A join whose first piece is empty opens with the separator, when there is
/// more than one piece.
pub proof fn lemma_join_second(pieces: Seq<Seq<char>>, sep: Seq<char>)
    requires
        pieces.len() >= 2,
        pieces[0].len() == 0,
        sep.len() >= 1,
    ensures
        join(pieces, sep)[0] == sep[0],
    decreases pieces.len(),
{
    if pieces.len() == 2 {
        assert(pieces.drop_last()[0] == pieces[0]);
        assert(join(pieces.drop_last(), sep) == pieces[0]);
        assert((pieces[0] + sep + pieces.last())[0] == sep[0]);
    } else {
        lemma_join_second(pieces.drop_last(), sep);
        lemma_join_first(pieces.drop_last(), sep);
        let head = join(pieces.drop_last(), sep);
        assert(pieces.drop_last()[0] == pieces[0]);
        assert(head.len() >= 1) by {
            lemma_join_len(pieces.drop_last(), sep);
        }
        assert((head + sep + pieces.last())[0] == head[0]);
    }
}

/// A join of two or more pieces is at least as long as the separator.
pub proof fn lemma_join_len(pieces: Seq<Seq<char>>, sep: Seq<char>)
    requires
        pieces.len() >= 2,
    ensures
        join(pieces, sep).len() >= sep.len(),
{
}

/// A join opens with its first piece.
pub proof fn lemma_join_first(pieces: Seq<Seq<char>>, sep: Seq<char>)
    requires
        pieces.len() >= 1,
    ensures
        join(pieces, sep).len() >= pieces[0].len(),
        join(pieces, sep).take(pieces[0].len() as int) == pieces[0],
    decreases pieces.len(),
{
    if pieces.len() > 1 {
        lemma_join_first(pieces.drop_last(), sep);
        let head = join(pieces.drop_last(), sep);
        assert(pieces.drop_last()[0] == pieces[0]);
        assert((head + sep + pieces.last()).take(pieces[0].len() as int)
            =~= head.take(pieces[0].len() as int));
    }
}

} // verus!
