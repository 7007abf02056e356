//! What `--fix` writes is made of the file's own lines: the rewriter moves
//! whole lines and adds or drops empty ones, and never writes a line the file
//! did not hold. Nor does it drop or repeat one: each line that is not blank
//! is written as often as the file held it, where the items lie in the file
//! one after another.
use vstd::prelude::*;
use crate::settings::header_source::without_trailing_blanks;
use crate::source_file::{single_lines, SourceFileView};
use crate::test_file_item::TestFileItemView;
use crate::test_file_rewriter::{
    assembled, block_text, blocks, chunk, chunks_upto, newlines, preamble_text, rewritten, sat_dec, section_members,
    section_order, tail_text, without_leading_blanks, last_line_of, first_line_of,
};
use crate::text::{contains_char, is_blank, join, lemma_join_split, lemma_split_join, lemma_split_on_nonempty, lemma_split_pieces_lack_sep, split_on};
use crate::test_file_rewriter::members_of;
use crate::section::{blank_lines_between, Section};

verus! {

/// Each piece is empty or one of the file's lines.
pub open spec fn lines_of_file(pieces: Seq<Seq<char>>, lines: Seq<Seq<char>>) -> bool {
    forall|k: int| 0 <= k < pieces.len() ==> (#[trigger] pieces[k]).len() == 0 || lines.contains(pieces[k])
}

/// The text is the file's lines and empty lines, one after another.
pub open spec fn made_of_lines(t: Seq<char>, lines: Seq<Seq<char>>) -> bool {
    exists|pieces: Seq<Seq<char>>| lines_of_file(pieces, lines) && t == join(pieces, "\n"@)
}

pub proof fn lemma_join_concat(a: Seq<Seq<char>>, b: Seq<Seq<char>>, sep: Seq<char>)
    requires
        a.len() > 0,
        b.len() > 0,
    ensures
        join(a + b, sep) == join(a, sep) + sep + join(b, sep),
    decreases b.len(),
{
    assert((a + b).drop_last() =~= a + b.drop_last());
    assert((a + b).last() == b.last());
    if b.len() == 1 {
        assert(b.drop_last().len() == 0);
        assert(a + b.drop_last() =~= a);
    } else {
        lemma_join_concat(a, b.drop_last(), sep);
        assert(join(a, sep) + sep + join(b.drop_last(), sep) + sep + b.last() =~= join(a, sep) + sep + (join(
            b.drop_last(),
            sep,
        ) + sep + b.last()));
    }
}

pub proof fn lemma_nothing_is_made_of_lines(lines: Seq<Seq<char>>)
    ensures
        made_of_lines(Seq::<char>::empty(), lines),
{
    let pieces = Seq::<Seq<char>>::empty();
    assert(lines_of_file(pieces, lines));
    assert(join(pieces, "\n"@) == Seq::<char>::empty());
}

/// Pieces for a text made of lines that are never none: an empty text is one
/// empty piece.
proof fn some_pieces(t: Seq<char>, lines: Seq<Seq<char>>) -> (pieces: Seq<Seq<char>>)
    requires
        made_of_lines(t, lines),
    ensures
        pieces.len() > 0,
        lines_of_file(pieces, lines),
        t == join(pieces, "\n"@),
{
    let found = choose|pieces: Seq<Seq<char>>| lines_of_file(pieces, lines) && t == join(pieces, "\n"@);
    if found.len() == 0 {
        let one = seq![Seq::<char>::empty()];
        assert(join(one, "\n"@) == Seq::<char>::empty());
        assert(lines_of_file(one, lines));
        one
    } else {
        found
    }
}

/// Two texts made of lines, with a newline between, are made of lines.
pub proof fn lemma_glue(first: Seq<char>, second: Seq<char>, lines: Seq<Seq<char>>)
    requires
        made_of_lines(first, lines),
        made_of_lines(second, lines),
    ensures
        made_of_lines(first + "\n"@ + second, lines),
{
    let a = some_pieces(first, lines);
    let b = some_pieces(second, lines);
    lemma_join_concat(a, b, "\n"@);
    assert(lines_of_file(a + b, lines)) by {
        assert forall|k: int| 0 <= k < (a + b).len() implies (#[trigger] (a + b)[k]).len() == 0 || lines.contains(
            (a + b)[k],
        ) by {
            if k < a.len() {
                assert((a + b)[k] == a[k]);
            } else {
                assert((a + b)[k] == b[k - a.len()]);
            }
        }
    }
}

/// Two texts made of lines, with at least one newline between, are made of
/// lines.
pub proof fn lemma_glue_newlines(first: Seq<char>, second: Seq<char>, n: nat, lines: Seq<Seq<char>>)
    requires
        made_of_lines(first, lines),
        made_of_lines(second, lines),
        n >= 1,
    ensures
        made_of_lines(first + newlines(n) + second, lines),
    decreases n,
{
    reveal_strlit("\n");
    if n == 1 {
        assert(newlines(0) =~= Seq::<char>::empty());
        assert(newlines(1) =~= "\n"@);
        lemma_glue(first, second, lines);
    } else {
        lemma_nothing_is_made_of_lines(lines);
        lemma_glue_newlines(first, Seq::<char>::empty(), (n - 1) as nat, lines);
        let left = first + newlines((n - 1) as nat) + Seq::<char>::empty();
        lemma_glue(left, second, lines);
        assert(left + "\n"@ + second =~= first + newlines(n) + second);
    }
}

/// Texts made of lines, joined by at least one newline, are made of lines.
pub proof fn lemma_joined_texts(texts: Seq<Seq<char>>, n: nat, lines: Seq<Seq<char>>)
    requires
        n >= 1,
        forall|k: int| 0 <= k < texts.len() ==> made_of_lines(#[trigger] texts[k], lines),
    ensures
        made_of_lines(join(texts, newlines(n)), lines),
    decreases texts.len(),
{
    if texts.len() == 0 {
        lemma_nothing_is_made_of_lines(lines);
    } else if texts.len() == 1 {
        assert(made_of_lines(texts[0], lines));
    } else {
        lemma_joined_texts(texts.drop_last(), n, lines);
        assert(made_of_lines(texts.last(), lines));
        lemma_glue_newlines(join(texts.drop_last(), newlines(n)), texts.last(), n, lines);
    }
}

/// Lines taken from the file, joined, are made of lines.
pub proof fn lemma_joined_lines(taken: Seq<Seq<char>>, lines: Seq<Seq<char>>)
    requires
        forall|k: int| 0 <= k < taken.len() ==> lines.contains(#[trigger] taken[k]),
    ensures
        made_of_lines(join(taken, "\n"@), lines),
{
    assert(lines_of_file(taken, lines));
}

pub proof fn lemma_block_made_of_lines(lines: Seq<Seq<char>>, item: TestFileItemView)
    ensures
        made_of_lines(block_text(lines, item), lines),
{
    let start = sat_dec(item.first_line);
    if start >= lines.len() {
        lemma_nothing_is_made_of_lines(lines);
    } else {
        let rest = lines.skip(start as int);
        let count: nat = if item.last_line + 1 >= item.first_line {
            (item.last_line + 1 - item.first_line) as nat
        } else {
            0
        };
        let taken = rest.take(if count < rest.len() { count as int } else { rest.len() as int });
        assert forall|k: int| 0 <= k < taken.len() implies lines.contains(#[trigger] taken[k]) by {
            assert(taken[k] == lines[start + k]);
        }
        lemma_joined_lines(taken, lines);
    }
}

pub proof fn lemma_chunk_made_of_lines(lines: Seq<Seq<char>>, items: Seq<TestFileItemView>, section: crate::section::Section)
    ensures
        made_of_lines(chunk(lines, items, section), lines),
{
    let texts = blocks(lines, section_members(items, section));
    assert forall|k: int| 0 <= k < texts.len() implies made_of_lines(#[trigger] texts[k], lines) by {
        lemma_block_made_of_lines(lines, section_members(items, section)[k]);
    }
    lemma_joined_texts(texts, (crate::section::blank_lines_between(section) + 1) as nat, lines);
}

pub proof fn lemma_chunks_made_of_lines(lines: Seq<Seq<char>>, items: Seq<TestFileItemView>, n: nat)
    requires
        n <= 4,
    ensures
        forall|k: int| 0 <= k < chunks_upto(lines, items, n).len() ==> made_of_lines(
            #[trigger] chunks_upto(lines, items, n)[k],
            lines,
        ),
    decreases n,
{
    if n > 0 {
        lemma_chunks_made_of_lines(lines, items, (n - 1) as nat);
        lemma_chunk_made_of_lines(lines, items, section_order()[n - 1]);
        let earlier = chunks_upto(lines, items, (n - 1) as nat);
        assert forall|k: int| 0 <= k < chunks_upto(lines, items, n).len() implies made_of_lines(
            #[trigger] chunks_upto(lines, items, n)[k],
            lines,
        ) by {
            if k < earlier.len() {
                assert(chunks_upto(lines, items, n)[k] == earlier[k]);
            } else {
                assert(chunks_upto(lines, items, n)[k] == chunk(lines, items, section_order()[n - 1]));
            }
        }
    }
}

pub proof fn lemma_trailing_blanks_prefix(s: Seq<Seq<char>>)
    ensures
        without_trailing_blanks(s).len() <= s.len(),
        forall|k: int| 0 <= k < without_trailing_blanks(s).len() ==> #[trigger] without_trailing_blanks(s)[k] == s[k],
    decreases s.len(),
{
    if s.len() > 0 && crate::text::is_blank(s.last()) {
        lemma_trailing_blanks_prefix(s.drop_last());
    }
}

pub proof fn lemma_leading_blanks_suffix(s: Seq<Seq<char>>)
    ensures
        forall|k: int| 0 <= k < without_leading_blanks(s).len() ==> s.contains(#[trigger] without_leading_blanks(s)[k]),
    decreases s.len(),
{
    if s.len() > 0 && crate::text::is_blank(s[0]) {
        lemma_leading_blanks_suffix(s.drop_first());
        assert forall|k: int| 0 <= k < without_leading_blanks(s).len() implies s.contains(
            #[trigger] without_leading_blanks(s)[k],
        ) by {
            let x = without_leading_blanks(s)[k];
            assert(without_leading_blanks(s) == without_leading_blanks(s.drop_first()));
            assert(s.drop_first().contains(without_leading_blanks(s.drop_first())[k]));
            let j = choose|j: int| 0 <= j < s.drop_first().len() && s.drop_first()[j] == x;
            assert(s.drop_first()[j] == s[j + 1]);
        }
    } else {
        assert forall|k: int| 0 <= k < without_leading_blanks(s).len() implies s.contains(
            #[trigger] without_leading_blanks(s)[k],
        ) by {
            assert(s[k] == without_leading_blanks(s)[k]);
        }
    }
}

/// The file reassembled by the rewriter is made of the file's own lines and
/// empty ones.
pub proof fn lemma_assembled_made_of_lines(lines: Seq<Seq<char>>, items: Seq<TestFileItemView>)
    ensures
        made_of_lines(assembled(lines, items), lines),
{
    reveal_strlit("\n");
    reveal_strlit("\n\n");
    lemma_nothing_is_made_of_lines(lines);
    let chunks = chunks_upto(lines, items, 4);
    lemma_chunks_made_of_lines(lines, items, 4);
    assert("\n\n"@ =~= newlines(2)) by {
        assert(newlines(0) =~= Seq::<char>::empty());
        assert(newlines(1) =~= seq!['\n']);
    }
    lemma_joined_texts(chunks, 2, lines);
    let body = join(chunks, "\n\n"@);
    // The preamble: the lines above the first item, then one blank line.
    let keep = sat_dec(first_line_of(items));
    let kept = lines.take(if keep < lines.len() { keep as int } else { lines.len() as int });
    let trimmed = without_trailing_blanks(kept);
    lemma_trailing_blanks_prefix(kept);
    assert forall|k: int| 0 <= k < trimmed.len() implies lines.contains(#[trigger] trimmed[k]) by {
        assert(trimmed[k] == kept[k]);
        assert(kept[k] == lines[k]);
    }
    lemma_joined_lines(trimmed, lines);
    let front = preamble_text(lines, items) + body;
    if trimmed.len() == 0 {
        assert(front =~= body);
    } else {
        lemma_glue_newlines(join(trimmed, "\n"@), body, 2, lines);
        assert(front =~= join(trimmed, "\n"@) + newlines(2) + body);
    }
    assert(made_of_lines(front, lines));
    // The tail: the lines below the last item, then a newline.
    let last = last_line_of(items);
    let rest = if last < lines.len() { lines.skip(last as int) } else { Seq::<Seq<char>>::empty() };
    let inner = without_leading_blanks(rest);
    let tail_lines = without_trailing_blanks(inner);
    lemma_leading_blanks_suffix(rest);
    lemma_trailing_blanks_prefix(inner);
    assert forall|k: int| 0 <= k < tail_lines.len() implies lines.contains(#[trigger] tail_lines[k]) by {
        assert(tail_lines[k] == inner[k]);
        assert(rest.contains(inner[k]));
        let j = choose|j: int| 0 <= j < rest.len() && rest[j] == inner[k];
        assert(rest[j] == lines[last + j]);
    }
    lemma_joined_lines(tail_lines, lines);
    let tail = tail_text(lines, items);
    if tail.len() == 0 {
        lemma_glue(front, Seq::<char>::empty(), lines);
        assert(assembled(lines, items) =~= front + "\n"@ + Seq::<char>::empty());
    } else {
        lemma_glue(join(tail_lines, "\n"@), Seq::<char>::empty(), lines);
        assert(tail =~= join(tail_lines, "\n"@) + "\n"@ + Seq::<char>::empty());
        lemma_glue_newlines(front, tail, 2, lines);
        assert(assembled(lines, items) =~= front + newlines(2) + tail);
    }
}

/// `--fix` only moves whole lines: whatever items a file parses into, every
/// line of what the rewriter writes is a line the file already held, or an
/// empty line.
pub proof fn law_a_rewrite_only_moves_whole_lines(file: SourceFileView, items: Seq<TestFileItemView>)
    ensures
        rewritten(file, items) matches Some(t) ==> made_of_lines(t, file.lines),
{
    lemma_assembled_made_of_lines(file.lines, items);
}

/// `--fix` never reorders imports: the imports' chunk holds the import
/// blocks in the order the file wrote them, one after another, with no blank
/// line between.
pub proof fn law_imports_keep_their_written_order(lines: Seq<Seq<char>>, items: Seq<TestFileItemView>)
    ensures
        section_members(items, Section::Imports) == members_of(items, Section::Imports),
        chunk(lines, items, Section::Imports) == join(
            blocks(lines, members_of(items, Section::Imports)),
            newlines(blank_lines_between(Section::Imports) + 1),
        ),
        blank_lines_between(Section::Imports) == 0,
{
}

// ---------------------------------------------------------------------------
// Nothing dropped, nothing written twice

/// How many of the lines are `x`.
pub open spec fn occurrences_of(lines: Seq<Seq<char>>, x: Seq<char>) -> nat
    decreases lines.len(),
{
    if lines.len() == 0 {
        0
    } else {
        occurrences_of(lines.drop_last(), x) + if lines.last() == x { 1nat } else { 0nat }
    }
}

/// How many of a text's lines are `x`.
pub open spec fn line_count(t: Seq<char>, x: Seq<char>) -> nat {
    occurrences_of(split_on(t, '\n'), x)
}

/// The lines an item's block takes from the file.
pub open spec fn block_lines(lines: Seq<Seq<char>>, item: TestFileItemView) -> Seq<Seq<char>> {
    let start = sat_dec(item.first_line);
    let count: nat = if item.last_line + 1 >= item.first_line { (item.last_line + 1 - item.first_line) as nat } else { 0 };
    if start >= lines.len() {
        Seq::<Seq<char>>::empty()
    } else {
        let rest = lines.skip(start as int);
        rest.take(if count < rest.len() { count as int } else { rest.len() as int })
    }
}

/// How many of the items' blocks' lines are `x`, all items together.
pub open spec fn block_count(lines: Seq<Seq<char>>, items: Seq<TestFileItemView>, x: Seq<char>) -> nat
    decreases items.len(),
{
    if items.len() == 0 {
        0
    } else {
        block_count(lines, items.drop_last(), x) + occurrences_of(block_lines(lines, items.last()), x)
    }
}

/// How many of the texts' lines are `x`, all texts together.
pub open spec fn texts_count(texts: Seq<Seq<char>>, x: Seq<char>) -> nat
    decreases texts.len(),
{
    if texts.len() == 0 {
        0
    } else {
        texts_count(texts.drop_last(), x) + line_count(texts.last(), x)
    }
}

pub proof fn lemma_occurrences_concat(a: Seq<Seq<char>>, b: Seq<Seq<char>>, x: Seq<char>)
    ensures
        occurrences_of(a + b, x) == occurrences_of(a, x) + occurrences_of(b, x),
    decreases b.len(),
{
    if b.len() == 0 {
        assert(a + b =~= a);
    } else {
        lemma_occurrences_concat(a, b.drop_last(), x);
        assert((a + b).drop_last() =~= a + b.drop_last());
    }
}

pub proof fn lemma_joined_line_count(pieces: Seq<Seq<char>>, x: Seq<char>)
    requires
        single_lines(pieces),
        !is_blank(x),
    ensures
        line_count(join(pieces, "\n"@), x) == occurrences_of(pieces, x),
{
    reveal_strlit("\n");
    assert("\n"@ =~= seq!['\n']);
    if pieces.len() == 0 {
        lemma_empty_line_count(x);
        assert(join(pieces, "\n"@) == Seq::<char>::empty());
    } else {
        lemma_split_join(pieces, '\n');
    }
}

/// A newline between two texts adds their lines together.
pub proof fn lemma_glued_line_count(a: Seq<char>, b: Seq<char>, x: Seq<char>)
    ensures
        line_count(a + "\n"@ + b, x) == line_count(a, x) + line_count(b, x),
{
    reveal_strlit("\n");
    assert("\n"@ =~= seq!['\n']);
    let p = split_on(a, '\n');
    let q = split_on(b, '\n');
    lemma_join_split(a, '\n');
    lemma_join_split(b, '\n');
    lemma_split_on_nonempty(a, '\n');
    lemma_split_on_nonempty(b, '\n');
    lemma_split_pieces_lack_sep(a, '\n');
    lemma_split_pieces_lack_sep(b, '\n');
    lemma_join_concat(p, q, seq!['\n']);
    assert forall|i: int| 0 <= i < (p + q).len() implies !contains_char(#[trigger] (p + q)[i], '\n') by {
        if i < p.len() {
            assert((p + q)[i] == p[i]);
        } else {
            assert((p + q)[i] == q[i - p.len()]);
        }
    }
    lemma_split_join(p + q, '\n');
    lemma_occurrences_concat(p, q, x);
}

pub proof fn lemma_empty_line_count(x: Seq<char>)
    requires
        !is_blank(x),
    ensures
        line_count(Seq::<char>::empty(), x) == 0,
{
    lemma_not_blank_holds_a_char(x);
    let pieces = split_on(Seq::<char>::empty(), '\n');
    assert(pieces =~= seq![Seq::<char>::empty()]);
    assert(pieces.drop_last() =~= Seq::<Seq<char>>::empty());
    assert(occurrences_of(pieces.drop_last(), x) == 0);
    assert(pieces.last() != x);
}

/// A line that is not blank is not empty.
pub proof fn lemma_not_blank_holds_a_char(x: Seq<char>)
    requires
        !is_blank(x),
    ensures
        x.len() > 0,
{
    if x.len() == 0 {
        assert forall|i: int| 0 <= i < x.len() implies #[trigger] crate::text::is_white_space(x[i]) by {}
    }
}

/// Newlines between two texts add only empty lines.
pub proof fn lemma_newlines_line_count(a: Seq<char>, b: Seq<char>, n: nat, x: Seq<char>)
    requires
        n >= 1,
        !is_blank(x),
    ensures
        line_count(a + newlines(n) + b, x) == line_count(a, x) + line_count(b, x),
    decreases n,
{
    reveal_strlit("\n");
    if n == 1 {
        assert(newlines(0) =~= Seq::<char>::empty());
        assert(newlines(1) =~= "\n"@);
        lemma_glued_line_count(a, b, x);
    } else {
        let left = a + newlines((n - 1) as nat) + Seq::<char>::empty();
        lemma_newlines_line_count(a, Seq::<char>::empty(), (n - 1) as nat, x);
        lemma_empty_line_count(x);
        lemma_glued_line_count(left, b, x);
        assert(left + "\n"@ + b =~= a + newlines(n) + b);
    }
}

pub proof fn lemma_joined_texts_count(texts: Seq<Seq<char>>, n: nat, x: Seq<char>)
    requires
        n >= 1,
        !is_blank(x),
    ensures
        line_count(join(texts, newlines(n)), x) == texts_count(texts, x),
    decreases texts.len(),
{
    if texts.len() == 0 {
        lemma_empty_line_count(x);
    } else if texts.len() == 1 {
        assert(texts.drop_last() =~= Seq::<Seq<char>>::empty());
        assert(texts_count(texts.drop_last(), x) == 0);
        assert(join(texts, newlines(n)) == texts[0]);
    } else {
        lemma_joined_texts_count(texts.drop_last(), n, x);
        lemma_newlines_line_count(join(texts.drop_last(), newlines(n)), texts.last(), n, x);
    }
}

pub proof fn lemma_block_count_of_blocks(lines: Seq<Seq<char>>, items: Seq<TestFileItemView>, x: Seq<char>)
    requires
        single_lines(lines),
        !is_blank(x),
    ensures
        texts_count(blocks(lines, items), x) == block_count(lines, items, x),
    decreases items.len(),
{
    if items.len() > 0 {
        lemma_block_count_of_blocks(lines, items.drop_last(), x);
        assert(blocks(lines, items).drop_last() =~= blocks(lines, items.drop_last()));
        let item = items.last();
        let taken = block_lines(lines, item);
        assert forall|k: int| 0 <= k < taken.len() implies !contains_char(#[trigger] taken[k], '\n') by {
            assert(taken[k] == lines[sat_dec(item.first_line) + k]);
        }
        lemma_joined_line_count(taken, x);
        assert(block_text(lines, item) == join(taken, "\n"@));
    }
}

pub proof fn lemma_block_count_insert(
    lines: Seq<Seq<char>>,
    items: Seq<TestFileItemView>,
    i: int,
    item: TestFileItemView,
    x: Seq<char>,
)
    requires
        0 <= i <= items.len(),
    ensures
        block_count(lines, items.insert(i, item), x) == block_count(lines, items, x) + occurrences_of(
            block_lines(lines, item),
            x,
        ),
    decreases items.len(),
{
    if i == items.len() {
        assert(items.insert(i, item).drop_last() =~= items);
    } else {
        lemma_block_count_insert(lines, items.drop_last(), i, item, x);
        assert(items.insert(i, item).drop_last() =~= items.drop_last().insert(i, item));
        assert(items.insert(i, item).last() == items.last());
    }
}

pub proof fn lemma_place_by_key_bound(sorted: Seq<TestFileItemView>, item: TestFileItemView)
    ensures
        crate::test_file_rewriter::place_by_key(sorted, item) <= sorted.len(),
    decreases sorted.len(),
{
    if sorted.len() > 0 {
        lemma_place_by_key_bound(sorted.drop_first(), item);
    }
}

pub proof fn lemma_sorted_length(items: Seq<TestFileItemView>)
    ensures
        crate::test_file_rewriter::sorted_by_key(items).len() == items.len(),
    decreases items.len(),
{
    if items.len() > 0 {
        lemma_sorted_length(items.drop_last());
        let sorted = crate::test_file_rewriter::sorted_by_key(items.drop_last());
        lemma_place_by_key_bound(sorted, items.last());
    }
}

pub proof fn lemma_block_count_sorted(lines: Seq<Seq<char>>, items: Seq<TestFileItemView>, x: Seq<char>)
    ensures
        block_count(lines, crate::test_file_rewriter::sorted_by_key(items), x) == block_count(lines, items, x),
    decreases items.len(),
{
    if items.len() > 0 {
        lemma_block_count_sorted(lines, items.drop_last(), x);
        let sorted = crate::test_file_rewriter::sorted_by_key(items.drop_last());
        lemma_sorted_length(items.drop_last());
        lemma_place_by_key_bound(sorted, items.last());
        lemma_block_count_insert(
            lines,
            sorted,
            crate::test_file_rewriter::place_by_key(sorted, items.last()) as int,
            items.last(),
            x,
        );
    }
}

/// Each item belongs to exactly one of the four sections.
pub proof fn lemma_block_count_partition(lines: Seq<Seq<char>>, items: Seq<TestFileItemView>, x: Seq<char>)
    ensures
        block_count(lines, members_of(items, Section::Imports), x) + block_count(
            lines,
            members_of(items, Section::Constants),
            x,
        ) + block_count(lines, members_of(items, Section::Helpers), x) + block_count(
            lines,
            members_of(items, Section::Tests),
            x,
        ) == block_count(lines, items, x),
    decreases items.len(),
{
    if items.len() > 0 {
        lemma_block_count_partition(lines, items.drop_last(), x);
        let last = items.last();
        assert(members_of(items, last.section) == members_of(items.drop_last(), last.section).push(last));
        assert(members_of(items, last.section).drop_last() =~= members_of(items.drop_last(), last.section));
    }
}

/// The lines `x` in the chunks of the first `n` sections, all together.
pub open spec fn sections_count(lines: Seq<Seq<char>>, items: Seq<TestFileItemView>, n: nat, x: Seq<char>) -> nat
    decreases n,
{
    if n == 0 {
        0
    } else {
        sections_count(lines, items, (n - 1) as nat, x) + block_count(lines, members_of(items, section_order()[n - 1]), x)
    }
}

pub proof fn lemma_chunks_count(lines: Seq<Seq<char>>, items: Seq<TestFileItemView>, n: nat, x: Seq<char>)
    requires
        n <= 4,
        single_lines(lines),
        !is_blank(x),
    ensures
        texts_count(chunks_upto(lines, items, n), x) == sections_count(lines, items, n, x),
    decreases n,
{
    if n > 0 {
        lemma_chunks_count(lines, items, (n - 1) as nat, x);
        let section = section_order()[n - 1];
        let members = section_members(items, section);
        lemma_block_count_of_blocks(lines, members, x);
        lemma_joined_texts_count(blocks(lines, members), (blank_lines_between(section) + 1) as nat, x);
        if section != Section::Imports {
            lemma_block_count_sorted(lines, members_of(items, section), x);
        }
        if members_of(items, section).len() > 0 {
            assert(chunks_upto(lines, items, n).drop_last() =~= chunks_upto(lines, items, (n - 1) as nat));
        } else {
            assert(block_count(lines, members_of(items, section), x) == 0);
        }
    }
}

pub proof fn lemma_blank_free_count(lines: Seq<Seq<char>>, x: Seq<char>)
    requires
        !is_blank(x),
    ensures
        occurrences_of(without_trailing_blanks(lines), x) == occurrences_of(lines, x),
        occurrences_of(without_leading_blanks(lines), x) == occurrences_of(lines, x),
    decreases lines.len(),
{
    if lines.len() > 0 {
        lemma_blank_free_count(lines.drop_last(), x);
        lemma_blank_free_count(lines.drop_first(), x);
        if is_blank(lines[0]) {
            let first = seq![lines[0]];
            assert(lines =~= first + lines.drop_first());
            lemma_occurrences_concat(first, lines.drop_first(), x);
            assert(first.drop_last() =~= Seq::<Seq<char>>::empty());
            assert(occurrences_of(first.drop_last(), x) == 0);
            assert(first.last() != x);
            assert(occurrences_of(first, x) == 0);
        }
        if is_blank(lines.last()) {
            assert(lines.last() != x);
        }
    }
}

/// The lines above the first item, which the rewriter keeps on top.
pub open spec fn lines_above(lines: Seq<Seq<char>>, items: Seq<TestFileItemView>) -> Seq<Seq<char>> {
    let keep = sat_dec(first_line_of(items));
    lines.take(if keep < lines.len() { keep as int } else { lines.len() as int })
}

/// The lines below the last item, which the rewriter keeps at the end.
pub open spec fn lines_below(lines: Seq<Seq<char>>, items: Seq<TestFileItemView>) -> Seq<Seq<char>> {
    let last = last_line_of(items);
    if last < lines.len() { lines.skip(last as int) } else { Seq::<Seq<char>>::empty() }
}

/// The sections' chunks, a blank line between each two, hold each item's
/// block once.
pub proof fn lemma_body_count(lines: Seq<Seq<char>>, items: Seq<TestFileItemView>, x: Seq<char>)
    requires
        single_lines(lines),
        !is_blank(x),
    ensures
        line_count(join(chunks_upto(lines, items, 4), newlines(2)), x) == block_count(lines, items, x),
{
    lemma_chunks_count(lines, items, 4, x);
    lemma_joined_texts_count(chunks_upto(lines, items, 4), 2, x);
    lemma_block_count_partition(lines, items, x);
    reveal_with_fuel(sections_count, 5);
    assert(section_order()[0] == Section::Imports && section_order()[1] == Section::Constants);
    assert(section_order()[2] == Section::Helpers && section_order()[3] == Section::Tests);
}

/// The kept lines above the first item, then the chunks.
pub proof fn lemma_front_count(lines: Seq<Seq<char>>, items: Seq<TestFileItemView>, x: Seq<char>)
    requires
        single_lines(lines),
        !is_blank(x),
    ensures
        line_count(preamble_text(lines, items) + join(chunks_upto(lines, items, 4), "\n\n"@), x)
            == occurrences_of(lines_above(lines, items), x) + block_count(lines, items, x),
{
    reveal_strlit("\n");
    reveal_strlit("\n\n");
    assert("\n\n"@ =~= newlines(2)) by {
        assert(newlines(0) =~= Seq::<char>::empty());
        assert(newlines(1) =~= seq!['\n']);
    }
    lemma_body_count(lines, items, x);
    let body = join(chunks_upto(lines, items, 4), "\n\n"@);
    let kept = lines_above(lines, items);
    let trimmed = without_trailing_blanks(kept);
    lemma_blank_free_count(kept, x);
    lemma_trailing_blanks_prefix(kept);
    assert forall|k: int| 0 <= k < trimmed.len() implies !contains_char(#[trigger] trimmed[k], '\n') by {
        assert(trimmed[k] == kept[k]);
        assert(kept[k] == lines[k]);
    }
    lemma_joined_line_count(trimmed, x);
    let front = preamble_text(lines, items) + body;
    if trimmed.len() == 0 {
        assert(front =~= body);
        assert(occurrences_of(trimmed, x) == 0);
    } else {
        lemma_newlines_line_count(join(trimmed, "\n"@), body, 2, x);
        assert(front =~= join(trimmed, "\n"@) + newlines(2) + body);
    }
}

/// The kept lines below the last item.
pub proof fn lemma_tail_count(lines: Seq<Seq<char>>, items: Seq<TestFileItemView>, x: Seq<char>)
    requires
        single_lines(lines),
        !is_blank(x),
    ensures
        line_count(tail_text(lines, items), x) == occurrences_of(lines_below(lines, items), x),
{
    reveal_strlit("\n");
    lemma_empty_line_count(x);
    let rest = lines_below(lines, items);
    let inner = without_leading_blanks(rest);
    let tail_lines = without_trailing_blanks(inner);
    lemma_blank_free_count(rest, x);
    lemma_blank_free_count(inner, x);
    lemma_leading_blanks_suffix(rest);
    lemma_trailing_blanks_prefix(inner);
    assert forall|k: int| 0 <= k < tail_lines.len() implies !contains_char(#[trigger] tail_lines[k], '\n') by {
        assert(tail_lines[k] == inner[k]);
        assert(rest.contains(inner[k]));
        let j = choose|j: int| 0 <= j < rest.len() && rest[j] == inner[k];
        assert(rest[j] == lines[last_line_of(items) + j]);
    }
    lemma_joined_line_count(tail_lines, x);
    let tail = tail_text(lines, items);
    if tail_lines.len() == 0 {
        assert(tail.len() == 0);
        assert(occurrences_of(tail_lines, x) == 0);
    } else {
        lemma_glued_line_count(join(tail_lines, "\n"@), Seq::<char>::empty(), x);
        assert(tail =~= join(tail_lines, "\n"@) + "\n"@ + Seq::<char>::empty());
    }
}

/// `--fix` neither drops nor repeats a line: every line that is not blank
/// stands in the rewrite exactly as often as it stands above the first item,
/// in the items' blocks, and below the last item of the file together. Each
/// block is written once, whatever order the sections and names put it in.
pub proof fn law_a_rewrite_keeps_every_line_once(lines: Seq<Seq<char>>, items: Seq<TestFileItemView>, x: Seq<char>)
    requires
        single_lines(lines),
        !is_blank(x),
    ensures
        line_count(assembled(lines, items), x) == occurrences_of(lines_above(lines, items), x) + block_count(
            lines,
            items,
            x,
        ) + occurrences_of(lines_below(lines, items), x),
{
    reveal_strlit("\n");
    reveal_strlit("\n\n");
    lemma_empty_line_count(x);
    lemma_front_count(lines, items, x);
    lemma_tail_count(lines, items, x);
    let front = preamble_text(lines, items) + join(chunks_upto(lines, items, 4), "\n\n"@);
    let tail = tail_text(lines, items);
    if tail.len() == 0 {
        lemma_glued_line_count(front, Seq::<char>::empty(), x);
        assert(assembled(lines, items) =~= front + "\n"@ + Seq::<char>::empty());
    } else {
        assert(newlines(0) =~= Seq::<char>::empty());
        assert(newlines(1) =~= seq!['\n']);
        assert(newlines(2) =~= seq!['\n', '\n']);
        lemma_newlines_line_count(front, tail, 2, x);
        assert(assembled(lines, items) =~= front + newlines(2) + tail);
    }
}

/// The item stands on lines of the file.
pub open spec fn item_inside(lines: Seq<Seq<char>>, item: TestFileItemView) -> bool {
    1 <= item.first_line <= item.last_line <= lines.len()
}

/// The item at `i` ends before the next begins, with only blank lines
/// between them.
pub open spec fn followed_at(lines: Seq<Seq<char>>, items: Seq<TestFileItemView>, i: int) -> bool {
    &&& items[i].last_line < items[i + 1].first_line
    &&& forall|j: int| items[i].last_line <= j < items[i + 1].first_line - 1 ==> is_blank(#[trigger] lines[j])
}

/// The items lie in the file in the order given, each on lines of its own
/// inside the file, with nothing but blank lines between one item and the
/// next.
pub open spec fn items_tile(lines: Seq<Seq<char>>, items: Seq<TestFileItemView>) -> bool {
    &&& items.len() > 0
    &&& forall|i: int| 0 <= i < items.len() ==> item_inside(lines, #[trigger] items[i])
    &&& forall|i: int| 0 <= i < items.len() - 1 ==> #[trigger] followed_at(lines, items, i)
}

/// The lines from the first item's first line to the last item's last line.
pub open spec fn lines_spanned(lines: Seq<Seq<char>>, items: Seq<TestFileItemView>) -> Seq<Seq<char>> {
    lines.subrange(items[0].first_line - 1, items.last().last_line as int)
}

pub proof fn lemma_blank_lines_count_nothing(lines: Seq<Seq<char>>, x: Seq<char>)
    requires
        !is_blank(x),
        forall|k: int| 0 <= k < lines.len() ==> is_blank(#[trigger] lines[k]),
    ensures
        occurrences_of(lines, x) == 0,
    decreases lines.len(),
{
    if lines.len() > 0 {
        lemma_blank_lines_count_nothing(lines.drop_last(), x);
        assert(is_blank(lines[lines.len() - 1]));
    }
}

proof fn lemma_tiles_shorter(lines: Seq<Seq<char>>, items: Seq<TestFileItemView>)
    requires
        items_tile(lines, items),
        items.len() > 1,
    ensures
        items_tile(lines, items.drop_last()),
{
    let rest = items.drop_last();
    assert forall|i: int| 0 <= i < rest.len() implies item_inside(lines, #[trigger] rest[i]) by {
        assert(rest[i] == items[i]);
    }
    assert forall|i: int| 0 <= i < rest.len() - 1 implies #[trigger] followed_at(lines, rest, i) by {
        assert(rest[i] == items[i] && rest[i + 1] == items[i + 1]);
        assert(followed_at(lines, items, i));
    }
}

/// Items that tile the file start at the first one and end at the last one,
/// and their blocks hold every line they span that is not blank.
pub proof fn lemma_tiled_span(lines: Seq<Seq<char>>, items: Seq<TestFileItemView>, x: Seq<char>)
    requires
        items_tile(lines, items),
        !is_blank(x),
    ensures
        first_line_of(items) == items[0].first_line,
        last_line_of(items) == items.last().last_line,
        occurrences_of(lines_spanned(lines, items), x) == block_count(lines, items, x),
    decreases items.len(),
{
    let last = items.last();
    assert(item_inside(lines, items[items.len() - 1]));
    assert(block_lines(lines, last) =~= lines.subrange(last.first_line - 1, last.last_line as int));
    if items.len() == 1 {
        assert(items.drop_last() =~= Seq::<TestFileItemView>::empty());
        assert(block_count(lines, items.drop_last(), x) == 0);
        assert(last_line_of(items.drop_last()) == 0);
    } else {
        let rest = items.drop_last();
        lemma_tiles_shorter(lines, items);
        lemma_tiled_span(lines, rest, x);
        let before = rest.last();
        assert(before == items[items.len() - 2]);
        assert(item_inside(lines, items[0]));
        assert(followed_at(lines, items, items.len() - 2));
        assert(rest[0] == items[0]);
        // The first lines rise and the last lines rise along the items.
        assert(items[0].first_line <= before.first_line) by {
            lemma_first_lines_rise(lines, items, 0, items.len() - 2);
        }
        let gap = lines.subrange(before.last_line as int, last.first_line - 1);
        assert forall|k: int| 0 <= k < gap.len() implies is_blank(#[trigger] gap[k]) by {
            let j = before.last_line + k;
            assert(is_blank(lines[j]));
            assert(gap[k] == lines[j]);
        }
        lemma_blank_lines_count_nothing(gap, x);
        let head = lines_spanned(lines, rest);
        assert(lines_spanned(lines, items) =~= head + gap + block_lines(lines, last));
        lemma_occurrences_concat(head + gap, block_lines(lines, last), x);
        lemma_occurrences_concat(head, gap, x);
    }
}

proof fn lemma_first_lines_rise(lines: Seq<Seq<char>>, items: Seq<TestFileItemView>, a: int, b: int)
    requires
        items_tile(lines, items),
        0 <= a <= b < items.len(),
    ensures
        items[a].first_line <= items[b].first_line,
    decreases b - a,
{
    if a < b {
        lemma_first_lines_rise(lines, items, a, b - 1);
        assert(followed_at(lines, items, b - 1));
        assert(item_inside(lines, items[b - 1]));
    }
}

/// `--fix` keeps the file's lines: where the items lie in the file one after
/// another with only blank lines between them, every line of the file that
/// is not blank stands in the rewrite exactly as often as in the file.
pub proof fn law_a_rewrite_keeps_the_files_lines(file: SourceFileView, items: Seq<TestFileItemView>, x: Seq<char>)
    requires
        single_lines(file.lines),
        items_tile(file.lines, items),
        !is_blank(x),
    ensures
        line_count(assembled(file.lines, items), x) == occurrences_of(file.lines, x),
        rewritten(file, items) matches Some(t) ==> line_count(t, x) == occurrences_of(file.lines, x),
{
    let lines = file.lines;
    law_a_rewrite_keeps_every_line_once(lines, items, x);
    lemma_tiled_span(lines, items, x);
    assert(item_inside(lines, items[0]));
    assert(item_inside(lines, items[items.len() - 1]));
    lemma_first_lines_rise(lines, items, 0, items.len() - 1);
    let above = lines_above(lines, items);
    let spanned = lines_spanned(lines, items);
    let below = lines_below(lines, items);
    assert(above =~= lines.subrange(0, items[0].first_line - 1));
    if items.last().last_line < lines.len() {
        assert(below =~= lines.subrange(items.last().last_line as int, lines.len() as int));
    } else {
        assert(below =~= lines.subrange(items.last().last_line as int, lines.len() as int));
    }
    assert(lines =~= above + spanned + below);
    lemma_occurrences_concat(above + spanned, below, x);
    lemma_occurrences_concat(above, spanned, x);
}

/// Every line that is not blank stands in the text exactly as often as among
/// the lines.
pub open spec fn keeps_lines(t: Seq<char>, lines: Seq<Seq<char>>) -> bool {
    forall|x: Seq<char>| !is_blank(x) ==> #[trigger] line_count(t, x) == occurrences_of(lines, x)
}

} // verus!
