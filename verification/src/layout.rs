//! Wrapping the book's text into display lines, with the position of every
//! character on them.

use vstd::prelude::*;

verus! {

/// The offset just past the word that starts at `pos`: past the space that
/// ends it, or the end of the text where no space follows.
pub open spec fn word_end(text: Seq<char>, pos: int) -> int
    decreases text.len() - pos,
{
    if pos >= text.len() {
        text.len() as int
    } else if text[pos] == ' ' {
        pos + 1
    } else {
        word_end(text, pos + 1)
    }
}

/// The lines that greedy wrapping gives for the text from `pos` on, where
/// `done` holds the lines already closed and `line` the line being filled.
/// A word, with the space that ends it, joins the line while the line stays
/// strictly shorter than `max`; otherwise the line is closed and the word
/// starts the next one. The characters after the last space are placed by
/// the same rule.
pub open spec fn wrap_from(
    text: Seq<char>,
    max: int,
    pos: int,
    done: Seq<Seq<char>>,
    line: Seq<char>,
) -> Seq<Seq<char>>
    decreases text.len() - pos,
{
    let end = word_end(text, pos);
    let word = text.subrange(pos, end);
    let fits = line.len() + word.len() < max;
    let closed = if fits {
        done
    } else {
        done.push(line)
    };
    let filling = if fits {
        line + word
    } else {
        word
    };
    if 0 <= pos < end <= text.len() && text[end - 1] == ' ' {
        wrap_from(text, max, end, closed, filling)
    } else {
        closed.push(filling)
    }
}

/// The display lines of `text` at the width `max`.
pub open spec fn wrapped_lines(text: Seq<char>, max: int) -> Seq<Seq<char>> {
    wrap_from(text, max, 0, Seq::empty(), Seq::empty())
}

/// The number of characters on the lines before line `l`.
pub open spec fn line_start(lines: Seq<Seq<char>>, l: int) -> int
    decreases l,
{
    if l <= 0 {
        0
    } else {
        line_start(lines, l - 1) + lines[l - 1].len()
    }
}

/// `index` gives, for each offset it covers, the line and column at which
/// `lines` hold that character of `text`: the lines before hold the
/// characters before it, and nothing else.
pub open spec fn indexes(
    text: Seq<char>,
    lines: Seq<Seq<char>>,
    index: Seq<(usize, usize)>,
) -> bool {
    forall|i: int|
        0 <= i < index.len() ==> {
            let entry = #[trigger] index[i];
            &&& entry.0 < lines.len()
            &&& entry.1 < lines[entry.0 as int].len()
            &&& line_start(lines, entry.0 as int) + entry.1 == i
            &&& lines[entry.0 as int][entry.1 as int] == text[i]
        }
}

/// A line that holds one word: no space but, at most, as its last
/// character.
pub open spec fn single_word(line: Seq<char>) -> bool {
    forall|k: int| 0 <= k < line.len() - 1 ==> line[k] != ' '
}

/// A line is within the width: strictly shorter than `max`, unless it is one
/// word that cannot be split.
pub open spec fn within_width(line: Seq<char>, max: int) -> bool {
    line.len() < max || single_word(line)
}

/// No word is split: a character in column 0, but for the first of the text,
/// follows a space.
pub open spec fn starts_at_words(text: Seq<char>, index: Seq<(usize, usize)>) -> bool {
    forall|i: int| 0 < i < index.len() && (#[trigger] index[i]).1 == 0 ==> text[i - 1] == ' '
}

/// The lines of a vector of lines, each as a sequence of characters.
pub open spec fn rows(lines: Seq<Vec<char>>) -> Seq<Seq<char>> {
    Seq::new(lines.len(), |i: int| lines[i]@)
}

/// The first of two positions comes before the second: on an earlier line,
/// or on the same line in an earlier column.
pub open spec fn position_before(a: (usize, usize), b: (usize, usize)) -> bool {
    a.0 < b.0 || (a.0 == b.0 && a.1 < b.1)
}

proof fn lemma_line_start_prefix(a: Seq<Seq<char>>, b: Seq<Seq<char>>, l: int)
    requires
        0 <= l <= a.len(),
        l <= b.len(),
        forall|k: int| 0 <= k < l ==> a[k].len() == b[k].len(),
    ensures
        line_start(a, l) == line_start(b, l),
    decreases l,
{
    if l > 0 {
        lemma_line_start_prefix(a, b, l - 1);
    }
}

proof fn lemma_line_start_monotone(lines: Seq<Seq<char>>, a: int, b: int)
    requires
        0 <= a <= b <= lines.len(),
    ensures
        line_start(lines, a) <= line_start(lines, b),
    decreases b - a,
{
    if a < b {
        lemma_line_start_monotone(lines, a, b - 1);
    }
}

/// The entries kept when the last line grows or a line is added after it.
proof fn lemma_indexes_kept(
    text: Seq<char>,
    before: Seq<Seq<char>>,
    after: Seq<Seq<char>>,
    index: Seq<(usize, usize)>,
)
    requires
        indexes(text, before, index),
        1 <= before.len() <= after.len(),
        forall|l: int| 0 <= l < before.len() - 1 ==> before[l] == after[l],
        before.last().len() <= after[before.len() - 1].len(),
        forall|c: int|
            0 <= c < before.last().len() ==> before.last()[c] == after[before.len() - 1][c],
    ensures
        indexes(text, after, index),
{
    assert forall|i: int| 0 <= i < index.len() implies {
        let entry = #[trigger] index[i];
        &&& entry.0 < after.len()
        &&& entry.1 < after[entry.0 as int].len()
        &&& line_start(after, entry.0 as int) + entry.1 == i
        &&& after[entry.0 as int][entry.1 as int] == text[i]
    } by {
        let entry = index[i];
        lemma_line_start_prefix(before, after, entry.0 as int);
    }
}

/// The position index is strictly increasing: of two offsets, the earlier
/// one stands on an earlier line, or on the same line in an earlier column.
pub proof fn law_index_increasing(
    text: Seq<char>,
    lines: Seq<Seq<char>>,
    index: Seq<(usize, usize)>,
    i: int,
    j: int,
)
    requires
        indexes(text, lines, index),
        0 <= i < j < index.len(),
    ensures
        position_before(index[i], index[j]),
{
    let a = index[i];
    let b = index[j];
    if a.0 > b.0 {
        lemma_line_start_monotone(lines, b.0 + 1, a.0 as int);
    }
}

/// Wraps `book_text` into lines at the width `max_line_len`, and gives for
/// every character offset the line and the column of that character.
pub fn generate_lines(book_text: &Vec<char>, max_line_len: usize) -> (layout: (
    Vec<Vec<char>>,
    Vec<(usize, usize)>,
))
    ensures
        rows(layout.0@) == wrapped_lines(book_text@, max_line_len as int),
        layout.1@.len() == book_text@.len(),
        indexes(book_text@, rows(layout.0@), layout.1@),
        line_start(rows(layout.0@), layout.0@.len() as int) == book_text@.len(),
        forall|i: int, j: int|
            0 <= i < j < layout.1@.len() ==> position_before(
                #[trigger] layout.1@[i],
                #[trigger] layout.1@[j],
            ),
        forall|l: int|
            0 <= l < layout.0@.len() ==> within_width(
                #[trigger] rows(layout.0@)[l],
                max_line_len as int,
            ),
        starts_at_words(book_text@, layout.1@),
{
    let n: usize = book_text.len();
    let ghost text = book_text@;
    let ghost max = max_line_len as int;
    let mut lines: Vec<Vec<char>> = Vec::new();
    let mut index: Vec<(usize, usize)> = Vec::new();
    let mut line: Vec<char> = Vec::new();
    let mut pos: usize = 0;
    let mut finished: bool = false;
    assert(rows(lines@) =~= Seq::<Seq<char>>::empty());
    while !finished
        invariant
            n == text.len(),
            text == book_text@,
            max == max_line_len as int,
            pos <= n,
            index@.len() == pos,
            !finished ==> wrap_from(text, max, pos as int, rows(lines@), line@) == wrapped_lines(
                text,
                max,
            ),
            finished ==> pos == n && rows(lines@).push(line@) == wrapped_lines(text, max),
            indexes(text, rows(lines@).push(line@), index@),
            line_start(rows(lines@).push(line@), lines@.len() as int) + line@.len() == pos,
            forall|l: int| 0 <= l < lines@.len() ==> within_width(#[trigger] rows(lines@)[l], max),
            within_width(line@, max),
            pos == 0 || text[pos - 1] == ' ' || finished,
            starts_at_words(text, index@),
        decreases
                n - pos + (if finished {
                    0int
                } else {
                    1int
                }),
    {
        let mut end: usize = pos;
        let mut closed: bool = false;
        while end < n && !closed
            invariant
                n == text.len(),
                text == book_text@,
                pos <= end <= n,
                word_end(text, pos as int) == (if closed {
                    end as int
                } else {
                    word_end(text, end as int)
                }),
                closed ==> end > pos && text[end - 1] == ' ',
                forall|k: int|
                    pos <= k < end - (if closed {
                        1int
                    } else {
                        0int
                    }) ==> text[k] != ' ',
            decreases n - end + (if closed { 0int } else { 1int }),
        {
            if book_text[end] == ' ' {
                closed = true;
            }
            end += 1;
        }
        let ghost word = text.subrange(pos as int, end as int);
        let fits: bool = line.len() < max_line_len && end - pos < max_line_len - line.len();
        assert(fits == (line@.len() + word.len() < max));
        assert(single_word(word));
        let ghost before = rows(lines@).push(line@);
        if !fits {
            lines.push(line);
            line = Vec::new();
            proof {
                assert(rows(lines@) =~= before);
                lemma_indexes_kept(text, before, rows(lines@).push(line@), index@);
                lemma_line_start_prefix(before, rows(lines@).push(line@), lines@.len() - 1);
            }
        }
        let ghost base = line@;
        let ghost closed_rows = rows(lines@);
        let mut k: usize = pos;
        while k < end
            invariant
                n == text.len(),
                text == book_text@,
                pos <= k <= end <= n,
                index@.len() == k,
                rows(lines@) == closed_rows,
                line@ == base + text.subrange(pos as int, k as int),
                indexes(text, rows(lines@).push(line@), index@),
                line_start(rows(lines@).push(line@), lines@.len() as int) + line@.len() == k,
                pos == 0 || text[pos - 1] == ' ',
                starts_at_words(text, index@),
            decreases end - k,
        {
            let ghost old_rows = rows(lines@).push(line@);
            let ghost old_index = index@;
            index.push((lines.len(), line.len()));
            line.push(book_text[k]);
            proof {
                let new_rows = rows(lines@).push(line@);
                lemma_indexes_kept(text, old_rows, new_rows, old_index);
                lemma_line_start_prefix(old_rows, new_rows, lines@.len() as int);
                assert(line@ =~= base + text.subrange(pos as int, k + 1));
                assert(indexes(text, new_rows, index@)) by {
                    assert forall|i: int| 0 <= i < index@.len() implies {
                        let entry = #[trigger] index@[i];
                        &&& entry.0 < new_rows.len()
                        &&& entry.1 < new_rows[entry.0 as int].len()
                        &&& line_start(new_rows, entry.0 as int) + entry.1 == i
                        &&& new_rows[entry.0 as int][entry.1 as int] == text[i]
                    } by {
                        if i < k {
                            assert(index@[i] == old_index[i]);
                        }
                    }
                }
            }
            k += 1;
        }
        proof {
            assert(line@ == if fits {
                base + word
            } else {
                word
            }) by {
                assert(Seq::<char>::empty() + word =~= word);
            }
            assert(within_width(line@, max));
        }
        pos = end;
        if !closed {
            finished = true;
        }
    }
    let ghost open_rows = rows(lines@).push(line@);
    lines.push(line);
    proof {
        let final_rows = rows(lines@);
        assert(final_rows =~= open_rows);
        assert(line_start(final_rows, lines@.len() as int) == line_start(
            final_rows,
            lines@.len() - 1,
        ) + final_rows[lines@.len() - 1].len());
        assert forall|i: int, j: int| 0 <= i < j < index@.len() implies position_before(
            #[trigger] index@[i],
            #[trigger] index@[j],
        ) by {
            law_index_increasing(text, final_rows, index@, i, j);
        }
    }
    (lines, index)
}

} // verus!
