//! The lines of a text. A line ends at a line feed; a carriage return
//! directly before the line feed belongs to the end of the line.

use vstd::prelude::*;

verus! {

/// The index of the line feed that ends the line beginning at `start`, or the
/// length of the text where no line feed follows.
pub open spec fn line_end(text: Seq<char>, start: int) -> int
    decreases text.len() - start,
{
    if start >= text.len() {
        text.len() as int
    } else if text[start] == '\n' {
        start
    } else {
        line_end(text, start + 1)
    }
}

/// Where the content of the line beginning at `start` stops: at its line
/// feed, or one earlier where a carriage return stands before the line feed.
pub open spec fn line_stop(text: Seq<char>, start: int) -> int {
    let end = line_end(text, start);
    if start < end < text.len() && text[end - 1] == '\r' {
        end - 1
    } else {
        end
    }
}

/// The lines of the text from `start` on. A line ends at a line feed; the
/// line feed, and a carriage return directly before it, are not part of the
/// line. What follows the last line feed is a line if it is not empty.
pub open spec fn lines_from(text: Seq<char>, start: int) -> Seq<Seq<char>>
    decreases text.len() - start,
    via lines_from_decreases
{
    if start < 0 || start >= text.len() {
        Seq::empty()
    } else {
        let line = seq![text.subrange(start, line_stop(text, start))];
        if line_end(text, start) >= text.len() {
            line
        } else {
            line + lines_from(text, line_end(text, start) + 1)
        }
    }
}

#[via_fn]
proof fn lines_from_decreases(text: Seq<char>, start: int) {
    if 0 <= start < text.len() {
        lemma_line_end_bounds(text, start);
    }
}

/// The lines of a text.
pub open spec fn lines_of(text: Seq<char>) -> Seq<Seq<char>> {
    lines_from(text, 0)
}

/// The end of a line lies between its start and the end of the text; no line
/// feed stands before it, and it is a line feed or the end of the text.
pub proof fn lemma_line_end_bounds(text: Seq<char>, start: int)
    requires
        0 <= start <= text.len(),
    ensures
        start <= line_end(text, start) <= text.len(),
        start <= line_stop(text, start) <= line_end(text, start),
        line_end(text, start) < text.len() ==> text[line_end(text, start)] == '\n',
        forall|k: int| start <= k < line_end(text, start) ==> text[k] != '\n',
    decreases text.len() - start,
{
    if start < text.len() && text[start] != '\n' {
        lemma_line_end_bounds(text, start + 1);
    }
}

/// Finds the end of the line that begins at `start`.
pub fn find_line_end(text: &[char], start: usize) -> (end: usize)
    requires
        start <= text@.len(),
    ensures
        end == line_end(text@, start as int),
        start <= end <= text@.len(),
{
    let mut end: usize = start;
    while end < text.len() && text[end] != '\n'
        invariant
            start <= end <= text@.len(),
            line_end(text@, start as int) == line_end(text@, end as int),
        decreases text@.len() - end,
    {
        end += 1;
    }
    end
}

/// Finds where the content of the line from `start` to `end` stops.
pub fn find_line_stop(text: &[char], start: usize, end: usize) -> (stop: usize)
    requires
        start <= text@.len(),
        end == line_end(text@, start as int),
    ensures
        stop == line_stop(text@, start as int),
        start <= stop <= end,
{
    proof {
        lemma_line_end_bounds(text@, start as int);
    }
    if start < end && end < text.len() && text[end - 1] == '\r' {
        end - 1
    } else {
        end
    }
}

/// The characters from `start` up to `stop` as a string.
pub fn copy_text(text: &[char], start: usize, stop: usize) -> (copy: String)
    requires
        start <= stop <= text@.len(),
    ensures
        copy@ == text@.subrange(start as int, stop as int),
{
    let mut copy = String::new();
    let mut i: usize = start;
    while i < stop
        invariant
            start <= i <= stop <= text@.len(),
            copy@ == text@.subrange(start as int, i as int),
        decreases stop - i,
    {
        copy.push(text[i]);
        i += 1;
        assert(copy@ =~= text@.subrange(start as int, i as int));
    }
    copy
}

/// The pieces of the text that the ranges name.
pub open spec fn spans(text: Seq<char>, ranges: Seq<(usize, usize)>) -> Seq<Seq<char>> {
    Seq::new(ranges.len(), |k: int| text.subrange(ranges[k].0 as int, ranges[k].1 as int))
}

/// Finds the lines of a text: for each line, where its content begins and
/// where it stops.
pub fn split_lines(text: &[char]) -> (ranges: Vec<(usize, usize)>)
    ensures
        spans(text@, ranges@) == lines_of(text@),
        forall|k: int|
            0 <= k < ranges@.len() ==> (#[trigger] ranges@[k]).0 <= ranges@[k].1 <= text@.len(),
        forall|j: int, k: int|
            0 <= j < k < ranges@.len() ==> (#[trigger] ranges@[j]).1 <= (#[trigger] ranges@[k]).0,
{
    let mut ranges: Vec<(usize, usize)> = Vec::new();
    let mut start: usize = 0;
    assert(spans(text@, ranges@) + lines_from(text@, 0) =~= lines_of(text@));
    while start < text.len()
        invariant
            start <= text@.len(),
            spans(text@, ranges@) + lines_from(text@, start as int) == lines_of(text@),
            forall|k: int|
                0 <= k < ranges@.len() ==> (#[trigger] ranges@[k]).0 <= ranges@[k].1 <= start,
            forall|j: int, k: int|
                0 <= j < k < ranges@.len() ==> (#[trigger] ranges@[j]).1 <= (
                #[trigger] ranges@[k]).0,
        decreases text@.len() - start,
    {
        let ghost before = spans(text@, ranges@);
        let end = find_line_end(text, start);
        let stop = find_line_stop(text, start, end);
        ranges.push((start, stop));
        assert(spans(text@, ranges@) =~= before + seq![
            text@.subrange(start as int, stop as int),
        ]);
        let ghost rest = lines_from(text@, start as int);
        if end < text.len() {
            assert(spans(text@, ranges@) + lines_from(text@, end + 1) =~= before + rest);
            start = end + 1;
        } else {
            assert(spans(text@, ranges@) + lines_from(text@, end as int) =~= before + rest);
            start = end;
        }
    }
    assert(spans(text@, ranges@) + lines_from(text@, start as int) =~= spans(text@, ranges@));
    ranges
}

} // verus!
