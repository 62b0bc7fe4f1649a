//! The debug data of a hex file. Each line holds bytes as pairs of
//! hexadecimal digits; a `#` or `;` begins a comment. The compressed dialect
//! also knows the directives `?` and `&`, which stand for bytes that are
//! filled in later, and labels, which begin with `:` and stand for none.

use crate::lines::{
    copy_text, lemma_line_end_bounds, line_end, line_stop, lines_from, lines_of, spans, split_lines,
};
use crate::pdb::{
    entries_of, entries_view, lemma_entries_ordered, lemma_entries_push, lemma_total_size_grows,
    ordered, total_size, DebugData, Parsed,
};
use crate::text::chars_of;
use vstd::prelude::*;

verus! {

/// Whether the character is a hexadecimal digit.
pub open spec fn is_hex_char(c: char) -> bool {
    ('0' <= c && c <= '9') || ('a' <= c && c <= 'f') || ('A' <= c && c <= 'F')
}

/// What a line of a hex file holds.
pub struct HexTally {
    /// The hexadecimal digits that stand for bytes.
    pub digits: nat,
    /// The directives `?` and `&`.
    pub directives: nat,
}

/// What the line holds from position `from` on. A `#` or `;` begins a
/// comment, which ends the count. A `?`, `&` or `:` begins a token that
/// runs to the next space and in which nothing is counted; `?` and `&` are
/// directives, `:` is a label. Outside a token every hexadecimal digit is
/// counted.
pub open spec fn tally(line: Seq<char>, from: int, in_token: bool) -> HexTally
    decreases line.len() - from,
{
    if from < 0 || from >= line.len() {
        HexTally { digits: 0, directives: 0 }
    } else {
        let c = line[from];
        if c == '#' || c == ';' {
            HexTally { digits: 0, directives: 0 }
        } else if in_token && c != ' ' {
            tally(line, from + 1, true)
        } else if c == '?' || c == '&' {
            let rest = tally(line, from + 1, true);
            HexTally { digits: rest.digits, directives: rest.directives + 1 }
        } else if c == ':' {
            tally(line, from + 1, true)
        } else if is_hex_char(c) {
            let rest = tally(line, from + 1, false);
            HexTally { digits: rest.digits + 1, directives: rest.directives }
        } else {
            tally(line, from + 1, false)
        }
    }
}

/// The bytes that a directive stands for.
pub const DIRECTIVE_SIZE: u64 = 16;

/// Whether the digits of the line pair up into bytes.
pub open spec fn hex_line_ok(line: Seq<char>) -> bool {
    tally(line, 0, false).digits % 2 == 0
}

/// The number of bytes that the line stands for: one for every two digits
/// and `DIRECTIVE_SIZE` for every directive.
pub open spec fn hex_size(line: Seq<char>) -> nat {
    DIRECTIVE_SIZE as nat * tally(line, 0, false).directives + tally(line, 0, false).digits / 2
}

/// The sizes of the lines of a hex file.
pub open spec fn hex_sizes(lines: Seq<Seq<char>>) -> Seq<nat> {
    Seq::new(lines.len(), |k: int| hex_size(lines[k]))
}

/// Every line of the hex file holds an even number of digits.
pub open spec fn hex_well_formed(text: Seq<char>) -> bool {
    forall|k: int| 0 <= k < lines_of(text).len() ==> hex_line_ok(#[trigger] lines_of(text)[k])
}

/// The size of the whole hex file fits in 64 bits.
pub open spec fn hex_fits(text: Seq<char>) -> bool {
    total_size(hex_sizes(lines_of(text))) <= u64::MAX
}

/// The debug data of a hex file: every line with the offset at which its
/// bytes begin.
pub open spec fn hex_entries(text: Seq<char>) -> Seq<(u64, Seq<char>)> {
    entries_of(lines_of(text), hex_sizes(lines_of(text)))
}

/// The longest text whose size is sure to fit in 64 bits: every character
/// stands for at most `DIRECTIVE_SIZE` bytes.
pub const MAX_HEX_TEXT: u64 = 0x0fff_ffff_ffff_ffff;

/// From any position on, a line holds at most as many digits and directives
/// as it has characters left.
pub proof fn lemma_tally_bound(line: Seq<char>, from: int, in_token: bool)
    requires
        0 <= from <= line.len(),
    ensures
        tally(line, from, in_token).digits + tally(line, from, in_token).directives <= line.len()
            - from,
    decreases line.len() - from,
{
    if from < line.len() {
        lemma_tally_bound(line, from + 1, true);
        lemma_tally_bound(line, from + 1, false);
    }
}

/// The sum of a first size and of further sizes.
proof fn lemma_total_size_front(first: nat, rest: Seq<nat>)
    ensures
        total_size(seq![first] + rest) == first + total_size(rest),
    decreases rest.len(),
{
    let all = seq![first] + rest;
    if rest.len() == 0 {
        assert(all.drop_last() =~= Seq::<nat>::empty());
        assert(all.last() == first);
        assert(total_size(all) == total_size(all.drop_last()) + all.last());
    } else {
        assert(all.drop_last() =~= seq![first] + rest.drop_last());
        assert(all.last() == rest.last());
        lemma_total_size_front(first, rest.drop_last());
        assert(total_size(all) == total_size(all.drop_last()) + all.last());
    }
}

/// The lines of a text from `start` on stand for at most `DIRECTIVE_SIZE`
/// bytes for each character from `start` on.
pub proof fn lemma_hex_size_bound(text: Seq<char>, start: int)
    requires
        0 <= start <= text.len(),
    ensures
        total_size(hex_sizes(lines_from(text, start))) <= DIRECTIVE_SIZE * (text.len() - start),
    decreases text.len() - start,
{
    if start < text.len() {
        lemma_line_end_bounds(text, start);
        let end = line_end(text, start);
        let line = text.subrange(start, line_stop(text, start));
        lemma_tally_bound(line, 0, false);
        assert(hex_size(line) <= DIRECTIVE_SIZE * (end - start));
        if end >= text.len() {
            assert(hex_sizes(lines_from(text, start)) =~= seq![hex_size(line)] + Seq::<
                nat,
            >::empty());
            lemma_total_size_front(hex_size(line), Seq::<nat>::empty());
        } else {
            let rest = lines_from(text, end + 1);
            lemma_hex_size_bound(text, end + 1);
            assert(hex_sizes(lines_from(text, start)) =~= seq![hex_size(line)] + hex_sizes(rest));
            lemma_total_size_front(hex_size(line), hex_sizes(rest));
        }
    } else {
        assert(hex_sizes(lines_from(text, start)) =~= Seq::<nat>::empty());
    }
}

/// The size of a hex file fits in 64 bits whenever the file has at most
/// `MAX_HEX_TEXT` characters. So the parser reads every such file whose
/// lines hold an even number of digits, and the offsets that it gives never
/// decrease.
pub proof fn lemma_hex_parser_is_total(text: Seq<char>)
    requires
        text.len() <= MAX_HEX_TEXT,
    ensures
        hex_fits(text),
        hex_entries(text).len() == lines_of(text).len(),
        ordered(hex_entries(text)),
        hex_entries(text).len() > 0 ==> hex_entries(text)[0].0 == 0,
{
    lemma_hex_size_bound(text, 0);
    lemma_entries_ordered(lines_of(text), hex_sizes(lines_of(text)));
}

/// Tells whether a character is a hexadecimal digit.
pub fn is_hex(c: char) -> (hex: bool)
    ensures
        hex == is_hex_char(c),
{
    ('0' <= c && c <= '9') || ('a' <= c && c <= 'f') || ('A' <= c && c <= 'F')
}

/// Counts the digits and the directives of the line that lies between
/// `start` and `stop`.
fn tally_line(text: &[char], start: usize, stop: usize) -> (counts: (usize, usize))
    requires
        start <= stop <= text@.len(),
    ensures
        counts.0 == tally(text@.subrange(start as int, stop as int), 0, false).digits,
        counts.1 == tally(text@.subrange(start as int, stop as int), 0, false).directives,
{
    let ghost line = text@.subrange(start as int, stop as int);
    let mut digits: usize = 0;
    let mut directives: usize = 0;
    let mut in_token = false;
    let mut i: usize = start;
    while i < stop
        invariant
            start <= i <= stop <= text@.len(),
            line == text@.subrange(start as int, stop as int),
            digits + directives <= i - start,
            tally(line, 0, false).digits == digits + tally(line, i - start, in_token).digits,
            tally(line, 0, false).directives == directives + tally(
                line,
                i - start,
                in_token,
            ).directives,
        decreases stop - i,
    {
        let c = text[i];
        assert(line[i - start] == c);
        if c == '#' || c == ';' {
            return (digits, directives);
        }
        if in_token && c != ' ' {
        } else if c == '?' || c == '&' {
            directives += 1;
            in_token = true;
        } else if c == ':' {
            in_token = true;
        } else if is_hex(c) {
            digits += 1;
            in_token = false;
        } else {
            in_token = false;
        }
        i += 1;
    }
    (digits, directives)
}

/// Reads the debug data of a hex file. Returns nothing where a line holds
/// an odd number of digits, or where the size of the file does not fit in
/// 64 bits.
pub fn try_parse_hex_file(inp: &str) -> (parsed: Option<Parsed>)
    ensures
        parsed is Some <==> hex_well_formed(inp@) && hex_fits(inp@),
        parsed matches Some(found) ==> found.data@ == hex_entries(inp@) && found.data.wf()
            && found.data.starts_at_zero()
            && found.size == total_size(hex_sizes(lines_of(inp@))),
{
    let chars = chars_of(inp);
    let ranges = split_lines(chars.as_slice());
    let ghost lines = lines_of(inp@);
    let ghost sizes = hex_sizes(lines);
    let mut offsets: Vec<(u64, String)> = Vec::new();
    let mut offset: u64 = 0;
    let mut k: usize = 0;
    assert(lines.take(0) =~= Seq::<Seq<char>>::empty());
    assert(entries_view(offsets@) =~= entries_of(lines.take(0), sizes.take(0)));
    assert(sizes.take(0) =~= Seq::<nat>::empty());
    while k < ranges.len()
        invariant
            k <= ranges@.len(),
            chars@ == inp@,
            lines == lines_of(inp@),
            sizes == hex_sizes(lines),
            spans(chars@, ranges@) == lines,
            forall|j: int|
                0 <= j < ranges@.len() ==> (#[trigger] ranges@[j]).0 <= ranges@[j].1
                    <= chars@.len(),
            entries_view(offsets@) == entries_of(lines.take(k as int), sizes.take(k as int)),
            offset == total_size(sizes.take(k as int)),
            forall|j: int| 0 <= j < k ==> hex_line_ok(#[trigger] lines[j]),
        decreases ranges@.len() - k,
    {
        let (start, stop) = ranges[k];
        assert(lines[k as int] == chars@.subrange(start as int, stop as int)) by {
            assert(spans(chars@, ranges@)[k as int] == chars@.subrange(
                ranges@[k as int].0 as int,
                ranges@[k as int].1 as int,
            ));
        }
        let line = copy_text(chars.as_slice(), start, stop);
        let (digits, directives) = tally_line(chars.as_slice(), start, stop);
        proof {
            lemma_entries_push(lines, sizes, k as int);
            lemma_total_size_grows(sizes, k + 1);
        }
        if digits % 2 != 0 {
            return None;
        }
        let size = match (directives as u64).checked_mul(DIRECTIVE_SIZE) {
            Some(expanded) => expanded.checked_add((digits / 2) as u64),
            None => None,
        };
        let next = match size {
            Some(size) => offset.checked_add(size),
            None => None,
        };
        match next {
            Some(next) => {
                let ghost before = entries_view(offsets@);
                offsets.push((offset, line));
                assert(entries_view(offsets@) =~= before.push((offset, lines[k as int])));
                offset = next;
            },
            None => {
                return None;
            },
        }
        k += 1;
    }
    assert(lines.take(k as int) =~= lines);
    assert(sizes.take(k as int) =~= sizes);
    proof {
        lemma_entries_ordered(lines, sizes);
    }
    Some(Parsed { data: DebugData { offsets }, size: offset })
}

/// Reads the debug data of a hex file: every line of the file, with the
/// offset at which its bytes begin. The size of a file of at most
/// `MAX_HEX_TEXT` characters always fits (`lemma_hex_parser_is_total`).
pub fn parse_hex_file(inp: &str) -> (data: DebugData)
    requires
        hex_well_formed(inp@),
        hex_fits(inp@),
    ensures
        data@ == hex_entries(inp@),
        data.wf(),
        data.starts_at_zero(),
{
    match try_parse_hex_file(inp) {
        Some(found) => found.data,
        None => DebugData { offsets: Vec::new() },
    }
}

} // verus!
