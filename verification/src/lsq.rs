//! The debug data of a SUBLEQ assembly file. Each line holds one statement:
//! a mnemonic and its arguments, separated by white space. The size of some
//! statements depends on how often a label is referred to in the whole file,
//! so the file is read twice: once to count the references, once to lay the
//! lines out.

use crate::lines::{
    copy_text, lemma_line_end_bounds, line_end, line_stop, lines_from, lines_of, spans, split_lines,
};
use crate::pdb::{
    entries_of, entries_view, lemma_entries_ordered, lemma_entries_push, lemma_total_size_grows,
    ordered, total_size, DebugData, Parsed,
};
use crate::text::{chars_of, texts};
use vstd::prelude::*;
use vstd::string::StringExecFns;

verus! {

/// The size of a SUBLEQ instruction in an assembly file.
pub const STATEMENT_SIZE: u64 = 24;

/// The size of one raw word.
pub const RAW_SIZE: u64 = 8;

/// Whether the character is white space: one of the characters with the
/// Unicode property `White_Space`.
pub open spec fn is_space_char(c: char) -> bool {
    ||| ('\u{9}' <= c && c <= '\u{d}')
    ||| c == ' '
    ||| c == '\u{85}'
    ||| c == '\u{a0}'
    ||| c == '\u{1680}'
    ||| ('\u{2000}' <= c && c <= '\u{200a}')
    ||| c == '\u{2028}'
    ||| c == '\u{2029}'
    ||| c == '\u{202f}'
    ||| c == '\u{205f}'
    ||| c == '\u{3000}'
}

/// Tells whether a character is white space.
pub fn is_space(c: char) -> (space: bool)
    ensures
        space == is_space_char(c),
{
    ('\u{9}' <= c && c <= '\u{d}') || c == ' ' || c == '\u{85}' || c == '\u{a0}' || c
        == '\u{1680}' || ('\u{2000}' <= c && c <= '\u{200a}') || c == '\u{2028}' || c
        == '\u{2029}' || c == '\u{202f}' || c == '\u{205f}' || c == '\u{3000}'
}

/// The first position from `from` on that holds no white space, or the
/// length of the line.
pub open spec fn token_start(line: Seq<char>, from: int) -> int
    decreases line.len() - from,
{
    if from >= line.len() {
        line.len() as int
    } else if !is_space_char(line[from]) {
        from
    } else {
        token_start(line, from + 1)
    }
}

/// The first position from `from` on that holds white space, or the length
/// of the line.
pub open spec fn token_end(line: Seq<char>, from: int) -> int
    decreases line.len() - from,
{
    if from >= line.len() {
        line.len() as int
    } else if is_space_char(line[from]) {
        from
    } else {
        token_end(line, from + 1)
    }
}

/// The tokens of the line from `from` on: the longest pieces without white
/// space, in their order.
pub open spec fn tokens_from(line: Seq<char>, from: int) -> Seq<Seq<char>>
    decreases line.len() - from,
    via tokens_from_decreases
{
    if from < 0 || token_start(line, from) >= line.len() {
        Seq::empty()
    } else {
        let start = token_start(line, from);
        let end = token_end(line, start);
        let token = seq![line.subrange(start, end)];
        if end >= line.len() {
            token
        } else {
            token + tokens_from(line, end)
        }
    }
}

#[via_fn]
proof fn tokens_from_decreases(line: Seq<char>, from: int) {
    if from >= 0 && token_start(line, from) < line.len() {
        lemma_token_bounds(line, from);
    }
}

/// The tokens of a line.
pub open spec fn tokens_of(line: Seq<char>) -> Seq<Seq<char>> {
    tokens_from(line, 0)
}

/// A token begins at or behind the position from which it is looked for, and
/// it is not empty.
pub proof fn lemma_token_bounds(line: Seq<char>, from: int)
    requires
        0 <= from,
    ensures
        from <= token_start(line, from) || token_start(line, from) == line.len(),
        token_start(line, from) <= line.len(),
        token_start(line, from) < line.len() ==> token_start(line, from) < token_end(
            line,
            token_start(line, from),
        ) <= line.len(),
    decreases line.len() - from,
{
    if from < line.len() {
        if is_space_char(line[from]) {
            lemma_token_bounds(line, from + 1);
        } else {
            lemma_token_end_bounds(line, from + 1);
        }
    }
}

/// The end of a token lies at or behind the position from which it is looked
/// for.
pub proof fn lemma_token_end_bounds(line: Seq<char>, from: int)
    requires
        0 <= from,
    ensures
        from <= token_end(line, from) || token_end(line, from) == line.len(),
        token_end(line, from) <= line.len(),
    decreases line.len() - from,
{
    if from < line.len() && !is_space_char(line[from]) {
        lemma_token_end_bounds(line, from + 1);
    }
}

/// Splits the line that lies between `start` and `stop` at white space.
fn tokenize(text: &[char], start: usize, stop: usize) -> (tokens: Vec<String>)
    requires
        start <= stop <= text@.len(),
    ensures
        texts(tokens@) == tokens_of(text@.subrange(start as int, stop as int)),
        tokens@.len() <= stop - start,
{
    let ghost line = text@.subrange(start as int, stop as int);
    let mut tokens: Vec<String> = Vec::new();
    let mut at: usize = start;
    assert(texts(tokens@) + tokens_from(line, 0) =~= tokens_of(line));
    loop
        invariant_except_break
            texts(tokens@) + tokens_from(line, at - start) == tokens_of(line),
            tokens@.len() <= at - start,
        invariant
            start <= at <= stop <= text@.len(),
            line == text@.subrange(start as int, stop as int),
        ensures
            texts(tokens@) == tokens_of(line),
            tokens@.len() <= stop - start,
        decreases stop - at,
    {
        let mut first: usize = at;
        while first < stop && is_space(text[first])
            invariant
                at <= first <= stop <= text@.len(),
                start <= at,
                line == text@.subrange(start as int, stop as int),
                token_start(line, at - start) == token_start(line, first - start),
            decreases stop - first,
        {
            assert(line[first - start] == text@[first as int]);
            first += 1;
        }
        if first >= stop {
            assert(texts(tokens@) + tokens_from(line, at - start) =~= texts(tokens@));
            break;
        }
        assert(line[first - start] == text@[first as int]);
        assert(token_start(line, first - start) == first - start);
        let mut last: usize = first + 1;
        assert(token_end(line, first - start) == token_end(line, last - start));
        while last < stop && !is_space(text[last])
            invariant
                first < last <= stop <= text@.len(),
                start <= first,
                line == text@.subrange(start as int, stop as int),
                token_end(line, first - start) == token_end(line, last - start),
            decreases stop - last,
        {
            assert(line[last - start] == text@[last as int]);
            last += 1;
        }
        assert(token_end(line, last - start) == last - start) by {
            if last < stop {
                assert(line[last - start] == text@[last as int]);
            }
        }
        let token = copy_text(text, first, last);
        let ghost before = texts(tokens@);
        let ghost rest = tokens_from(line, at - start);
        tokens.push(token);
        assert(text@.subrange(first as int, last as int) =~= line.subrange(
            first - start,
            last - start,
        ));
        assert(texts(tokens@) =~= before + seq![line.subrange(first - start, last - start)]);
        if last >= stop {
            assert(texts(tokens@) =~= before + rest);
            break;
        }
        assert(texts(tokens@) + tokens_from(line, last - start) =~= before + rest);
        at = last;
    }
    tokens
}

/// The statements of an assembly file.
#[derive(Debug, Clone, Copy, PartialEq, Eq, Structural)]
pub enum Mnemonic {
    /// `abssq a b`: an instruction with absolute addresses.
    Abssq,
    /// `relsq a b`: an instruction with relative addresses.
    Relsq,
    /// `lblsq a b c`: an instruction with a branch target.
    Lblsq,
    /// `subaddr label value`: one instruction for every reference to the
    /// label.
    Subaddr,
    /// `zeroaddr label`: one instruction for every reference to the label.
    Zeroaddr,
    /// `raw word ..`: words as they stand.
    Raw,
    /// `raw_ref label ..`: words that hold the addresses of labels.
    RawRef,
    /// Anything else: a label, a comment, a directive without bytes.
    Other,
}

/// The statement that a first token announces.
pub open spec fn mnemonic_of(token: Seq<char>) -> Mnemonic {
    if token == "abssq"@ {
        Mnemonic::Abssq
    } else if token == "relsq"@ {
        Mnemonic::Relsq
    } else if token == "lblsq"@ {
        Mnemonic::Lblsq
    } else if token == "subaddr"@ {
        Mnemonic::Subaddr
    } else if token == "zeroaddr"@ {
        Mnemonic::Zeroaddr
    } else if token == "raw"@ {
        Mnemonic::Raw
    } else if token == "raw_ref"@ {
        Mnemonic::RawRef
    } else {
        Mnemonic::Other
    }
}

/// Tells which statement a first token announces.
pub fn mnemonic(token: &String) -> (kind: Mnemonic)
    ensures
        kind == mnemonic_of(token@),
{
    if *token == String::from_str("abssq") {
        Mnemonic::Abssq
    } else if *token == String::from_str("relsq") {
        Mnemonic::Relsq
    } else if *token == String::from_str("lblsq") {
        Mnemonic::Lblsq
    } else if *token == String::from_str("subaddr") {
        Mnemonic::Subaddr
    } else if *token == String::from_str("zeroaddr") {
        Mnemonic::Zeroaddr
    } else if *token == String::from_str("raw") {
        Mnemonic::Raw
    } else if *token == String::from_str("raw_ref") {
        Mnemonic::RawRef
    } else {
        Mnemonic::Other
    }
}

/// Whether the statement has the arguments that are read from it.
pub open spec fn shape_ok(tokens: Seq<Seq<char>>) -> bool {
    tokens.len() == 0 || match mnemonic_of(tokens[0]) {
        Mnemonic::Abssq | Mnemonic::Relsq | Mnemonic::Subaddr => tokens.len() >= 3,
        Mnemonic::Lblsq => tokens.len() >= 4,
        Mnemonic::Zeroaddr => tokens.len() >= 2,
        Mnemonic::Raw | Mnemonic::RawRef | Mnemonic::Other => true,
    }
}

/// The labels that the statement refers to: both arguments of `abssq` and
/// `relsq`, the three of `lblsq`, the second of `subaddr`, all of `raw_ref`.
pub open spec fn refs_of(tokens: Seq<Seq<char>>) -> Seq<Seq<char>> {
    if tokens.len() == 0 {
        Seq::empty()
    } else {
        match mnemonic_of(tokens[0]) {
            Mnemonic::Abssq | Mnemonic::Relsq => seq![tokens[1], tokens[2]],
            Mnemonic::Lblsq => seq![tokens[1], tokens[2], tokens[3]],
            Mnemonic::Subaddr => seq![tokens[2]],
            Mnemonic::RawRef => tokens.subrange(1, tokens.len() as int),
            Mnemonic::Zeroaddr | Mnemonic::Raw | Mnemonic::Other => Seq::empty(),
        }
    }
}

/// All references of the lines, in the order of the file.
pub open spec fn references(lines: Seq<Seq<char>>) -> Seq<Seq<char>>
    decreases lines.len(),
{
    if lines.len() == 0 {
        Seq::empty()
    } else {
        references(lines.drop_last()) + refs_of(tokens_of(lines.last()))
    }
}

/// How often the label occurs among the references.
pub open spec fn occurrences(refs: Seq<Seq<char>>, label: Seq<char>) -> nat
    decreases refs.len(),
{
    if refs.len() == 0 {
        0
    } else {
        occurrences(refs.drop_last(), label) + if refs.last() == label {
            1nat
        } else {
            0nat
        }
    }
}

/// A label occurs at most as often as there are references.
pub proof fn lemma_occurrences_bound(refs: Seq<Seq<char>>, label: Seq<char>)
    ensures
        occurrences(refs, label) <= refs.len(),
    decreases refs.len(),
{
    if refs.len() > 0 {
        lemma_occurrences_bound(refs.drop_last(), label);
    }
}

/// The number of bytes of a statement, given all references of the file:
/// 24 for an instruction, 8 for each argument of `raw` and `raw_ref`, and 24
/// for each reference to the label of `subaddr` and `zeroaddr`.
pub open spec fn lsq_size(tokens: Seq<Seq<char>>, refs: Seq<Seq<char>>) -> nat {
    if tokens.len() == 0 {
        0
    } else {
        match mnemonic_of(tokens[0]) {
            Mnemonic::Abssq | Mnemonic::Relsq | Mnemonic::Lblsq => STATEMENT_SIZE as nat,
            Mnemonic::Raw | Mnemonic::RawRef => RAW_SIZE as nat * (tokens.len() - 1) as nat,
            Mnemonic::Subaddr | Mnemonic::Zeroaddr => STATEMENT_SIZE as nat * occurrences(
                refs,
                tokens[1],
            ),
            Mnemonic::Other => 0,
        }
    }
}

/// The sizes of the lines of an assembly file.
pub open spec fn lsq_sizes(lines: Seq<Seq<char>>) -> Seq<nat> {
    Seq::new(lines.len(), |k: int| lsq_size(tokens_of(lines[k]), references(lines)))
}

/// Every statement of the assembly file has the arguments that are read
/// from it.
pub open spec fn lsq_well_formed(text: Seq<char>) -> bool {
    forall|k: int|
        0 <= k < lines_of(text).len() ==> shape_ok(tokens_of(#[trigger] lines_of(text)[k]))
}

/// The size of the whole assembly file fits in 64 bits.
pub open spec fn lsq_fits(text: Seq<char>) -> bool {
    total_size(lsq_sizes(lines_of(text))) <= u64::MAX
}

/// The debug data of an assembly file: every line with the offset at which
/// its bytes begin.
pub open spec fn lsq_entries(text: Seq<char>) -> Seq<(u64, Seq<char>)> {
    entries_of(lines_of(text), lsq_sizes(lines_of(text)))
}

/// The longest text whose size is sure to fit in 64 bits.
pub const MAX_LSQ_TEXT: u64 = 0x0fff_ffff;

/// The number of characters of all lines together.
pub open spec fn chars_in(lines: Seq<Seq<char>>) -> nat
    decreases lines.len(),
{
    if lines.len() == 0 {
        0
    } else {
        chars_in(lines.drop_last()) + lines.last().len()
    }
}

/// The sizes of the lines, given the references of some file.
pub open spec fn sizes_with(lines: Seq<Seq<char>>, refs: Seq<Seq<char>>) -> Seq<nat> {
    Seq::new(lines.len(), |k: int| lsq_size(tokens_of(lines[k]), refs))
}

/// A line has at most as many tokens as characters.
pub proof fn lemma_tokens_bound(line: Seq<char>, from: int)
    requires
        0 <= from <= line.len(),
    ensures
        tokens_from(line, from).len() <= line.len() - from,
    decreases line.len() - from,
{
    lemma_token_bounds(line, from);
    let start = token_start(line, from);
    if start < line.len() {
        let end = token_end(line, start);
        if end < line.len() {
            lemma_tokens_bound(line, end);
        }
    }
}

/// The characters of a first line and of further lines.
proof fn lemma_chars_in_front(first: Seq<char>, rest: Seq<Seq<char>>)
    ensures
        chars_in(seq![first] + rest) == first.len() + chars_in(rest),
    decreases rest.len(),
{
    let all = seq![first] + rest;
    if rest.len() == 0 {
        assert(all.drop_last() =~= Seq::<Seq<char>>::empty());
        assert(all.last() == first);
        assert(chars_in(all) == chars_in(all.drop_last()) + all.last().len());
    } else {
        assert(all.drop_last() =~= seq![first] + rest.drop_last());
        assert(all.last() == rest.last());
        lemma_chars_in_front(first, rest.drop_last());
        assert(chars_in(all) == chars_in(all.drop_last()) + all.last().len());
    }
}

/// The lines of a text from `start` on have, lines and characters counted
/// together, at most one more than the text has characters from `start`
/// on.
pub proof fn lemma_lines_bound(text: Seq<char>, start: int)
    requires
        0 <= start <= text.len(),
    ensures
        lines_from(text, start).len() + chars_in(lines_from(text, start)) <= text.len() - start
            + 1,
    decreases text.len() - start,
{
    if start < text.len() {
        lemma_line_end_bounds(text, start);
        let end = line_end(text, start);
        let line = text.subrange(start, line_stop(text, start));
        if end >= text.len() {
            assert(lines_from(text, start) =~= seq![line] + Seq::<Seq<char>>::empty());
            lemma_chars_in_front(line, Seq::<Seq<char>>::empty());
        } else {
            lemma_lines_bound(text, end + 1);
            lemma_chars_in_front(line, lines_from(text, end + 1));
        }
    }
}

/// There are at most three references for each line and one for each
/// character.
pub proof fn lemma_references_bound(lines: Seq<Seq<char>>)
    ensures
        references(lines).len() <= 3 * lines.len() + chars_in(lines),
    decreases lines.len(),
{
    if lines.len() > 0 {
        lemma_references_bound(lines.drop_last());
        lemma_tokens_bound(lines.last(), 0);
    }
}

/// The sizes of the lines add up to at most 24 bytes for each line, each
/// character and each reference that a line may count.
pub proof fn lemma_sizes_bound(lines: Seq<Seq<char>>, refs: Seq<Seq<char>>)
    ensures
        total_size(sizes_with(lines, refs)) <= 24 * (lines.len() * (refs.len() + 1) + chars_in(
            lines,
        )),
    decreases lines.len(),
{
    if lines.len() > 0 {
        let front = lines.drop_last();
        let tokens = tokens_of(lines.last());
        lemma_sizes_bound(front, refs);
        lemma_tokens_bound(lines.last(), 0);
        assert(sizes_with(lines, refs).drop_last() =~= sizes_with(front, refs));
        assert(sizes_with(lines, refs).last() == lsq_size(tokens, refs));
        assert(lsq_size(tokens, refs) <= 24 * (refs.len() + 1) + 24 * lines.last().len()) by {
            if tokens.len() > 0 {
                lemma_occurrences_bound(refs, tokens[1]);
            }
        }
        assert(lines.len() * (refs.len() + 1) == front.len() * (refs.len() + 1) + (refs.len()
            + 1)) by (nonlinear_arith)
            requires
                lines.len() == front.len() + 1,
        ;
    }
}

/// The size of an assembly file fits in 64 bits whenever the file has at
/// most `MAX_LSQ_TEXT` characters. So the parser reads every such file
/// whose statements have their arguments, and the offsets that it gives
/// never decrease.
pub proof fn lemma_lsq_parser_is_total(text: Seq<char>)
    requires
        text.len() <= MAX_LSQ_TEXT,
    ensures
        lsq_fits(text),
        lsq_entries(text).len() == lines_of(text).len(),
        ordered(lsq_entries(text)),
        lsq_entries(text).len() > 0 ==> lsq_entries(text)[0].0 == 0,
{
    let lines = lines_of(text);
    let refs = references(lines);
    lemma_lines_bound(text, 0);
    lemma_references_bound(lines);
    lemma_sizes_bound(lines, refs);
    assert(lsq_sizes(lines) =~= sizes_with(lines, refs));
    let n = text.len() + 1;
    assert(lines.len() <= n && chars_in(lines) <= n && refs.len() + 1 <= 4 * n + 1);
    assert(lines.len() * (refs.len() + 1) <= n * (4 * n + 1)) by (nonlinear_arith)
        requires
            lines.len() <= n,
            refs.len() + 1 <= 4 * n + 1,
    ;
    assert(24 * (n * (4 * n + 1) + n) <= u64::MAX) by (nonlinear_arith)
        requires
            n <= 0x1000_0000,
    ;
    lemma_entries_ordered(lines, lsq_sizes(lines));
}

/// The count that a table of reference counts holds for a label: the sum of
/// the counts of the entries with that label. The table is a list, searched
/// from the front: of a hash map with strings for keys the verifier knows
/// nothing, not even what it holds after one insertion.
pub open spec fn count_in(entries: Seq<(String, u64)>, label: Seq<char>) -> nat
    decreases entries.len(),
{
    if entries.len() == 0 {
        0
    } else {
        count_in(entries.drop_last(), label) + if entries.last().0@ == label {
            entries.last().1 as nat
        } else {
            0nat
        }
    }
}

/// The table holds for every label the number of its occurrences among the
/// references.
pub open spec fn counts_match(entries: Seq<(String, u64)>, refs: Seq<Seq<char>>) -> bool {
    forall|label: Seq<char>| #[trigger] count_in(entries, label) == occurrences(refs, label)
}

/// The count after an entry was replaced by one with the same label.
proof fn lemma_count_in_update(
    entries: Seq<(String, u64)>,
    i: int,
    entry: (String, u64),
    label: Seq<char>,
)
    requires
        0 <= i < entries.len(),
        entries[i].0@ == entry.0@,
    ensures
        count_in(entries.update(i, entry), label) + (if entry.0@ == label {
            entries[i].1 as int
        } else {
            0
        }) == count_in(entries, label) + (if entry.0@ == label {
            entry.1 as int
        } else {
            0
        }),
    decreases entries.len(),
{
    let updated = entries.update(i, entry);
    if i == entries.len() - 1 {
        assert(updated.drop_last() =~= entries.drop_last());
    } else {
        assert(updated.drop_last() =~= entries.drop_last().update(i, entry));
        lemma_count_in_update(entries.drop_last(), i, entry, label);
    }
}

/// The count of the first entries is at most the count of all.
proof fn lemma_count_in_grows(entries: Seq<(String, u64)>, k: int, label: Seq<char>)
    requires
        0 <= k <= entries.len(),
    ensures
        count_in(entries.take(k), label) <= count_in(entries, label),
        k < entries.len() ==> count_in(entries.take(k + 1), label) == count_in(
            entries.take(k),
            label,
        ) + if entries[k].0@ == label {
            entries[k].1 as nat
        } else {
            0nat
        },
    decreases entries.len(),
{
    if k == entries.len() {
        assert(entries.take(k) =~= entries);
    } else {
        lemma_count_in_grows(entries.drop_last(), k, label);
        assert(entries.drop_last().take(k) =~= entries.take(k));
        assert(entries.take(k + 1).drop_last() =~= entries.take(k));
    }
}

/// Counts one more reference to the label `token`.
pub fn inc_ref_count(ref_counts: &mut Vec<(String, u64)>, token: &str)
    requires
        count_in(old(ref_counts)@, token@) < u64::MAX,
    ensures
        forall|label: Seq<char>|
            #[trigger] count_in(final(ref_counts)@, label) == count_in(old(ref_counts)@, label)
                + if label == token@ {
                1nat
            } else {
                0nat
            },
{
    let label = String::from_str(token);
    let mut i: usize = 0;
    while i < ref_counts.len()
        invariant
            i <= ref_counts@.len(),
            ref_counts@ == old(ref_counts)@,
            label@ == token@,
            count_in(ref_counts@, token@) < u64::MAX,
        decreases ref_counts@.len() - i,
    {
        if ref_counts[i].0 == label {
            let count = ref_counts[i].1;
            proof {
                lemma_count_in_grows(ref_counts@, i as int, token@);
                lemma_count_in_grows(ref_counts@, i + 1, token@);
                assert forall|other: Seq<char>| #[trigger]
                    count_in(ref_counts@.update(i as int, (label, (count + 1) as u64)), other)
                        == count_in(ref_counts@, other) + if other == token@ {
                        1nat
                    } else {
                        0nat
                    } by {
                    lemma_count_in_update(
                        ref_counts@,
                        i as int,
                        (label, (count + 1) as u64),
                        other,
                    );
                }
            }
            ref_counts[i] = (label, count + 1);
            return ;
        }
        i += 1;
    }
    let ghost before = ref_counts@;
    ref_counts.push((label, 1));
    assert(ref_counts@.drop_last() =~= before);
}

/// Looks up how often a label was referred to.
pub fn ref_count(ref_counts: &Vec<(String, u64)>, label: &String) -> (count: u64)
    requires
        count_in(ref_counts@, label@) <= u64::MAX,
    ensures
        count == count_in(ref_counts@, label@),
{
    let mut count: u64 = 0;
    let mut i: usize = 0;
    assert(ref_counts@.take(0) =~= Seq::<(String, u64)>::empty());
    while i < ref_counts.len()
        invariant
            i <= ref_counts@.len(),
            count == count_in(ref_counts@.take(i as int), label@),
            count_in(ref_counts@, label@) <= u64::MAX,
        decreases ref_counts@.len() - i,
    {
        proof {
            lemma_count_in_grows(ref_counts@, i as int, label@);
            lemma_count_in_grows(ref_counts@, i + 1, label@);
        }
        if ref_counts[i].0 == *label {
            count = count + ref_counts[i].1;
        }
        i += 1;
    }
    assert(ref_counts@.take(i as int) =~= ref_counts@);
    count
}

/// One more reference: the counts follow.
proof fn lemma_counts_push(
    before: Seq<(String, u64)>,
    after: Seq<(String, u64)>,
    refs: Seq<Seq<char>>,
    label: Seq<char>,
)
    requires
        counts_match(before, refs),
        forall|other: Seq<char>|
            #[trigger] count_in(after, other) == count_in(before, other) + if other == label {
                1nat
            } else {
                0nat
            },
    ensures
        counts_match(after, refs.push(label)),
{
    assert forall|other: Seq<char>| #[trigger]
        count_in(after, other) == occurrences(refs.push(label), other) by {
        assert(refs.push(label).drop_last() =~= refs);
        assert(count_in(before, other) == occurrences(refs, other));
    }
}

/// Counts the references of one statement. Returns whether the statement has
/// the arguments that are read from it; the table is complete only then.
fn note_refs(ref_counts: &mut Vec<(String, u64)>, tokens: &Vec<String>, Ghost(refs): Ghost<
    Seq<Seq<char>>,
>) -> (ok: bool)
    requires
        counts_match(old(ref_counts)@, refs),
        refs.len() + tokens@.len() <= usize::MAX,
    ensures
        ok == shape_ok(texts(tokens@)),
        ok ==> counts_match(final(ref_counts)@, refs + refs_of(texts(tokens@))),
{
    let ghost words = texts(tokens@);
    if tokens.len() == 0 {
        assert(refs + refs_of(words) =~= refs);
        return true;
    }
    assert(words[0] == tokens@[0]@);
    let kind = mnemonic(&tokens[0]);
    let first: usize = match kind {
        Mnemonic::Abssq | Mnemonic::Relsq | Mnemonic::Lblsq | Mnemonic::RawRef => 1,
        Mnemonic::Subaddr => 2,
        Mnemonic::Zeroaddr | Mnemonic::Raw | Mnemonic::Other => 0,
    };
    let last: usize = match kind {
        Mnemonic::Abssq | Mnemonic::Relsq | Mnemonic::Subaddr => 3,
        Mnemonic::Lblsq => 4,
        Mnemonic::RawRef => tokens.len(),
        Mnemonic::Zeroaddr => 2,
        Mnemonic::Raw | Mnemonic::Other => 0,
    };
    if tokens.len() < last {
        return false;
    }
    if kind == Mnemonic::Zeroaddr || first == 0 {
        assert(refs + refs_of(words) =~= refs);
        return true;
    }
    assert(refs_of(words) =~= words.subrange(first as int, last as int));
    let mut j: usize = first;
    assert(refs + words.subrange(first as int, j as int) =~= refs);
    while j < last
        invariant
            first <= j <= last <= tokens@.len(),
            words == texts(tokens@),
            refs.len() + tokens@.len() <= usize::MAX,
            counts_match(ref_counts@, refs + words.subrange(first as int, j as int)),
        decreases last - j,
    {
        let ghost seen = refs + words.subrange(first as int, j as int);
        let ghost before = ref_counts@;
        assert(words[j as int] == tokens@[j as int]@);
        proof {
            lemma_occurrences_bound(seen, words[j as int]);
            assert(count_in(before, words[j as int]) == occurrences(seen, words[j as int]));
        }
        inc_ref_count(ref_counts, tokens[j].as_str());
        proof {
            lemma_counts_push(before, ref_counts@, seen, words[j as int]);
            assert(seen.push(words[j as int]) =~= refs + words.subrange(
                first as int,
                j + 1,
            ));
        }
        j += 1;
    }
    true
}

/// The size of one statement, given the table of all reference counts.
/// Returns nothing where the size does not fit in 64 bits.
fn statement_size(ref_counts: &Vec<(String, u64)>, tokens: &Vec<String>, Ghost(refs): Ghost<
    Seq<Seq<char>>,
>) -> (size: Option<u64>)
    requires
        counts_match(ref_counts@, refs),
        refs.len() <= usize::MAX,
        shape_ok(texts(tokens@)),
    ensures
        size matches Some(bytes) ==> bytes == lsq_size(texts(tokens@), refs),
        size is None ==> lsq_size(texts(tokens@), refs) > u64::MAX,
{
    let ghost words = texts(tokens@);
    if tokens.len() == 0 {
        return Some(0);
    }
    assert(words[0] == tokens@[0]@);
    match mnemonic(&tokens[0]) {
        Mnemonic::Abssq | Mnemonic::Relsq | Mnemonic::Lblsq => Some(STATEMENT_SIZE),
        Mnemonic::Raw | Mnemonic::RawRef => {
            let arguments: u64 = (tokens.len() - 1) as u64;
            RAW_SIZE.checked_mul(arguments)
        },
        Mnemonic::Subaddr | Mnemonic::Zeroaddr => {
            assert(words[1] == tokens@[1]@);
            proof {
                lemma_occurrences_bound(refs, words[1]);
                assert(count_in(ref_counts@, words[1]) == occurrences(refs, words[1]));
            }
            let count = ref_count(ref_counts, &tokens[1]);
            STATEMENT_SIZE.checked_mul(count)
        },
        Mnemonic::Other => Some(0),
    }
}

/// The references of the first lines and of one more line.
proof fn lemma_references_take(lines: Seq<Seq<char>>, k: int)
    requires
        0 <= k < lines.len(),
    ensures
        references(lines.take(k + 1)) == references(lines.take(k)) + refs_of(
            tokens_of(lines[k]),
        ),
{
    assert(lines.take(k + 1).drop_last() =~= lines.take(k));
}

/// Reads the debug data of an assembly file. Returns nothing where a
/// statement lacks an argument, or where the size of the file does not fit
/// in 64 bits. A `subaddr` or `zeroaddr` whose label is never referred to
/// takes no bytes.
pub fn try_parse_lsq_file(inp: &str) -> (parsed: Option<Parsed>)
    ensures
        parsed is Some <==> lsq_well_formed(inp@) && lsq_fits(inp@),
        parsed matches Some(found) ==> found.data@ == lsq_entries(inp@) && found.data.wf()
            && found.data.starts_at_zero()
            && found.size == total_size(lsq_sizes(lines_of(inp@))),
{
    let chars = chars_of(inp);
    let ranges = split_lines(chars.as_slice());
    let ghost lines = lines_of(inp@);
    let ghost all_refs = references(lines);
    assert(chars@.len() <= usize::MAX) by {
        assert(chars.len() == chars@.len());
    }
    let mut ref_counts: Vec<(String, u64)> = Vec::new();
    let mut k: usize = 0;
    assert(lines.take(0) =~= Seq::<Seq<char>>::empty());
    while k < ranges.len()
        invariant
            k <= ranges@.len(),
            chars@ == inp@,
            lines == lines_of(inp@),
            all_refs == references(lines),
            spans(chars@, ranges@) == lines,
            forall|j: int|
                0 <= j < ranges@.len() ==> (#[trigger] ranges@[j]).0 <= ranges@[j].1
                    <= chars@.len(),
            forall|i: int, j: int|
                0 <= i < j < ranges@.len() ==> (#[trigger] ranges@[i]).1 <= (
                #[trigger] ranges@[j]).0,
            counts_match(ref_counts@, references(lines.take(k as int))),
            k < ranges@.len() ==> references(lines.take(k as int)).len() <= ranges@[k as int].0,
            references(lines.take(k as int)).len() <= chars@.len() <= usize::MAX,
            forall|j: int| 0 <= j < k ==> shape_ok(tokens_of(#[trigger] lines[j])),
        decreases ranges@.len() - k,
    {
        let (start, stop) = ranges[k];
        assert(lines[k as int] == chars@.subrange(start as int, stop as int)) by {
            assert(spans(chars@, ranges@)[k as int] == chars@.subrange(
                ranges@[k as int].0 as int,
                ranges@[k as int].1 as int,
            ));
        }
        let tokens = tokenize(chars.as_slice(), start, stop);
        proof {
            lemma_references_take(lines, k as int);
        }
        let ok = note_refs(&mut ref_counts, &tokens, Ghost(references(lines.take(k as int))));
        if !ok {
            return None;
        }
        proof {
            let more = references(lines.take(k + 1));
            let found = refs_of(tokens_of(lines[k as int]));
            assert(found.len() <= tokens@.len()) by {
                assert(texts(tokens@).len() == tokens@.len());
            }
            assert(more.len() <= stop);
            if k + 1 < ranges@.len() {
                assert(ranges@[k as int].1 <= ranges@[k + 1].0);
            }
        }
        k += 1;
    }
    assert(lines.take(k as int) =~= lines);
    let ghost sizes = lsq_sizes(lines);
    let mut offsets: Vec<(u64, String)> = Vec::new();
    let mut offset: u64 = 0;
    let mut k: usize = 0;
    assert(entries_view(offsets@) =~= entries_of(lines.take(0), sizes.take(0)));
    assert(sizes.take(0) =~= Seq::<nat>::empty());
    while k < ranges.len()
        invariant
            k <= ranges@.len(),
            chars@ == inp@,
            lines == lines_of(inp@),
            all_refs == references(lines),
            sizes == lsq_sizes(lines),
            spans(chars@, ranges@) == lines,
            forall|j: int|
                0 <= j < ranges@.len() ==> (#[trigger] ranges@[j]).0 <= ranges@[j].1
                    <= chars@.len(),
            counts_match(ref_counts@, all_refs),
            all_refs.len() <= usize::MAX,
            forall|j: int| 0 <= j < lines.len() ==> shape_ok(tokens_of(#[trigger] lines[j])),
            entries_view(offsets@) == entries_of(lines.take(k as int), sizes.take(k as int)),
            offset == total_size(sizes.take(k as int)),
        decreases ranges@.len() - k,
    {
        let (start, stop) = ranges[k];
        assert(lines[k as int] == chars@.subrange(start as int, stop as int)) by {
            assert(spans(chars@, ranges@)[k as int] == chars@.subrange(
                ranges@[k as int].0 as int,
                ranges@[k as int].1 as int,
            ));
        }
        let line = copy_text(chars.as_slice(), start, stop);
        let tokens = tokenize(chars.as_slice(), start, stop);
        proof {
            lemma_entries_push(lines, sizes, k as int);
            lemma_total_size_grows(sizes, k + 1);
        }
        let next = match statement_size(&ref_counts, &tokens, Ghost(all_refs)) {
            Some(size) => offset.checked_add(size),
            None => None,
        };
        match next {
            Some(next) => {
                let ghost before = entries_view(offsets@);
                offsets.push((offset, line));
                assert(entries_view(offsets@) =~= before.push((offset, lines[k as int])));
                offset = next;
            },
            None => {
                return None;
            },
        }
        k += 1;
    }
    assert(lines.take(k as int) =~= lines);
    assert(sizes.take(k as int) =~= sizes);
    proof {
        lemma_entries_ordered(lines, sizes);
    }
    Some(Parsed { data: DebugData { offsets }, size: offset })
}

/// Reads the debug data of an assembly file: every line of the file, with
/// the offset at which its bytes begin. The size of a file of at most
/// `MAX_LSQ_TEXT` characters always fits (`lemma_lsq_parser_is_total`).
pub fn parse_lsq_file(inp: &str) -> (data: DebugData)
    requires
        lsq_well_formed(inp@),
        lsq_fits(inp@),
    ensures
        data@ == lsq_entries(inp@),
        data.wf(),
        data.starts_at_zero(),
{
    match try_parse_lsq_file(inp) {
        Some(found) => found.data,
        None => DebugData { offsets: Vec::new() },
    }
}

} // verus!
