//! Debug data: which source line stands at which offset of the program. It
//! is read from a hex file or from a SUBLEQ assembly file, and rendered as a
//! window of source lines around the instruction pointer.

pub use crate::hex::parse_hex_file;
use crate::hex::{hex_entries, hex_fits, hex_sizes, hex_well_formed, try_parse_hex_file};
use crate::lines::lines_of;
pub use crate::lsq::parse_lsq_file;
use crate::lsq::{lsq_entries, lsq_fits, lsq_sizes, lsq_well_formed, try_parse_lsq_file};
use crate::text::{hex_padded, joined, push_hex_padded, push_text};
use vstd::prelude::*;

verus! {

/// Source lines with the offset at which the bytes of each begin, in the
/// order of the file.
#[derive(Debug)]
pub struct DebugData {
    pub offsets: Vec<(u64, String)>,
}

/// The entries of a list, each line as a sequence of characters.
pub open spec fn entries_view(offsets: Seq<(u64, String)>) -> Seq<(u64, Seq<char>)> {
    Seq::new(offsets.len(), |i: int| (offsets[i].0, offsets[i].1@))
}

impl View for DebugData {
    type V = Seq<(u64, Seq<char>)>;

    open spec fn view(&self) -> Seq<(u64, Seq<char>)> {
        entries_view(self.offsets@)
    }
}

/// Debug data with the size of the code that it describes.
#[derive(Debug)]
pub struct Parsed {
    /// The lines and their offsets.
    pub data: DebugData,
    /// The offset behind the last line: the number of bytes of the whole
    /// file.
    pub size: u64,
}

/// The offsets never decrease from one entry to the next.
pub open spec fn ordered(entries: Seq<(u64, Seq<char>)>) -> bool {
    forall|i: int, j: int| 0 <= i <= j < entries.len() ==> entries[i].0 <= entries[j].0
}

impl DebugData {
    /// The offsets never decrease.
    pub open spec fn wf(&self) -> bool {
        ordered(self@)
    }

    /// The first line, if there is one, begins at offset 0.
    pub open spec fn starts_at_zero(&self) -> bool {
        self@.len() > 0 ==> self@[0].0 == 0
    }
}

/// The sum of the sizes.
pub open spec fn total_size(sizes: Seq<nat>) -> nat
    decreases sizes.len(),
{
    if sizes.len() == 0 {
        0
    } else {
        total_size(sizes.drop_last()) + sizes.last()
    }
}

/// The entries for lines of the given sizes: each line with the sum of the
/// sizes of the lines before it.
pub open spec fn entries_of(lines: Seq<Seq<char>>, sizes: Seq<nat>) -> Seq<(u64, Seq<char>)> {
    Seq::new(lines.len(), |k: int| (total_size(sizes.take(k)) as u64, lines[k]))
}

/// The sum of the first sizes is at most the sum of all.
pub proof fn lemma_total_size_grows(sizes: Seq<nat>, k: int)
    requires
        0 <= k <= sizes.len(),
    ensures
        total_size(sizes.take(k)) <= total_size(sizes),
    decreases sizes.len(),
{
    if k == sizes.len() {
        assert(sizes.take(k) =~= sizes);
    } else {
        lemma_total_size_grows(sizes.drop_last(), k);
        assert(sizes.drop_last().take(k) =~= sizes.take(k));
    }
}

/// The offsets of entries never decrease, and the first is 0, as long as
/// the sum of all sizes fits in 64 bits.
pub proof fn lemma_entries_ordered(lines: Seq<Seq<char>>, sizes: Seq<nat>)
    requires
        lines.len() == sizes.len(),
        total_size(sizes) <= u64::MAX,
    ensures
        ordered(entries_of(lines, sizes)),
        lines.len() > 0 ==> entries_of(lines, sizes)[0].0 == 0,
        forall|k: int|
            0 <= k < lines.len() ==> (#[trigger] entries_of(lines, sizes)[k]).0 == total_size(
                sizes.take(k),
            ),
{
    assert forall|k: int| 0 <= k < lines.len() implies (#[trigger] entries_of(
        lines,
        sizes,
    )[k]).0 == total_size(sizes.take(k)) by {
        lemma_total_size_grows(sizes, k);
    }
    assert forall|i: int, j: int| 0 <= i <= j < lines.len() implies entries_of(lines, sizes)[i].0
        <= entries_of(lines, sizes)[j].0 by {
        lemma_total_size_grows(sizes.take(j), i);
        assert(sizes.take(j).take(i) =~= sizes.take(i));
    }
    if lines.len() > 0 {
        assert(sizes.take(0) =~= Seq::<nat>::empty());
    }
}

/// The entries keep the lines as they are, and from one entry to the next
/// the offset grows by the size of the line: every line begins where the
/// line before it ends, and the last line ends at the sum of all sizes.
pub proof fn lemma_entries_step(lines: Seq<Seq<char>>, sizes: Seq<nat>, i: int)
    requires
        lines.len() == sizes.len(),
        total_size(sizes) <= u64::MAX,
        0 <= i < lines.len(),
    ensures
        entries_of(lines, sizes).len() == lines.len(),
        entries_of(lines, sizes)[i].1 == lines[i],
        i + 1 < lines.len() ==> entries_of(lines, sizes)[i + 1].0 == entries_of(lines, sizes)[i].0
            + sizes[i],
        i + 1 == lines.len() ==> total_size(sizes) == entries_of(lines, sizes)[i].0 + sizes[i],
{
    lemma_entries_ordered(lines, sizes);
    assert(sizes.take(i + 1).drop_last() =~= sizes.take(i));
    assert(sizes.take(i + 1).last() == sizes[i]);
    if i + 1 == lines.len() {
        assert(sizes.take(i + 1) =~= sizes);
    }
}

/// The entries for one more line.
pub proof fn lemma_entries_push(lines: Seq<Seq<char>>, sizes: Seq<nat>, k: int)
    requires
        lines.len() == sizes.len(),
        0 <= k < lines.len(),
    ensures
        entries_of(lines.take(k + 1), sizes.take(k + 1)) == entries_of(
            lines.take(k),
            sizes.take(k),
        ).push((total_size(sizes.take(k)) as u64, lines[k])),
        total_size(sizes.take(k + 1)) == total_size(sizes.take(k)) + sizes[k],
{
    assert(sizes.take(k + 1).drop_last() =~= sizes.take(k));
    let more = entries_of(lines.take(k + 1), sizes.take(k + 1));
    let less = entries_of(lines.take(k), sizes.take(k));
    assert forall|j: int| 0 <= j < more.len() implies more[j] == less.push(
        (total_size(sizes.take(k)) as u64, lines[k]),
    )[j] by {
        assert(sizes.take(k + 1).take(j) =~= sizes.take(j));
        if j < k {
            assert(sizes.take(k).take(j) =~= sizes.take(j));
        }
    }
    assert(more =~= less.push((total_size(sizes.take(k)) as u64, lines[k])));
}

/// The files in which debug data is looked for, each with its content if
/// the file exists.
#[derive(Debug)]
pub struct DebugSources {
    /// The content of `<base>.hex0`.
    pub hex0: Option<String>,
    /// The content of `<base>.hex1`.
    pub hex1: Option<String>,
    /// The content of `<base>.hex2`.
    pub hex2: Option<String>,
    /// The content of `<base>.lsq`.
    pub lsq: Option<String>,
}

/// One of the files in which debug data is looked for.
#[derive(Debug, Clone, Copy, PartialEq, Eq, Structural)]
pub enum SourceKind {
    Hex0,
    Hex1,
    Hex2,
    Lsq,
}

/// Whether the hex file, if there is one, can be read.
pub open spec fn hex_source_ok(source: Option<String>) -> bool {
    source matches Some(text) ==> hex_well_formed(text@) && hex_fits(text@)
}

/// Whether the assembly file, if there is one, can be read.
pub open spec fn lsq_source_ok(source: Option<String>) -> bool {
    source matches Some(text) ==> lsq_well_formed(text@) && lsq_fits(text@)
}

/// The first of the files, in the order `hex0`, `hex1`, `hex2`, `lsq`, that
/// exists and cannot be read.
pub open spec fn first_bad_source(sources: DebugSources) -> Option<SourceKind> {
    if !hex_source_ok(sources.hex0) {
        Some(SourceKind::Hex0)
    } else if !hex_source_ok(sources.hex1) {
        Some(SourceKind::Hex1)
    } else if !hex_source_ok(sources.hex2) {
        Some(SourceKind::Hex2)
    } else if !lsq_source_ok(sources.lsq) {
        Some(SourceKind::Lsq)
    } else {
        None
    }
}

/// The debug data of the last file, in the order `hex0`, `hex1`, `hex2`,
/// `lsq`, that exists; nothing where none exists.
pub open spec fn chosen_entries(sources: DebugSources) -> Option<Seq<(u64, Seq<char>)>> {
    if let Some(text) = sources.lsq {
        Some(lsq_entries(text@))
    } else if let Some(text) = sources.hex2 {
        Some(hex_entries(text@))
    } else if let Some(text) = sources.hex1 {
        Some(hex_entries(text@))
    } else if let Some(text) = sources.hex0 {
        Some(hex_entries(text@))
    } else {
        None
    }
}

/// The size of the code that the chosen file describes.
pub open spec fn chosen_size(sources: DebugSources) -> nat {
    if let Some(text) = sources.lsq {
        total_size(lsq_sizes(lines_of(text@)))
    } else if let Some(text) = sources.hex2 {
        total_size(hex_sizes(lines_of(text@)))
    } else if let Some(text) = sources.hex1 {
        total_size(hex_sizes(lines_of(text@)))
    } else if let Some(text) = sources.hex0 {
        total_size(hex_sizes(lines_of(text@)))
    } else {
        0
    }
}

/// Reads one hex file, if it exists.
fn read_hex_source(source: &Option<String>) -> (parsed: Option<Option<Parsed>>)
    ensures
        parsed is Some <==> hex_source_ok(*source),
        parsed matches Some(found) ==> match *source {
            Some(text) => found matches Some(data) && data.data@ == hex_entries(text@)
                && data.data.wf() && data.data.starts_at_zero() && data.size == total_size(
                hex_sizes(lines_of(text@)),
            ),
            None => found is None,
        },
{
    match source {
        Some(text) => match try_parse_hex_file(text.as_str()) {
            Some(data) => Some(Some(data)),
            None => None,
        },
        None => Some(None),
    }
}

/// Reads every file that exists, in the order `hex0`, `hex1`, `hex2`, `lsq`,
/// and returns the debug data of the last one, or nothing where none
/// exists. Fails at the first file that cannot be read, and names it.
pub fn try_find_debug_data(sources: &DebugSources) -> (found: Result<Option<Parsed>, SourceKind>)
    ensures
        match first_bad_source(*sources) {
            Some(kind) => found == Err::<Option<Parsed>, SourceKind>(kind),
            None => found matches Ok(parsed) && match chosen_entries(*sources) {
                Some(entries) => parsed matches Some(data) && data.data@ == entries
                    && data.data.wf() && data.data.starts_at_zero() && data.size == chosen_size(
                    *sources,
                ),
                None => parsed is None,
            },
        },
{
    let mut chosen: Option<Parsed> = None;
    match read_hex_source(&sources.hex0) {
        Some(Some(data)) => {
            chosen = Some(data);
        },
        Some(None) => {},
        None => {
            return Err(SourceKind::Hex0);
        },
    }
    match read_hex_source(&sources.hex1) {
        Some(Some(data)) => {
            chosen = Some(data);
        },
        Some(None) => {},
        None => {
            return Err(SourceKind::Hex1);
        },
    }
    match read_hex_source(&sources.hex2) {
        Some(Some(data)) => {
            chosen = Some(data);
        },
        Some(None) => {},
        None => {
            return Err(SourceKind::Hex2);
        },
    }
    match &sources.lsq {
        Some(text) => match try_parse_lsq_file(text.as_str()) {
            Some(data) => {
                chosen = Some(data);
            },
            None => {
                return Err(SourceKind::Lsq);
            },
        },
        None => {},
    }
    Ok(chosen)
}

/// Returns the debug data of the last file, in the order `hex0`, `hex1`,
/// `hex2`, `lsq`, that exists, or nothing where none exists.
pub fn find_debug_data(sources: &DebugSources) -> (data: Option<DebugData>)
    requires
        first_bad_source(*sources) is None,
    ensures
        match chosen_entries(*sources) {
            Some(entries) => data matches Some(found) && found@ == entries && found.wf()
                && found.starts_at_zero(),
            None => data is None,
        },
        data is None <==> sources.hex0 is None && sources.hex1 is None && sources.hex2 is None
            && sources.lsq is None,
{
    match try_find_debug_data(sources) {
        Ok(Some(parsed)) => Some(parsed.data),
        Ok(None) => None,
        Err(_) => None,
    }
}

/// How many bytes of the memory a dump shows.
pub const DUMP_BYTES: usize = 0x1000;

/// How many bytes one row of a dump shows.
pub const DUMP_ROW_BYTES: usize = 16;

/// The first `count` groups of a row of the dump: each a space and two
/// bytes, each byte as two hexadecimal digits.
pub open spec fn dump_groups(mem: Seq<u8>, base: int, count: nat) -> Seq<char>
    decreases count,
{
    if count == 0 {
        Seq::empty()
    } else {
        dump_groups(mem, base, (count - 1) as nat) + " "@ + hex_padded(
            mem[base + 2 * (count - 1)] as nat,
            2,
            false,
        ) + hex_padded(mem[base + 2 * (count - 1) + 1] as nat, 2, false)
    }
}

/// One row of the dump: the offset of the row as eight hexadecimal digits,
/// a colon, eight groups of two bytes, and the end of the line.
pub open spec fn dump_row(mem: Seq<u8>, row: int) -> Seq<char> {
    hex_padded((DUMP_ROW_BYTES * row) as nat, 8, false) + ":"@ + dump_groups(
        mem,
        DUMP_ROW_BYTES * row,
        8,
    ) + "\r\n"@
}

/// The first `rows` rows of the dump.
pub open spec fn dump_rows(mem: Seq<u8>, rows: nat) -> Seq<char>
    decreases rows,
{
    if rows == 0 {
        Seq::empty()
    } else {
        dump_rows(mem, (rows - 1) as nat) + dump_row(mem, rows - 1)
    }
}

/// Renders the first `DUMP_BYTES` bytes of the memory as text, sixteen
/// bytes to a row.
pub fn memory_dump(mem: &[u8]) -> (text: String)
    requires
        mem@.len() >= DUMP_BYTES,
    ensures
        text@ == dump_rows(mem@, (DUMP_BYTES / DUMP_ROW_BYTES) as nat),
{
    let mut text = String::new();
    let mut row: usize = 0;
    assert(text@ =~= dump_rows(mem@, 0));
    while row < DUMP_BYTES / DUMP_ROW_BYTES
        invariant
            row <= DUMP_BYTES / DUMP_ROW_BYTES,
            mem@.len() >= DUMP_BYTES,
            text@ == dump_rows(mem@, row as nat),
        decreases DUMP_BYTES / DUMP_ROW_BYTES - row,
    {
        let ghost before = text@;
        let base: usize = DUMP_ROW_BYTES * row;
        push_hex_padded(&mut text, base as u64, 8, false);
        push_text(&mut text, ":");
        let ghost head = text@;
        let mut group: usize = 0;
        assert(text@ =~= head + dump_groups(mem@, base as int, 0));
        while group < 8
            invariant
                group <= 8,
                base + 16 <= DUMP_BYTES <= mem@.len(),
                text@ == head + dump_groups(mem@, base as int, group as nat),
            decreases 8 - group,
        {
            push_text(&mut text, " ");
            push_hex_padded(&mut text, mem[base + 2 * group] as u64, 2, false);
            push_hex_padded(&mut text, mem[base + 2 * group + 1] as u64, 2, false);
            group += 1;
            assert(text@ =~= head + dump_groups(mem@, base as int, group as nat));
        }
        push_text(&mut text, "\r\n");
        row += 1;
        assert(text@ =~= before + dump_row(mem@, row - 1));
    }
    text
}

/// What is shown where no debug data was found.
pub open spec fn missing_text() -> Seq<char> {
    "Error: Missing hex0, hex1, hex2, or lsq file for debugging"@
}

/// What is shown where the instruction pointer lies behind the last line of
/// the debug data.
pub open spec fn beyond_text() -> Seq<char> {
    "Error: Current EIP is beyond end of debug file (Run-time generated code?)"@
}

/// Whether `index` names the last entry whose offset is at most `eip`.
pub open spec fn is_hit(entries: Seq<(u64, Seq<char>)>, eip: u64, index: int) -> bool {
    &&& 0 <= index < entries.len()
    &&& entries[index].0 <= eip
    &&& forall|j: int| index < j < entries.len() ==> (#[trigger] entries[j]).0 > eip
}

/// A line as it is shown: behind an arrow if it is the line of the
/// instruction pointer, behind four spaces otherwise.
pub open spec fn marked_line(entries: Seq<(u64, Seq<char>)>, index: int, hit: int) -> Seq<char> {
    if index == hit {
        "->  "@ + entries[index].1
    } else {
        "    "@ + entries[index].1
    }
}

/// The index of the first line that is shown.
pub open spec fn window_first(hit: int, window: int) -> int {
    if window > hit {
        0
    } else {
        hit - window
    }
}

/// The index behind the last line that is shown.
pub open spec fn window_end(len: int, hit: int, window: int) -> int {
    if hit + window + 1 > len {
        len
    } else {
        hit + window + 1
    }
}

/// The lines that are shown: the line `hit` and up to `window` lines on
/// either side of it, as far as there are any.
pub open spec fn window_lines(entries: Seq<(u64, Seq<char>)>, hit: int, window: int) -> Seq<
    Seq<char>,
> {
    Seq::new(
        (window_end(entries.len() as int, hit, window) - window_first(hit, window)) as nat,
        |k: int| marked_line(entries, window_first(hit, window) + k, hit),
    )
}

/// The separator between two lines: a line feed in batch mode, a carriage
/// return and a line feed otherwise.
pub open spec fn line_separator(batch: bool) -> Seq<char> {
    if batch {
        "\n"@
    } else {
        "\r\n"@
    }
}

/// Finds the last entry whose offset is at most `eip`, by bisection.
pub fn find_line(data: &DebugData, eip: u64) -> (index: usize)
    requires
        data.wf(),
        data@.len() > 0,
        data@[0].0 <= eip,
    ensures
        is_hit(data@, eip, index as int),
{
    let mut low: usize = 1;
    let mut high: usize = data.offsets.len();
    assert(data@[0].0 == data.offsets@[0].0);
    while low < high
        invariant
            1 <= low <= high <= data@.len(),
            data@.len() == data.offsets@.len(),
            data.wf(),
            forall|j: int| 0 <= j < low ==> (#[trigger] data@[j]).0 <= eip,
            forall|j: int| high <= j < data@.len() ==> (#[trigger] data@[j]).0 > eip,
        decreases high - low,
    {
        let middle: usize = low + (high - low) / 2;
        assert(data@[middle as int].0 == data.offsets@[middle as int].0);
        if data.offsets[middle].0 <= eip {
            low = middle + 1;
        } else {
            high = middle;
        }
    }
    low - 1
}

/// The index of the last entry whose offset is at most `eip`.
pub open spec fn hit_line(entries: Seq<(u64, Seq<char>)>, eip: u64) -> int {
    choose|index: int| is_hit(entries, eip, index)
}

/// There is at most one last entry whose offset is at most `eip`.
pub proof fn lemma_hit_is_unique(entries: Seq<(u64, Seq<char>)>, eip: u64, index: int)
    requires
        is_hit(entries, eip, index),
    ensures
        hit_line(entries, eip) == index,
{
    let other = hit_line(entries, eip);
    if other < index {
        assert(entries[index].0 > eip);
    } else if index < other {
        assert(entries[other].0 > eip);
    }
}

/// The index that is shown for an instruction pointer: that of the last
/// entry whose offset is at most `eip`; -1 where there is no debug data or
/// `eip` is larger than the last offset.
pub open spec fn rendered_line(debug_data: Option<DebugData>, eip: u64) -> int {
    match debug_data {
        None => -1,
        Some(data) => if eip > data@.last().0 {
            -1
        } else {
            hit_line(data@, eip)
        },
    }
}

/// The text that is shown for an instruction pointer: the line of the last
/// entry whose offset is at most `eip`, marked with an arrow, with up to
/// `lines` lines before and behind it; a message where there is no debug
/// data or `eip` is larger than the last offset.
pub open spec fn rendered_text(
    debug_data: Option<DebugData>,
    eip: u64,
    lines: usize,
    batch: bool,
) -> Seq<char> {
    match debug_data {
        None => missing_text(),
        Some(data) => if eip > data@.last().0 {
            beyond_text()
        } else {
            joined(window_lines(data@, hit_line(data@, eip), lines as int), line_separator(batch))
        },
    }
}

/// Whether the debug data, if there is any, can be rendered for `eip`: its
/// offsets never decrease, it holds at least one line, and its first line
/// does not begin behind `eip`.
pub open spec fn renderable(debug_data: Option<DebugData>, eip: u64) -> bool {
    debug_data matches Some(data) ==> data.wf() && 0 < data@.len() <= isize::MAX && data@[0].0
        <= eip
}

/// Renders the source lines around the instruction pointer: the line of
/// the last entry whose offset is at most `eip`, marked with an arrow, and
/// up to `lines` lines before and behind it. Returns the index of that line
/// and the text. Where there is no debug data, or `eip` is larger than the
/// last offset, the index is -1 and the text says which of the two holds.
pub fn render_debug(debug_data: &Option<DebugData>, eip: u64, lines: usize, batch: bool) -> (shown:
    (isize, String))
    requires
        renderable(*debug_data, eip),
    ensures
        shown.0 == rendered_line(*debug_data, eip),
        shown.1@ == rendered_text(*debug_data, eip, lines, batch),
{
    let data = match debug_data {
        Some(data) => data,
        None => {
            let mut text = String::new();
            push_text(&mut text, "Error: Missing hex0, hex1, hex2, or lsq file for debugging");
            assert(text@ =~= missing_text());
            return (-1, text);
        },
    };
    let len: usize = data.offsets.len();
    assert(data@.last().0 == data.offsets@[len - 1].0);
    if data.offsets[len - 1].0 < eip {
        let mut text = String::new();
        push_text(
            &mut text,
            "Error: Current EIP is beyond end of debug file (Run-time generated code?)",
        );
        assert(text@ =~= beyond_text());
        return (-1, text);
    }
    let hit = find_line(data, eip);
    proof {
        lemma_hit_is_unique(data@, eip, hit as int);
    }
    let first: usize = if lines > hit {
        0
    } else {
        hit - lines
    };
    let end: usize = if lines >= len - hit - 1 {
        len
    } else {
        hit + lines + 1
    };
    let ghost shown_lines = window_lines(data@, hit as int, lines as int);
    let ghost separator = line_separator(batch);
    let mut text = String::new();
    let mut i: usize = first;
    assert(shown_lines.take(0) =~= Seq::<Seq<char>>::empty());
    assert(text@ =~= joined(shown_lines.take(0), separator));
    while i < end
        invariant
            first <= i <= end <= len,
            first <= hit < end,
            len == data.offsets@.len(),
            len == data@.len(),
            first == window_first(hit as int, lines as int),
            end == window_end(len as int, hit as int, lines as int),
            shown_lines == window_lines(data@, hit as int, lines as int),
            separator == line_separator(batch),
            text@ == joined(shown_lines.take(i - first), separator),
        decreases end - i,
    {
        let ghost before = text@;
        if i > first {
            if batch {
                push_text(&mut text, "\n");
            } else {
                push_text(&mut text, "\r\n");
            }
        }
        if i == hit {
            push_text(&mut text, "->  ");
        } else {
            push_text(&mut text, "    ");
        }
        push_text(&mut text, data.offsets[i].1.as_str());
        proof {
            let more = shown_lines.take(i - first + 1);
            assert(more.drop_last() =~= shown_lines.take(i - first));
            assert(more.last() == marked_line(data@, i as int, hit as int));
            assert(data@[i as int].1 == data.offsets@[i as int].1@);
            if i > first {
                assert(text@ =~= before + separator + more.last());
            } else {
                assert(text@ =~= more.last());
                assert(more.len() == 1);
            }
        }
        i += 1;
    }
    assert(shown_lines.take(i - first) =~= shown_lines);
    (hit as isize, text)
}

} // verus!
