//! The report of a profile: the hits of the histogram set against the
//! source lines of the debug data.

use crate::pdb::{entries_view, is_hit, ordered, DebugData};
use crate::profile::keys_ordered;
use vstd::prelude::*;

verus! {

/// The line that an instruction pointer falls in, looked for from line
/// `from` on: the search moves on as long as the next line begins at or
/// before `eip`.
pub open spec fn line_from(entries: Seq<(u64, Seq<char>)>, eip: u64, from: int) -> int
    decreases entries.len() - from,
{
    if 0 <= from && from + 1 < entries.len() && entries[from + 1].0 <= eip {
        line_from(entries, eip, from + 1)
    } else {
        from
    }
}

/// The line that an instruction pointer falls in.
pub open spec fn line_of(entries: Seq<(u64, Seq<char>)>, eip: u64) -> int {
    line_from(entries, eip, 0)
}

/// The hits of a line: the sum of the counts of the records that fall in it.
pub open spec fn hits_in_line(
    records: Seq<(u64, u64)>,
    entries: Seq<(u64, Seq<char>)>,
    line: int,
) -> nat
    decreases records.len(),
{
    if records.len() == 0 {
        0
    } else {
        hits_in_line(records.drop_last(), entries, line) + if line_of(entries, records.last().0)
            == line {
            records.last().1 as nat
        } else {
            0nat
        }
    }
}

/// The sum of all counts.
pub open spec fn total_hits(records: Seq<(u64, u64)>) -> nat
    decreases records.len(),
{
    if records.len() == 0 {
        0
    } else {
        total_hits(records.drop_last()) + records.last().1 as nat
    }
}

/// How many lines the report holds: those before the line of the last
/// record.
pub open spec fn reported_lines(records: Seq<(u64, u64)>, entries: Seq<(u64, Seq<char>)>) -> int {
    if records.len() == 0 || entries.len() == 0 {
        0
    } else {
        line_of(entries, records.last().0)
    }
}

/// The report: for each line before the line of the last record, its hits
/// and its text.
pub open spec fn report_of(records: Seq<(u64, u64)>, entries: Seq<(u64, Seq<char>)>) -> Seq<
    (u64, Seq<char>),
> {
    Seq::new(
        reported_lines(records, entries) as nat,
        |k: int| (hits_in_line(records, entries, k) as u64, entries[k].1),
    )
}

/// The hits of the source lines, and the sum of all hits.
#[derive(Debug)]
pub struct Report {
    /// For each reported line its hits and its text.
    pub lines: Vec<(u64, String)>,
    /// The sum of all counts of the histogram.
    pub total: u64,
}

/// The search for a line ends at or behind the line where it began, and
/// inside the debug data.
pub proof fn lemma_line_from_bounds(entries: Seq<(u64, Seq<char>)>, eip: u64, from: int)
    requires
        0 <= from,
    ensures
        from <= line_from(entries, eip, from),
        from < entries.len() ==> line_from(entries, eip, from) < entries.len(),
    decreases entries.len() - from,
{
    if from + 1 < entries.len() && entries[from + 1].0 <= eip {
        lemma_line_from_bounds(entries, eip, from + 1);
    }
}

/// The search for the line of a larger instruction pointer can begin at the
/// line of a smaller one.
pub proof fn lemma_line_from_resumes(
    entries: Seq<(u64, Seq<char>)>,
    eip: u64,
    later: u64,
    from: int,
)
    requires
        0 <= from,
        eip <= later,
    ensures
        line_from(entries, later, line_from(entries, eip, from)) == line_from(
            entries,
            later,
            from,
        ),
    decreases entries.len() - from,
{
    if from + 1 < entries.len() && entries[from + 1].0 <= eip {
        lemma_line_from_resumes(entries, eip, later, from + 1);
    }
}

/// In debug data whose offsets never decrease, the line that an instruction
/// pointer falls in is the last line that begins at or before it.
pub proof fn lemma_line_of_is_last(entries: Seq<(u64, Seq<char>)>, eip: u64, from: int)
    requires
        ordered(entries),
        0 <= from < entries.len(),
        entries[from].0 <= eip,
    ensures
        is_hit(entries, eip, line_from(entries, eip, from)),
        from == 0 ==> is_hit(entries, eip, line_of(entries, eip)),
    decreases entries.len() - from,
{
    if from + 1 < entries.len() && entries[from + 1].0 <= eip {
        lemma_line_of_is_last(entries, eip, from + 1);
    } else {
        assert forall|j: int| from < j < entries.len() implies (#[trigger] entries[j]).0
            > eip by {
            assert(entries[from + 1].0 <= entries[j].0);
        }
    }
}

/// The hits of a line are at most the sum of all hits, and the sum of the
/// first records is at most the sum of all.
pub proof fn lemma_hits_bounds(
    records: Seq<(u64, u64)>,
    entries: Seq<(u64, Seq<char>)>,
    line: int,
    k: int,
)
    requires
        0 <= k <= records.len(),
    ensures
        hits_in_line(records, entries, line) <= total_hits(records),
        total_hits(records.take(k)) <= total_hits(records),
    decreases records.len(),
{
    if records.len() > 0 {
        lemma_hits_bounds(records.drop_last(), entries, line, if k == records.len() {
            k - 1
        } else {
            k
        });
        if k == records.len() {
            assert(records.take(k) =~= records);
        } else {
            assert(records.drop_last().take(k) =~= records.take(k));
        }
    } else {
        assert(records.take(k) =~= records);
    }
}

/// A line behind the lines of the first `k` records has no hits among them.
proof fn lemma_hits_of_sorted_zero(
    records: Seq<(u64, u64)>,
    entries: Seq<(u64, Seq<char>)>,
    k: int,
    line: int,
)
    requires
        keys_ordered(records),
        0 <= k <= records.len(),
    ensures
        (k == 0 || line > line_of(entries, records[k - 1].0)) ==> hits_in_line(
            records.take(k),
            entries,
            line,
        ) == 0,
    decreases k,
{
    if k > 0 && line > line_of(entries, records[k - 1].0) {
        let front = records.take(k);
        assert(front.drop_last() =~= records.take(k - 1));
        assert(front.last() == records[k - 1]);
        if k > 1 {
            lemma_line_from_bounds(entries, records[k - 2].0, 0);
            lemma_line_from_resumes(entries, records[k - 2].0, records[k - 1].0, 0);
            lemma_line_from_bounds(entries, records[k - 1].0, line_of(entries, records[k - 2].0));
        }
        lemma_hits_of_sorted_zero(records, entries, k - 1, line);
    }
}

/// Sets the records of a histogram, in ascending order of the instruction
/// pointer, against the source lines: each record counts for the line that
/// its instruction pointer falls in. The report ends before the line of the
/// last record. Returns nothing where the sum of all counts does not fit in
/// 64 bits.
pub fn hits_per_line(records: &Vec<(u64, u64)>, data: &DebugData) -> (report: Option<Report>)
    requires
        keys_ordered(records@),
    ensures
        report is Some <==> total_hits(records@) <= u64::MAX,
        report matches Some(found) ==> found.total == total_hits(records@) && entries_view(
            found.lines@,
        ) == report_of(records@, data@),
{
    let ghost entries = data@;
    let count: usize = data.offsets.len();
    let mut lines: Vec<(u64, String)> = Vec::new();
    let mut line: usize = 0;
    let mut current: u64 = 0;
    let mut total: u64 = 0;
    let mut k: usize = 0;
    assert(records@.take(0) =~= Seq::<(u64, u64)>::empty());
    while k < records.len()
        invariant
            k <= records@.len(),
            keys_ordered(records@),
            entries == data@,
            count == entries.len(),
            count == data.offsets@.len(),
            total == total_hits(records@.take(k as int)),
            count == 0 ==> line == 0 && lines@.len() == 0,
            count > 0 ==> line < count,
            count > 0 && k > 0 ==> line == line_of(entries, records@[k - 1].0),
            k == 0 ==> line == 0,
            current == hits_in_line(records@.take(k as int), entries, line as int),
            lines@.len() == line,
            forall|j: int|
                0 <= j < line ==> (#[trigger] entries_view(lines@)[j]) == (
                    hits_in_line(records@.take(k as int), entries, j) as u64,
                    entries[j].1,
                ),
        decreases records@.len() - k,
    {
        let (eip, hits) = records[k];
        let ghost before = records@.take(k as int);
        let ghost after = records@.take(k + 1);
        proof {
            assert(after.drop_last() =~= before);
            assert(after.last() == records@[k as int]);
            lemma_hits_bounds(records@, entries, 0, k + 1);
        }
        total = match total.checked_add(hits) {
            Some(sum) => sum,
            None => {
                return None;
            },
        };
        if count > 0 {
            let ghost start = line;
            proof {
                if k > 0 {
                    lemma_line_from_resumes(entries, records@[k - 1].0, eip, 0);
                }
                lemma_hits_of_sorted_zero(records@, entries, k as int, 0);
            }
            while line + 1 != count && data.offsets[line + 1].0 <= eip
                invariant
                    start <= line < count,
                    entries == data@,
                    count == entries.len(),
                    count == data.offsets@.len(),
                    keys_ordered(records@),
                    k < records@.len(),
                    before == records@.take(k as int),
                    eip == records@[k as int].0,
                    line_from(entries, eip, line as int) == line_of(entries, eip),
                    current == hits_in_line(before, entries, line as int),
                    k > 0 ==> start == line_of(entries, records@[k - 1].0),
                    k == 0 ==> start == 0,
                    lines@.len() == line,
                    forall|j: int|
                        0 <= j < line ==> (#[trigger] entries_view(lines@)[j]) == (
                            hits_in_line(before, entries, j) as u64,
                            entries[j].1,
                        ),
                decreases count - line,
            {
                assert(entries[line + 1].0 == data.offsets@[line + 1].0);
                assert(entries[line as int].1 == data.offsets@[line as int].1@);
                let ghost shown = entries_view(lines@);
                lines.push((current, data.offsets[line].1.clone()));
                proof {
                    assert(entries_view(lines@) =~= shown.push((current, entries[line as int].1)));
                    lemma_hits_of_sorted_zero(records@, entries, k as int, line + 1);
                }
                current = 0;
                line += 1;
            }
            proof {
                assert(line == line_of(entries, eip)) by {
                    if line + 1 < count {
                        assert(entries[line + 1].0 == data.offsets@[line + 1].0);
                    }
                }
                lemma_hits_bounds(after, entries, line as int, 0);
                assert forall|j: int| 0 <= j < line implies (#[trigger] entries_view(
                    lines@,
                )[j]) == (hits_in_line(after, entries, j) as u64, entries[j].1) by {}
            }
            current = current + hits;
        } else {
            proof {
                lemma_hits_bounds(after, entries, 0, 0);
            }
            current = current + hits;
        }
        k += 1;
    }
    proof {
        assert(records@.take(k as int) =~= records@);
        assert(entries_view(lines@) =~= report_of(records@, entries));
    }
    Some(Report { lines, total })
}

/// How a line of the report is coloured.
#[derive(Debug, Clone, Copy, PartialEq, Eq, Structural)]
pub enum Band {
    /// At least one hundredth of all hits.
    Red,
    /// At least one thousandth of all hits.
    Green,
    /// Fewer, or no hits at all.
    Plain,
}

/// The colour of a line with `hits` of `total` hits.
pub open spec fn band_of(hits: u64, total: u64) -> Band {
    if total > 0 && hits * 100 >= total {
        Band::Red
    } else if total > 0 && hits * 1000 >= total {
        Band::Green
    } else {
        Band::Plain
    }
}

/// Tells the colour of a line with `hits` of `total` hits.
pub fn band(hits: u64, total: u64) -> (colour: Band)
    ensures
        colour == band_of(hits, total),
{
    let hits: u128 = hits as u128;
    let total: u128 = total as u128;
    if total > 0 && hits * 100 >= total {
        Band::Red
    } else if total > 0 && hits * 1000 >= total {
        Band::Green
    } else {
        Band::Plain
    }
}

} // verus!
