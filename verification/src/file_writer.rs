//! The text of the report tables. Writing the text to a file is left to the
//! caller.

use vstd::prelude::*;
use vstd::string::StringExecFns;
use crate::gap_statistics::{regions_of, GapInfo, GapRegion};
use crate::n50_statistics::NStatistics;
use crate::numerals::{decimal, decimal_string, grouped, grouped_string};

verus! {

/// One row of the N-statistics table: the label and the five statistics
/// with thousands separators, tab-separated, ending in a newline.
pub open spec fn n50_row(label: Seq<char>, stats: NStatistics) -> Seq<char> {
    label + "\t"@ + grouped(stats.n50 as nat) + "\t"@ + grouped(stats.n60 as nat) + "\t"@
        + grouped(stats.n70 as nat) + "\t"@ + grouped(stats.n80 as nat) + "\t"@ + grouped(
        stats.n90 as nat,
    ) + "\n"@
}

/// The N-statistics table: a header, the contig row, the scaffold row.
pub open spec fn n50_table(contig: NStatistics, scaffold: NStatistics) -> Seq<char> {
    "Type\tN50\tN60\tN70\tN80\tN90\n"@ + n50_row("Contig"@, contig) + n50_row(
        "Scaffold"@,
        scaffold,
    )
}

/// One row of the gap table: identifier, start, end, length and label,
/// tab-separated, ending in a newline. Positions are plain decimal numbers.
pub open spec fn gap_row(gap: GapRegion) -> Seq<char> {
    gap.sequence_id + "\t"@ + decimal(gap.start) + "\t"@ + decimal(gap.end) + "\t"@ + decimal(
        gap.length,
    ) + "\t"@ + gap.gap_id + "\n"@
}

/// The rows of the given gaps, in order.
pub open spec fn gap_rows(gaps: Seq<GapRegion>) -> Seq<char>
    decreases gaps.len(),
{
    if gaps.len() == 0 {
        Seq::empty()
    } else {
        gap_rows(gaps.drop_last()) + gap_row(gaps.last())
    }
}

/// The gap table: a header, then one row for each gap.
pub open spec fn gap_table(gaps: Seq<GapRegion>) -> Seq<char> {
    "SequenceID\tStart\tEnd\tLength\tGapID\n"@ + gap_rows(gaps)
}

fn render_n50_row(label: &str, stats: &NStatistics) -> (row: String)
    ensures
        row@ == n50_row(label@, *stats),
{
    let mut row = label.to_owned();
    row.append("\t");
    row.append(grouped_string(stats.n50 as u128).as_str());
    row.append("\t");
    row.append(grouped_string(stats.n60 as u128).as_str());
    row.append("\t");
    row.append(grouped_string(stats.n70 as u128).as_str());
    row.append("\t");
    row.append(grouped_string(stats.n80 as u128).as_str());
    row.append("\t");
    row.append(grouped_string(stats.n90 as u128).as_str());
    row.append("\n");
    row
}

/// Renders the N-statistics table of the contigs and the scaffolds.
pub fn render_n50_statistics(contig_n_stats: &NStatistics, scaffold_n_stats: &NStatistics) -> (text:
    String)
    ensures
        text@ == n50_table(*contig_n_stats, *scaffold_n_stats),
{
    let mut text = "Type\tN50\tN60\tN70\tN80\tN90\n".to_owned();
    text.append(render_n50_row("Contig", contig_n_stats).as_str());
    text.append(render_n50_row("Scaffold", scaffold_n_stats).as_str());
    text
}

fn render_gap_row(gap: &GapInfo) -> (row: String)
    ensures
        row@ == gap_row(gap@),
{
    let mut row = gap.sequence_id().to_owned();
    row.append("\t");
    row.append(decimal_string(gap.start()).as_str());
    row.append("\t");
    row.append(decimal_string(gap.end()).as_str());
    row.append("\t");
    row.append(decimal_string(gap.length()).as_str());
    row.append("\t");
    row.append(gap.gap_id());
    row.append("\n");
    row
}

/// Renders the gap table of the given gaps, in their order.
pub fn render_gap_statistics(gaps: &[GapInfo]) -> (text: String)
    ensures
        text@ == gap_table(regions_of(gaps@)),
{
    let mut text = "SequenceID\tStart\tEnd\tLength\tGapID\n".to_owned();
    let mut i: usize = 0;
    while i < gaps.len()
        invariant
            i <= gaps@.len(),
            text@ == gap_table(regions_of(gaps@).take(i as int)),
        decreases gaps@.len() - i,
    {
        let row = render_gap_row(&gaps[i]);
        proof {
            let before = regions_of(gaps@).take(i as int);
            let now = regions_of(gaps@).take(i + 1);
            assert(now.drop_last() =~= before);
            assert(now.last() == gaps@[i as int]@);
            assert(gap_table(now) =~= gap_table(before) + gap_row(gaps@[i as int]@));
        }
        text.append(row.as_str());
        i += 1;
    }
    assert(regions_of(gaps@).take(gaps@.len() as int) =~= regions_of(gaps@));
    text
}

} // verus!
