//! Gap regions: the maximal runs of the gap symbol in one sequence.

use vstd::prelude::*;
use vstd::string::StringExecFns;
use crate::letters::{letters_of, GAP_SYMBOL};
use crate::numerals::{decimal, decimal_string};
use crate::runs::{closed_runs, lemma_closed_runs, lemma_run_start, run_start, runs};

verus! {

/// One gap region of a sequence.
#[derive(Debug)]
pub struct GapInfo {
    sequence_id: String,
    start: usize,
    end: usize,
    length: usize,
    gap_id: String,
}

/// What a [`GapInfo`] stands for: the owning sequence, the half-open
/// interval of positions `[start, end)`, its length, and its display label.
pub ghost struct GapRegion {
    pub sequence_id: Seq<char>,
    pub start: nat,
    pub end: nat,
    pub length: nat,
    pub gap_id: Seq<char>,
}

impl View for GapInfo {
    type V = GapRegion;

    closed spec fn view(&self) -> GapRegion {
        GapRegion {
            sequence_id: self.sequence_id@,
            start: self.start as nat,
            end: self.end as nat,
            length: self.length as nat,
            gap_id: self.gap_id@,
        }
    }
}

/// The display label of the gap with the given 1-based index in the sequence
/// named `sequence_id`: the identifier, then `-gap-`, then the index.
pub open spec fn gap_label_of(sequence_id: Seq<char>, index: nat) -> Seq<char> {
    sequence_id + seq!['-', 'g', 'a', 'p', '-'] + decimal(index)
}

/// The region that the `index`-th run `[run.0, run.1)` of the sequence named
/// `sequence_id` is reported as.
pub open spec fn gap_region(sequence_id: Seq<char>, run: (int, int), index: nat) -> GapRegion {
    GapRegion {
        sequence_id,
        start: run.0 as nat,
        end: run.1 as nat,
        length: (run.1 - run.0) as nat,
        gap_id: gap_label_of(sequence_id, index),
    }
}

/// The regions that [`find_gaps`] reports for `letters`: one per maximal
/// gap run, in order of position, numbered from 1.
pub open spec fn gap_regions(sequence_id: Seq<char>, letters: Seq<char>) -> Seq<GapRegion> {
    Seq::new(
        runs(letters, true).len(),
        |k: int| gap_region(sequence_id, runs(letters, true)[k], (k + 1) as nat),
    )
}

/// The views of a list of gaps, in order.
pub open spec fn regions_of(gaps: Seq<GapInfo>) -> Seq<GapRegion> {
    Seq::new(gaps.len(), |k: int| gaps[k]@)
}

/// Builds the label of the gap with the given 1-based index.
fn gap_label(sequence_id: &str, index: usize) -> (label: String)
    ensures
        label@ == gap_label_of(sequence_id@, index as nat),
{
    let mut label = sequence_id.to_owned();
    let number = decimal_string(index);
    proof {
        reveal_strlit("-gap-");
        assert("-gap-"@ =~= seq!['-', 'g', 'a', 'p', '-']);
    }
    label.append("-gap-");
    label.append(number.as_str());
    label
}

impl GapInfo {
    fn new(sequence_id: &str, start: usize, end: usize, index: usize) -> (gap: GapInfo)
        requires
            start <= end,
        ensures
            gap@ == gap_region(sequence_id@, (start as int, end as int), index as nat),
    {
        GapInfo {
            sequence_id: sequence_id.to_owned(),
            start,
            end,
            length: end - start,
            gap_id: gap_label(sequence_id, index),
        }
    }

    /// The identifier of the sequence that holds the gap.
    pub fn sequence_id(&self) -> (id: &str)
        ensures
            id@ == self@.sequence_id,
    {
        self.sequence_id.as_str()
    }

    /// The position of the first letter of the gap, counted from 0.
    pub fn start(&self) -> (start: usize)
        ensures
            start == self@.start,
    {
        self.start
    }

    /// The position just behind the last letter of the gap.
    pub fn end(&self) -> (end: usize)
        ensures
            end == self@.end,
    {
        self.end
    }

    /// The number of letters in the gap.
    pub fn length(&self) -> (length: usize)
        ensures
            length == self@.length,
    {
        self.length
    }

    /// The display label: sequence identifier, `-gap-`, 1-based index.
    pub fn gap_id(&self) -> (label: &str)
        ensures
            label@ == self@.gap_id,
    {
        self.gap_id.as_str()
    }
}

/// Finds the gap regions of one sequence: its maximal runs of the gap
/// symbol, in order of position and numbered from 1. A sequence without a
/// gap symbol, the empty one included, has none.
pub fn find_gaps(sequence_id: &str, sequence: &str) -> (gaps: Vec<GapInfo>)
    ensures
        regions_of(gaps@) == gap_regions(sequence_id@, sequence@),
        gaps@.len() == runs(sequence@, true).len(),
        forall|k: int|
            0 <= k < gaps@.len() ==> (#[trigger] gaps@[k])@ == gap_region(
                sequence_id@,
                runs(sequence@, true)[k],
                (k + 1) as nat,
            ),
{
    let letters = letters_of(sequence);
    let n = letters.len();
    let mut gaps: Vec<GapInfo> = Vec::new();
    let mut gap_start: Option<usize> = None;
    let mut i: usize = 0;
    while i < n
        invariant
            i <= n,
            n == letters@.len(),
            letters@ == sequence@,
            gap_start == if run_start(letters@, i as int, true) < i {
                Some(run_start(letters@, i as int, true) as usize)
            } else {
                None::<usize>
            },
            gaps@.len() == closed_runs(letters@, i as int, true).len(),
            forall|k: int|
                0 <= k < gaps@.len() ==> (#[trigger] gaps@[k])@ == gap_region(
                    sequence_id@,
                    closed_runs(letters@, i as int, true)[k],
                    (k + 1) as nat,
                ),
        decreases n - i,
    {
        proof {
            lemma_run_start(letters@, i as int, true);
            lemma_closed_runs(letters@, i as int, true);
        }
        if letters[i] == GAP_SYMBOL {
            if gap_start.is_none() {
                gap_start = Some(i);
            }
        } else if let Some(start) = gap_start {
            let index: usize = gaps.len() + 1;
            gaps.push(GapInfo::new(sequence_id, start, i, index));
            gap_start = None;
        }
        i += 1;
    }
    proof {
        lemma_run_start(letters@, n as int, true);
        lemma_closed_runs(letters@, n as int, true);
    }
    if let Some(start) = gap_start {
        let index: usize = gaps.len() + 1;
        gaps.push(GapInfo::new(sequence_id, start, n, index));
    }
    assert(regions_of(gaps@) =~= gap_regions(sequence_id@, sequence@));
    gaps
}

/// A sequence whose last letter is the gap symbol has a last region that
/// reaches the end of the sequence.
pub proof fn lemma_trailing_gap_is_reported(sequence_id: Seq<char>, letters: Seq<char>)
    requires
        letters.len() > 0,
        letters.last() == GAP_SYMBOL,
    ensures
        gap_regions(sequence_id, letters).len() > 0,
        gap_regions(sequence_id, letters).last().end == letters.len(),
{
    crate::runs::lemma_trailing_run_reaches_end(letters, true);
}

/// A sequence without a gap symbol has no region.
pub proof fn lemma_no_gap_symbol_no_region(sequence_id: Seq<char>, letters: Seq<char>)
    requires
        forall|j: int| 0 <= j < letters.len() ==> #[trigger] letters[j] != GAP_SYMBOL,
    ensures
        gap_regions(sequence_id, letters) == Seq::<GapRegion>::empty(),
{
    crate::runs::lemma_no_letter_no_run(letters, true);
    assert(gap_regions(sequence_id, letters) =~= Seq::<GapRegion>::empty());
}

/// A non-empty sequence of gap symbols only has exactly one region, which
/// spans the whole sequence.
pub proof fn lemma_all_gap_one_region(sequence_id: Seq<char>, letters: Seq<char>)
    requires
        letters.len() > 0,
        forall|j: int| 0 <= j < letters.len() ==> #[trigger] letters[j] == GAP_SYMBOL,
    ensures
        gap_regions(sequence_id, letters) == seq![
            gap_region(sequence_id, (0int, letters.len() as int), 1),
        ],
{
    crate::runs::lemma_all_letters_one_run(letters, true);
    assert(gap_regions(sequence_id, letters) =~= seq![
        gap_region(sequence_id, (0int, letters.len() as int), 1),
    ]);
}

/// Every reported region is a maximal run of the gap symbol: it is not
/// empty, holds only gap symbols, and is bounded on each side by the end of
/// the sequence or by another letter. Regions come in order of position, and
/// every gap symbol lies in one of them.
pub proof fn lemma_gap_regions_are_maximal(sequence_id: Seq<char>, letters: Seq<char>)
    ensures
        forall|k: int|
            0 <= k < gap_regions(sequence_id, letters).len() ==> {
                let r = #[trigger] gap_regions(sequence_id, letters)[k];
                &&& r.start < r.end <= letters.len()
                &&& r.length == r.end - r.start
                &&& r.length > 0
                &&& forall|j: int| r.start <= j < r.end ==> #[trigger] letters[j] == GAP_SYMBOL
                &&& (r.start == 0 || letters[r.start - 1] != GAP_SYMBOL)
                &&& (r.end == letters.len() || letters[r.end as int] != GAP_SYMBOL)
            },
        forall|k: int, m: int|
            0 <= k < m < gap_regions(sequence_id, letters).len() ==> (#[trigger] gap_regions(
                sequence_id,
                letters,
            )[k]).end < (#[trigger] gap_regions(sequence_id, letters)[m]).start,
        forall|j: int|
            0 <= j < letters.len() && #[trigger] letters[j] == GAP_SYMBOL ==> exists|k: int|
                0 <= k < gap_regions(sequence_id, letters).len() && (#[trigger] gap_regions(
                    sequence_id,
                    letters,
                )[k]).start <= j < gap_regions(sequence_id, letters)[k].end,
{
    crate::runs::lemma_runs_are_the_maximal_runs(letters, true);
    let all = runs(letters, true);
    let regions = gap_regions(sequence_id, letters);
    assert forall|k: int| 0 <= k < regions.len() implies {
        let r = #[trigger] regions[k];
        &&& r.start < r.end <= letters.len()
        &&& r.length == r.end - r.start
        &&& r.length > 0
        &&& forall|j: int| r.start <= j < r.end ==> #[trigger] letters[j] == GAP_SYMBOL
        &&& (r.start == 0 || letters[r.start - 1] != GAP_SYMBOL)
        &&& (r.end == letters.len() || letters[r.end as int] != GAP_SYMBOL)
    } by {
        assert(crate::runs::is_maximal_run(letters, all[k].0, all[k].1, true));
    }
    assert forall|j: int|
        0 <= j < letters.len() && #[trigger] letters[j] == GAP_SYMBOL implies exists|k: int|
        0 <= k < regions.len() && (#[trigger] regions[k]).start <= j < regions[k].end by {
        assert(crate::runs::in_kind(letters[j], true));
        let k = choose|k: int| 0 <= k < all.len() && (#[trigger] all[k]).0 <= j < all[k].1;
        assert(crate::runs::is_maximal_run(letters, all[k].0, all[k].1, true));
        assert(regions[k].start <= j < regions[k].end);
    }
}

} // verus!
