//! Base composition of one sequence, and the composition of a whole
//! assembly.
//!
//! GC content is kept exact: a percentage is the ratio of `100 * (G + C)` to
//! the length, and is handed out in hundredths of a percent, rounded down.
//! The content of an assembly is computed from its summed counts, so that
//! each sequence weighs in by its length; it is never a mean of percentages.

use vstd::prelude::*;
use vstd::string::StringExecFns;
use crate::numerals::{grouped, grouped_string};
use crate::letters::{count_of, count_other, lemma_counts_partition_length, letters_of, GAP_SYMBOL};

verus! {

/// The composition of one sequence.
#[derive(Debug, Clone)]
pub struct BaseStatistics {
    pub sequence_id: String,
    pub length: usize,
    pub count_a: usize,
    pub count_c: usize,
    pub count_g: usize,
    pub count_t: usize,
    pub count_n: usize,
}

/// The composition of all sequences together.
#[derive(Debug, Clone, Copy, PartialEq, Eq)]
pub struct OverallStatistics {
    pub total_length: usize,
    pub total_count_a: usize,
    pub total_count_c: usize,
    pub total_count_g: usize,
    pub total_count_t: usize,
    pub total_count_n: usize,
}

/// Counts of the five tallied symbols among `length` letters.
pub ghost struct Tally {
    pub length: nat,
    pub count_a: nat,
    pub count_c: nat,
    pub count_g: nat,
    pub count_t: nat,
    pub count_n: nat,
}

/// What a [`BaseStatistics`] stands for.
pub ghost struct Composition {
    pub sequence_id: Seq<char>,
    pub tally: Tally,
}

impl View for BaseStatistics {
    type V = Composition;

    open spec fn view(&self) -> Composition {
        Composition {
            sequence_id: self.sequence_id@,
            tally: Tally {
                length: self.length as nat,
                count_a: self.count_a as nat,
                count_c: self.count_c as nat,
                count_g: self.count_g as nat,
                count_t: self.count_t as nat,
                count_n: self.count_n as nat,
            },
        }
    }
}

impl View for OverallStatistics {
    type V = Tally;

    open spec fn view(&self) -> Tally {
        Tally {
            length: self.total_length as nat,
            count_a: self.total_count_a as nat,
            count_c: self.total_count_c as nat,
            count_g: self.total_count_g as nat,
            count_t: self.total_count_t as nat,
            count_n: self.total_count_n as nat,
        }
    }
}

impl Tally {
    /// The five counts together do not exceed the length; what is left are
    /// the letters that are none of the five symbols.
    pub open spec fn well_formed(self) -> bool {
        self.count_a + self.count_c + self.count_g + self.count_t + self.count_n <= self.length
    }

    /// The number of letters that are none of the five symbols.
    pub open spec fn other(self) -> int {
        self.length - (self.count_a + self.count_c + self.count_g + self.count_t + self.count_n)
    }

    /// The GC percentage multiplied by the length: `100 * (G + C)`.
    pub open spec fn gc_weight(self) -> nat {
        100 * (self.count_g + self.count_c)
    }

    /// The GC percentage in hundredths of a percent, rounded down; 0 where
    /// there is no letter.
    pub open spec fn gc_hundredths(self) -> nat {
        if self.length == 0 {
            0
        } else {
            (100 * self.gc_weight()) / self.length
        }
    }

    /// Field by field, the sum of two tallies.
    pub open spec fn plus(self, other: Tally) -> Tally {
        Tally {
            length: self.length + other.length,
            count_a: self.count_a + other.count_a,
            count_c: self.count_c + other.count_c,
            count_g: self.count_g + other.count_g,
            count_t: self.count_t + other.count_t,
            count_n: self.count_n + other.count_n,
        }
    }

    /// The tally of nothing.
    pub open spec fn zero() -> Tally {
        Tally { length: 0, count_a: 0, count_c: 0, count_g: 0, count_t: 0, count_n: 0 }
    }
}

/// The counts of a tally as report columns, each with thousands
/// separators and a tab before it: length, A, T, C, G, N, G+C.
pub open spec fn count_columns(t: Tally) -> Seq<char> {
    "\t"@ + grouped(t.length) + "\t"@ + grouped(t.count_a) + "\t"@ + grouped(t.count_t) + "\t"@
        + grouped(t.count_c) + "\t"@ + grouped(t.count_g) + "\t"@ + grouped(t.count_n) + "\t"@
        + grouped(t.count_g + t.count_c)
}

/// The leading columns of a record's report row: the identifier and the
/// counts. A record without letters has a row of eight zeros instead.
pub open spec fn record_columns(c: Composition) -> Seq<char> {
    if c.tally.length == 0 {
        "0\t0\t0\t0\t0\t0\t0\t0"@
    } else {
        c.sequence_id + count_columns(c.tally)
    }
}

/// The leading columns of the report's last row: the word `Total` and the
/// summed counts. An assembly without letters has `Total` and six zeros.
pub open spec fn total_columns(t: Tally) -> Seq<char> {
    if t.length == 0 {
        "Total\t0\t0\t0\t0\t0\t0"@
    } else {
        "Total"@ + count_columns(t)
    }
}

/// How many records hold no gap symbol.
pub open spec fn count_without_n(stats: Seq<BaseStatistics>) -> nat
    decreases stats.len(),
{
    if stats.len() == 0 {
        0
    } else {
        count_without_n(stats.drop_last()) + if stats.last().count_n == 0 {
            1nat
        } else {
            0nat
        }
    }
}

/// Whether `longest` is the greatest length among the records, or 0 where
/// there are none.
pub open spec fn is_longest_length(stats: Seq<BaseStatistics>, longest: usize) -> bool {
    &&& forall|i: int| 0 <= i < stats.len() ==> (#[trigger] stats[i]).length <= longest
    &&& if stats.len() == 0 {
        longest == 0
    } else {
        exists|i: int| 0 <= i < stats.len() && (#[trigger] stats[i]).length == longest
    }
}

/// The tally of the given letters.
pub open spec fn tally_of(letters: Seq<char>) -> Tally {
    Tally {
        length: letters.len(),
        count_a: count_of(letters, 'A'),
        count_c: count_of(letters, 'C'),
        count_g: count_of(letters, 'G'),
        count_t: count_of(letters, 'T'),
        count_n: count_of(letters, GAP_SYMBOL),
    }
}

/// The composition of the sequence `letters` named `sequence_id`.
pub open spec fn composition_of(sequence_id: Seq<char>, letters: Seq<char>) -> Composition {
    Composition { sequence_id, tally: tally_of(letters) }
}

/// What [`BaseStatistics::from_sequence`] owes for a sequence: an error
/// exactly when the identifier or the letters are empty, else the
/// composition.
pub open spec fn is_composition_result(
    r: Result<BaseStatistics, &'static str>,
    sequence_id: Seq<char>,
    letters: Seq<char>,
) -> bool {
    match r {
        Ok(stats) => sequence_id.len() > 0 && letters.len() > 0 && stats@ == composition_of(
            sequence_id,
            letters,
        ),
        Err(e) => (sequence_id.len() == 0 || letters.len() == 0) && e@
            == "Sequence and sequence ID cannot be empty"@,
    }
}

/// The views of the results of two computations.
pub open spec fn result_view(r: Result<BaseStatistics, &'static str>) -> Result<
    Composition,
    Seq<char>,
> {
    match r {
        Ok(stats) => Ok(stats@),
        Err(e) => Err(e@),
    }
}

/// The field-wise sum of the tallies of all records.
pub open spec fn totals_of(stats: Seq<BaseStatistics>) -> Tally
    decreases stats.len(),
{
    if stats.len() == 0 {
        Tally::zero()
    } else {
        totals_of(stats.drop_last()).plus(stats.last()@.tally)
    }
}

/// The sum over all records of GC percentage times length.
pub open spec fn weighted_gc_sum(stats: Seq<BaseStatistics>) -> nat
    decreases stats.len(),
{
    if stats.len() == 0 {
        0
    } else {
        weighted_gc_sum(stats.drop_last()) + stats.last()@.tally.gc_weight()
    }
}

/// The sum of the lengths of all records.
pub open spec fn length_sum(stats: Seq<BaseStatistics>) -> nat
    decreases stats.len(),
{
    if stats.len() == 0 {
        0
    } else {
        length_sum(stats.drop_last()) + stats.last()@.tally.length
    }
}

/// Every record's tally is well-formed.
pub open spec fn all_well_formed(stats: Seq<BaseStatistics>) -> bool {
    forall|i: int| 0 <= i < stats.len() ==> (#[trigger] stats[i])@.tally.well_formed()
}

/// The tally of any letters is well-formed, and what it leaves over is the
/// number of letters that are none of the five symbols: A + T + C + G + N +
/// other equals the length.
pub proof fn lemma_tally_partitions_length(letters: Seq<char>)
    ensures
        tally_of(letters).well_formed(),
        tally_of(letters).other() == count_other(letters),
        tally_of(letters).count_a + tally_of(letters).count_t + tally_of(letters).count_c
            + tally_of(letters).count_g + tally_of(letters).count_n + count_other(letters)
            == tally_of(letters).length,
{
    lemma_counts_partition_length(letters);
}

/// Computing the composition of the same record twice gives the same
/// result: the result is a function of the identifier and the letters.
pub proof fn lemma_composition_is_repeatable(
    first: Result<BaseStatistics, &'static str>,
    second: Result<BaseStatistics, &'static str>,
    sequence_id: Seq<char>,
    letters: Seq<char>,
)
    requires
        is_composition_result(first, sequence_id, letters),
        is_composition_result(second, sequence_id, letters),
    ensures
        result_view(first) == result_view(second),
{
}

/// The total length of an assembly is the sum of its records' lengths.
pub proof fn lemma_total_length_is_length_sum(stats: Seq<BaseStatistics>)
    ensures
        totals_of(stats).length == length_sum(stats),
    decreases stats.len(),
{
    if stats.len() > 0 {
        lemma_total_length_is_length_sum(stats.drop_last());
    }
}

/// The GC content of an assembly is the length-weighted mean of its
/// records' GC contents: GC percentage times length, taken of the totals,
/// is the sum of GC percentage times length over the records, and the
/// total length is the sum of the lengths.
pub proof fn lemma_aggregate_gc_is_length_weighted(stats: Seq<BaseStatistics>)
    ensures
        totals_of(stats).gc_weight() == weighted_gc_sum(stats),
        totals_of(stats).length == length_sum(stats),
    decreases stats.len(),
{
    if stats.len() > 0 {
        lemma_aggregate_gc_is_length_weighted(stats.drop_last());
    }
}

/// Taking one record out lowers the totals by that record's tally.
pub proof fn lemma_totals_without(stats: Seq<BaseStatistics>, j: int)
    requires
        0 <= j < stats.len(),
    ensures
        totals_of(stats) == totals_of(stats.remove(j)).plus(stats[j]@.tally),
    decreases stats.len(),
{
    if j == stats.len() - 1 {
        assert(stats.remove(j) =~= stats.drop_last());
    } else {
        assert(stats.remove(j).drop_last() =~= stats.drop_last().remove(j));
        assert(stats.remove(j).last() == stats.last());
        lemma_totals_without(stats.drop_last(), j);
    }
}

/// The totals do not depend on the order of the records: two collections
/// that hold the same records, each as often, have the same totals.
pub proof fn lemma_totals_order_independent(first: Seq<BaseStatistics>, second: Seq<BaseStatistics>)
    requires
        first.to_multiset() == second.to_multiset(),
    ensures
        totals_of(first) == totals_of(second),
    decreases first.len(),
{
    broadcast use vstd::seq_lib::group_to_multiset_ensures;

    assert(first.len() == first.to_multiset().len());
    assert(second.len() == second.to_multiset().len());
    if first.len() > 0 {
        let x = first.last();
        assert(first.contains(x));
        assert(first.to_multiset().count(x) > 0);
        assert(second.contains(x));
        let j = choose|j: int| 0 <= j < second.len() && second[j] == x;
        assert(first.drop_last() =~= first.remove(first.len() - 1));
        assert(first.drop_last().to_multiset() =~= second.remove(j).to_multiset());
        lemma_totals_order_independent(first.drop_last(), second.remove(j));
        lemma_totals_without(second, j);
    }
}

/// Totals of well-formed tallies are well-formed; so where the total length
/// is 0, every total is.
pub proof fn lemma_totals_well_formed(stats: Seq<BaseStatistics>)
    requires
        all_well_formed(stats),
    ensures
        totals_of(stats).well_formed(),
        totals_of(stats).length == 0 ==> totals_of(stats) == Tally::zero()
            && totals_of(stats).gc_hundredths() == 0,
    decreases stats.len(),
{
    if stats.len() > 0 {
        assert(stats.last()@.tally.well_formed());
        assert(all_well_formed(stats.drop_last())) by {
            assert forall|i: int| 0 <= i < stats.drop_last().len() implies (
            #[trigger] stats.drop_last()[i])@.tally.well_formed() by {
                assert(stats.drop_last()[i] == stats[i]);
            }
        }
        lemma_totals_well_formed(stats.drop_last());
    }
}

/// The totals of the first `i` records do not exceed those of all.
pub proof fn lemma_totals_grow(stats: Seq<BaseStatistics>, i: int)
    requires
        0 <= i <= stats.len(),
    ensures
        totals_of(stats.take(i)).length <= totals_of(stats).length,
    decreases stats.len(),
{
    if i < stats.len() {
        assert(stats.drop_last().take(i) =~= stats.take(i));
        lemma_totals_grow(stats.drop_last(), i);
    } else {
        assert(stats.take(i) =~= stats);
    }
}

/// Counts how often `symbol` occurs among `letters`.
fn count_symbol(letters: &Vec<char>, symbol: char) -> (count: usize)
    ensures
        count == count_of(letters@, symbol),
{
    let mut count: usize = 0;
    let mut i: usize = 0;
    while i < letters.len()
        invariant
            i <= letters@.len(),
            count == count_of(letters@.take(i as int), symbol),
            count <= i,
        decreases letters@.len() - i,
    {
        assert(letters@.take(i + 1).drop_last() =~= letters@.take(i as int));
        if letters[i] == symbol {
            count += 1;
        }
        i += 1;
    }
    assert(letters@.take(letters@.len() as int) =~= letters@);
    count
}

/// Computes hundredths of a percent of `gc` among `length`, rounded down.
fn hundredths(gc: u128, length: usize) -> (h: u128)
    requires
        gc <= 2 * usize::MAX,
    ensures
        h == if length == 0 {
            0
        } else {
            (100 * (100 * gc)) / length as int
        },
{
    if length == 0 {
        0
    } else {
        (100 * (100 * gc)) / (length as u128)
    }
}

/// Appends the count columns to `row`.
fn append_count_columns(
    row: &mut String,
    length: usize,
    count_a: usize,
    count_t: usize,
    count_c: usize,
    count_g: usize,
    count_n: usize,
)
    ensures
        final(row)@ == old(row)@ + count_columns(
            Tally {
                length: length as nat,
                count_a: count_a as nat,
                count_c: count_c as nat,
                count_g: count_g as nat,
                count_t: count_t as nat,
                count_n: count_n as nat,
            },
        ),
{
    let mut columns = "\t".to_owned();
    columns.append(grouped_string(length as u128).as_str());
    columns.append("\t");
    columns.append(grouped_string(count_a as u128).as_str());
    columns.append("\t");
    columns.append(grouped_string(count_t as u128).as_str());
    columns.append("\t");
    columns.append(grouped_string(count_c as u128).as_str());
    columns.append("\t");
    columns.append(grouped_string(count_g as u128).as_str());
    columns.append("\t");
    columns.append(grouped_string(count_n as u128).as_str());
    columns.append("\t");
    columns.append(grouped_string(count_g as u128 + count_c as u128).as_str());
    row.append(columns.as_str());
}

/// Counts the records that hold no gap symbol.
pub fn sequences_without_n(stats: &[BaseStatistics]) -> (count: usize)
    ensures
        count == count_without_n(stats@),
{
    let mut count: usize = 0;
    let mut i: usize = 0;
    while i < stats.len()
        invariant
            i <= stats@.len(),
            count <= i,
            count == count_without_n(stats@.take(i as int)),
        decreases stats@.len() - i,
    {
        assert(stats@.take(i + 1).drop_last() =~= stats@.take(i as int));
        if stats[i].count_n == 0 {
            count += 1;
        }
        i += 1;
    }
    assert(stats@.take(stats@.len() as int) =~= stats@);
    count
}

/// Finds the length of the longest record; 0 where there is none.
pub fn longest_sequence_length(stats: &[BaseStatistics]) -> (longest: usize)
    ensures
        is_longest_length(stats@, longest),
{
    let mut longest: usize = 0;
    let mut i: usize = 0;
    while i < stats.len()
        invariant
            i <= stats@.len(),
            is_longest_length(stats@.take(i as int), longest),
        decreases stats@.len() - i,
    {
        let ghost before = stats@.take(i as int);
        let ghost now = stats@.take(i + 1);
        assert(forall|j: int| 0 <= j < i ==> now[j] == before[j]);
        if stats[i].length > longest || i == 0 {
            longest = stats[i].length;
            assert(now[i as int].length == longest);
        } else {
            let ghost w = choose|j: int| 0 <= j < before.len() && (#[trigger] before[j]).length
                == longest;
            assert(now[w].length == longest);
        }
        i += 1;
    }
    assert(stats@.take(stats@.len() as int) =~= stats@);
    longest
}

impl BaseStatistics {
    /// The leading columns of this record's report row: identifier, length,
    /// A, T, C, G, N and G+C, the numbers with thousands separators.
    pub fn columns_with_thousands_sep(&self) -> (row: String)
        ensures
            row@ == record_columns(self@),
    {
        if self.length == 0 {
            return "0\t0\t0\t0\t0\t0\t0\t0".to_owned();
        }
        let mut row = self.sequence_id.clone();
        append_count_columns(
            &mut row,
            self.length,
            self.count_a,
            self.count_t,
            self.count_c,
            self.count_g,
            self.count_n,
        );
        row
    }

    /// Computes the composition of one sequence: its length and how often
    /// each of A, T, C, G and the gap symbol occurs in it. Letters are
    /// compared as they are; any other letter counts towards the length
    /// only. An empty identifier or an empty sequence is refused.
    pub fn from_sequence(sequence_id: &str, sequence: &str) -> (r: Result<
        BaseStatistics,
        &'static str,
    >)
        ensures
            is_composition_result(r, sequence_id@, sequence@),
            r is Err <==> sequence_id@.len() == 0 || sequence@.len() == 0,
            r matches Ok(stats) ==> stats@.tally.well_formed(),
    {
        if sequence.is_empty() || sequence_id.is_empty() {
            return Err("Sequence and sequence ID cannot be empty");
        }
        let letters = letters_of(sequence);
        proof {
            lemma_tally_partitions_length(letters@);
        }
        Ok(
            BaseStatistics {
                sequence_id: sequence_id.to_owned(),
                length: letters.len(),
                count_a: count_symbol(&letters, 'A'),
                count_c: count_symbol(&letters, 'C'),
                count_g: count_symbol(&letters, 'G'),
                count_t: count_symbol(&letters, 'T'),
                count_n: count_symbol(&letters, GAP_SYMBOL),
            },
        )
    }

    /// Whether the five counts together stay within the length.
    pub fn is_well_formed(&self) -> (ok: bool)
        ensures
            ok == self@.tally.well_formed(),
    {
        self.count_a as u128 + self.count_c as u128 + self.count_g as u128 + self.count_t as u128
            + self.count_n as u128 <= self.length as u128
    }

    /// The number of letters that are none of A, T, C, G and the gap symbol.
    pub fn count_other(&self) -> (other: usize)
        requires
            self@.tally.well_formed(),
        ensures
            other == self@.tally.other(),
    {
        self.length - self.count_a - self.count_c - self.count_g - self.count_t - self.count_n
    }

    /// The GC content in hundredths of a percent, rounded down: 0 for no
    /// letters, 10000 where every letter is G or C.
    pub fn gc_content_hundredths(&self) -> (gc: u128)
        ensures
            gc == self@.tally.gc_hundredths(),
    {
        hundredths(self.count_g as u128 + self.count_c as u128, self.length)
    }
}

impl OverallStatistics {
    /// Sums the records field by field:
    /// `(length, A, C, G, T, N)`.
    pub fn calculate_statistics(stats: &[BaseStatistics]) -> (sums: (
        usize,
        usize,
        usize,
        usize,
        usize,
        usize,
    ))
        requires
            all_well_formed(stats@),
            length_sum(stats@) <= usize::MAX,
        ensures
            sums.0 == totals_of(stats@).length,
            sums.1 == totals_of(stats@).count_a,
            sums.2 == totals_of(stats@).count_c,
            sums.3 == totals_of(stats@).count_g,
            sums.4 == totals_of(stats@).count_t,
            sums.5 == totals_of(stats@).count_n,
    {
        let mut sums: (usize, usize, usize, usize, usize, usize) = (0, 0, 0, 0, 0, 0);
        let mut i: usize = 0;
        proof {
            lemma_total_length_is_length_sum(stats@);
        }
        while i < stats.len()
            invariant
                i <= stats@.len(),
                all_well_formed(stats@),
                totals_of(stats@).length <= usize::MAX,
                totals_of(stats@.take(i as int)).well_formed(),
                sums.0 == totals_of(stats@.take(i as int)).length,
                sums.1 == totals_of(stats@.take(i as int)).count_a,
                sums.2 == totals_of(stats@.take(i as int)).count_c,
                sums.3 == totals_of(stats@.take(i as int)).count_g,
                sums.4 == totals_of(stats@.take(i as int)).count_t,
                sums.5 == totals_of(stats@.take(i as int)).count_n,
            decreases stats@.len() - i,
        {
            proof {
                assert(stats@.take(i + 1).drop_last() =~= stats@.take(i as int));
                assert(stats@.take(i + 1).last() == stats@[i as int]);
                assert(stats@[i as int]@.tally.well_formed());
                lemma_totals_grow(stats@, i + 1);
            }
            let s = &stats[i];
            sums = (
                sums.0 + s.length,
                sums.1 + s.count_a,
                sums.2 + s.count_c,
                sums.3 + s.count_g,
                sums.4 + s.count_t,
                sums.5 + s.count_n,
            );
            i += 1;
        }
        assert(stats@.take(stats@.len() as int) =~= stats@);
        sums
    }

    /// Folds the compositions of all records into that of the assembly: each
    /// total is the sum of the records' values, whatever their order. No
    /// records give totals of 0.
    pub fn from_all_statistics(stats: &[BaseStatistics]) -> (overall: OverallStatistics)
        requires
            all_well_formed(stats@),
            length_sum(stats@) <= usize::MAX,
        ensures
            overall@ == totals_of(stats@),
            overall@.length == length_sum(stats@),
            overall@.gc_weight() == weighted_gc_sum(stats@),
            overall@.well_formed(),
            stats@.len() == 0 ==> overall@ == Tally::zero(),
    {
        proof {
            lemma_aggregate_gc_is_length_weighted(stats@);
            lemma_totals_well_formed(stats@);
        }
        let (total_length, total_count_a, total_count_c, total_count_g, total_count_t, total_count_n) =
            Self::calculate_statistics(stats);
        OverallStatistics {
            total_length,
            total_count_a,
            total_count_c,
            total_count_g,
            total_count_t,
            total_count_n,
        }
    }

    /// Folds the records as [`Self::from_all_statistics`] does, after
    /// testing what that function asks of its input: `None` where a record's
    /// counts exceed its length, or where the total length does not fit in a
    /// `usize`.
    pub fn try_from_all_statistics(stats: &[BaseStatistics]) -> (overall: Option<
        OverallStatistics,
    >)
        ensures
            overall is Some <==> all_well_formed(stats@) && length_sum(stats@) <= usize::MAX,
            overall matches Some(o) ==> o@ == totals_of(stats@) && o@.well_formed(),
    {
        let mut total: usize = 0;
        let mut i: usize = 0;
        proof {
            lemma_total_length_is_length_sum(stats@);
        }
        while i < stats.len()
            invariant
                i <= stats@.len(),
                forall|j: int| 0 <= j < i ==> (#[trigger] stats@[j])@.tally.well_formed(),
                total == totals_of(stats@.take(i as int)).length,
                totals_of(stats@).length == length_sum(stats@),
            decreases stats@.len() - i,
        {
            proof {
                assert(stats@.take(i + 1).drop_last() =~= stats@.take(i as int));
                assert(stats@.take(i + 1).last() == stats@[i as int]);
                lemma_totals_grow(stats@, i + 1);
            }
            let s = &stats[i];
            if !s.is_well_formed() {
                return None;
            }
            if s.length > usize::MAX - total {
                return None;
            }
            total = total + s.length;
            i += 1;
        }
        assert(stats@.take(stats@.len() as int) =~= stats@);
        Some(Self::from_all_statistics(stats))
    }

    /// The leading columns of the report's last row: `Total`, then the
    /// summed length, A, T, C, G, N and G+C with thousands separators.
    pub fn columns_with_thousands_sep(&self) -> (row: String)
        ensures
            row@ == total_columns(self@),
    {
        if self.total_length == 0 {
            return "Total\t0\t0\t0\t0\t0\t0".to_owned();
        }
        let mut row = "Total".to_owned();
        append_count_columns(
            &mut row,
            self.total_length,
            self.total_count_a,
            self.total_count_t,
            self.total_count_c,
            self.total_count_g,
            self.total_count_n,
        );
        row
    }

    /// The GC content of the assembly in hundredths of a percent, rounded
    /// down, computed from the summed counts; 0 where the total length is 0.
    pub fn gc_content_hundredths(&self) -> (gc: u128)
        ensures
            gc == self@.gc_hundredths(),
    {
        hundredths(self.total_count_g as u128 + self.total_count_c as u128, self.total_length)
    }
}

} // verus!
