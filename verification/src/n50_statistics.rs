//! Contig and scaffold lengths, and the N50 family of statistics over them.

use vstd::prelude::*;
use vstd::relations::{sorted_by, total_ordering};
use vstd::seq_lib::lemma_sorted_unique;
use crate::letters::{letters_of, GAP_SYMBOL};
use crate::runs::{closed_runs, lemma_closed_runs, lemma_run_start, run_start, runs};

verus! {

/// The five percentile statistics of one collection of lengths.
#[derive(Debug, Clone, Copy, PartialEq, Eq)]
pub struct NStatistics {
    pub n50: usize,
    pub n60: usize,
    pub n70: usize,
    pub n80: usize,
    pub n90: usize,
}

impl Default for NStatistics {
    /// All five statistics are 0: the value reported for no lengths at all.
    fn default() -> (stats: NStatistics)
        ensures
            stats == zero_statistics(),
    {
        NStatistics { n50: 0, n60: 0, n70: 0, n80: 0, n90: 0 }
    }
}

/// The statistics of an empty collection: all 0.
pub open spec fn zero_statistics() -> NStatistics {
    NStatistics { n50: 0, n60: 0, n70: 0, n80: 0, n90: 0 }
}

/// The sum of the lengths.
pub open spec fn total_of(lengths: Seq<usize>) -> nat
    decreases lengths.len(),
{
    if lengths.len() == 0 {
        0
    } else {
        total_of(lengths.drop_last()) + lengths.last() as nat
    }
}

/// The order in which lengths are scanned: longest first.
pub open spec fn longest_first() -> spec_fn(usize, usize) -> bool {
    |a: usize, b: usize| a >= b
}

/// The lengths from longest to shortest.
pub open spec fn descending(lengths: Seq<usize>) -> Seq<usize> {
    lengths.sort_by(longest_first())
}

/// The share of `total` that a statistic must reach: `percent` hundredths of
/// it, rounded up to a whole number.
pub open spec fn threshold_of(total: nat, percent: nat) -> nat {
    (total * percent + 99) / 100
}

/// Scans `lengths` from position `i` on, with `reached` letters counted so
/// far, and gives the first length with which the running sum reaches
/// `threshold`; 0 when none does.
pub open spec fn first_reaching(lengths: Seq<usize>, i: int, reached: nat, threshold: nat) -> usize
    decreases lengths.len() - i,
{
    if i < 0 || i >= lengths.len() {
        0
    } else if reached + lengths[i] >= threshold {
        lengths[i]
    } else {
        first_reaching(lengths, i + 1, reached + lengths[i] as nat, threshold)
    }
}

/// The N-statistic of `lengths` at `percent`: with the lengths taken from
/// longest to shortest, the length at which the running sum first reaches
/// `percent` hundredths of the total, rounded up.
pub open spec fn n_statistic(lengths: Seq<usize>, percent: nat) -> usize {
    first_reaching(descending(lengths), 0, 0, threshold_of(total_of(lengths), percent))
}

/// The five statistics of `lengths`.
pub open spec fn n_statistics_of(lengths: Seq<usize>) -> NStatistics {
    NStatistics {
        n50: n_statistic(lengths, 50),
        n60: n_statistic(lengths, 60),
        n70: n_statistic(lengths, 70),
        n80: n_statistic(lengths, 80),
        n90: n_statistic(lengths, 90),
    }
}

/// The statistics that are reported for `lengths`: all 0 for none, else the
/// five statistics.
pub open spec fn reported_statistics(lengths: Seq<usize>) -> NStatistics {
    if lengths.len() == 0 {
        zero_statistics()
    } else {
        n_statistics_of(lengths)
    }
}

/// The lengths of the given runs, in order.
pub open spec fn run_lengths(rs: Seq<(int, int)>) -> Seq<usize> {
    Seq::new(rs.len(), |k: int| (rs[k].1 - rs[k].0) as usize)
}

/// The contig lengths of one sequence: the lengths of its maximal gap-free
/// runs, in order of position.
pub open spec fn contig_lengths_of(letters: Seq<char>) -> Seq<usize> {
    run_lengths(runs(letters, false))
}

/// The scaffold lengths of one sequence: its length, unless it is empty.
pub open spec fn scaffold_lengths_of(letters: Seq<char>) -> Seq<usize> {
    if letters.len() == 0 {
        Seq::empty()
    } else {
        seq![letters.len() as usize]
    }
}

/// The contig lengths of all records, in record order.
pub open spec fn all_contig_lengths(records: Seq<(String, String)>) -> Seq<usize>
    decreases records.len(),
{
    if records.len() == 0 {
        Seq::empty()
    } else {
        all_contig_lengths(records.drop_last()) + contig_lengths_of(records.last().1@)
    }
}

/// The scaffold lengths of all records, in record order.
pub open spec fn all_scaffold_lengths(records: Seq<(String, String)>) -> Seq<usize>
    decreases records.len(),
{
    if records.len() == 0 {
        Seq::empty()
    } else {
        all_scaffold_lengths(records.drop_last()) + scaffold_lengths_of(records.last().1@)
    }
}

/// The sum of `n` lengths is at most `n` times the largest `usize`.
pub proof fn lemma_total_bounded(lengths: Seq<usize>)
    ensures
        total_of(lengths) <= lengths.len() * usize::MAX,
    decreases lengths.len(),
{
    if lengths.len() > 0 {
        lemma_total_bounded(lengths.drop_last());
        assert((lengths.len() - 1) * usize::MAX + usize::MAX == lengths.len() * usize::MAX)
            by (nonlinear_arith);
    }
}

/// Whether `k` is the first position of `lengths` at which the running sum
/// reaches `threshold`.
pub open spec fn is_first_reaching(lengths: Seq<usize>, threshold: nat, k: int) -> bool {
    &&& 0 <= k < lengths.len()
    &&& total_of(lengths.take(k + 1)) >= threshold
    &&& (k == 0 || total_of(lengths.take(k)) < threshold)
}

/// The scan from position `i`, with the sum of the lengths before `i`
/// counted and short of the threshold, finds the first position at which
/// the running sum reaches the threshold.
pub proof fn lemma_scan_finds_first(lengths: Seq<usize>, i: int, threshold: nat)
    requires
        0 <= i <= lengths.len(),
        i == 0 || total_of(lengths.take(i)) < threshold,
    ensures
        ({
            let found = first_reaching(lengths, i, total_of(lengths.take(i)), threshold);
            ||| exists|k: int| is_first_reaching(lengths, threshold, k) && found == lengths[k]
            ||| found == 0 && (lengths.len() == 0 || total_of(lengths) < threshold)
        }),
    decreases lengths.len() - i,
{
    if i == lengths.len() {
        assert(lengths.take(i) =~= lengths);
    } else {
        assert(lengths.take(i + 1).drop_last() =~= lengths.take(i));
        if total_of(lengths.take(i)) + lengths[i] >= threshold {
            assert(is_first_reaching(lengths, threshold, i));
        } else {
            lemma_scan_finds_first(lengths, i + 1, threshold);
        }
    }
}

/// What the scan gives: the length at the first position at which the
/// running sum reaches the threshold, and 0 where the sum of all lengths
/// stays short of it or there is no length.
pub proof fn lemma_first_reaching(lengths: Seq<usize>, threshold: nat)
    ensures
        ({
            let found = first_reaching(lengths, 0, 0, threshold);
            ||| exists|k: int| is_first_reaching(lengths, threshold, k) && found == lengths[k]
            ||| found == 0 && (lengths.len() == 0 || total_of(lengths) < threshold)
        }),
{
    assert(lengths.take(0) =~= Seq::<usize>::empty());
    lemma_scan_finds_first(lengths, 0, threshold);
}

/// Taking one length out lowers the sum by that length.
pub proof fn lemma_total_without(lengths: Seq<usize>, j: int)
    requires
        0 <= j < lengths.len(),
    ensures
        total_of(lengths) == total_of(lengths.remove(j)) + lengths[j],
    decreases lengths.len(),
{
    if j == lengths.len() - 1 {
        assert(lengths.remove(j) =~= lengths.drop_last());
    } else {
        assert(lengths.remove(j).drop_last() =~= lengths.drop_last().remove(j));
        assert(lengths.remove(j).last() == lengths.last());
        lemma_total_without(lengths.drop_last(), j);
    }
}

/// The sum does not depend on the order of the lengths.
pub proof fn lemma_total_order_independent(first: Seq<usize>, second: Seq<usize>)
    requires
        first.to_multiset() == second.to_multiset(),
    ensures
        total_of(first) == total_of(second),
    decreases first.len(),
{
    broadcast use vstd::seq_lib::group_to_multiset_ensures;

    assert(first.len() == first.to_multiset().len());
    assert(second.len() == second.to_multiset().len());
    if first.len() > 0 {
        let x = first.last();
        assert(first.contains(x));
        assert(first.to_multiset().count(x) > 0);
        assert(second.contains(x));
        let j = choose|j: int| 0 <= j < second.len() && second[j] == x;
        assert(first.drop_last() =~= first.remove(first.len() - 1));
        assert(first.drop_last().to_multiset() =~= second.remove(j).to_multiset());
        lemma_total_order_independent(first.drop_last(), second.remove(j));
        lemma_total_without(second, j);
    }
}

/// The statistics depend on which lengths there are and how often, not on
/// the order in which they are given.
pub proof fn lemma_n_statistics_order_independent(first: Seq<usize>, second: Seq<usize>)
    requires
        first.to_multiset() == second.to_multiset(),
    ensures
        n_statistics_of(first) == n_statistics_of(second),
        reported_statistics(first) == reported_statistics(second),
{
    broadcast use vstd::seq_lib::group_to_multiset_ensures;

    assert(first.len() == first.to_multiset().len());
    assert(second.len() == second.to_multiset().len());
    lemma_total_order_independent(first, second);
    lemma_longest_first_total();
    first.lemma_sort_by_ensures(longest_first());
    second.lemma_sort_by_ensures(longest_first());
    lemma_sorted_unique(descending(first), descending(second), longest_first());
}

/// Each statistic of a non-empty collection is one of its lengths.
pub proof fn lemma_n_statistic_is_a_length(lengths: Seq<usize>, percent: nat)
    requires
        lengths.len() > 0,
        percent <= 100,
    ensures
        lengths.contains(n_statistic(lengths, percent)),
{
    broadcast use vstd::seq_lib::group_to_multiset_ensures;

    let sorted = descending(lengths);
    let total = total_of(lengths);
    let threshold = threshold_of(total, percent);
    lengths.lemma_sort_by_ensures(longest_first());
    assert(lengths.len() == lengths.to_multiset().len());
    assert(sorted.len() == sorted.to_multiset().len());
    lemma_total_order_independent(sorted, lengths);
    assert(threshold <= total) by (nonlinear_arith)
        requires
            threshold == (total * percent + 99) / 100,
            percent <= 100,
    ;
    lemma_first_reaching(sorted, threshold);
    let found = first_reaching(sorted, 0, 0, threshold);
    let k = choose|k: int| is_first_reaching(sorted, threshold, k) && found == sorted[k];
    assert(sorted.contains(sorted[k]));
}

/// A sequence without a gap symbol is one contig: its only contig length
/// is its scaffold length.
pub proof fn lemma_gap_free_is_one_contig(letters: Seq<char>)
    requires
        letters.len() > 0,
        letters.len() <= usize::MAX,
        forall|j: int| 0 <= j < letters.len() ==> #[trigger] letters[j] != GAP_SYMBOL,
    ensures
        contig_lengths_of(letters) == seq![letters.len() as usize],
        contig_lengths_of(letters) == scaffold_lengths_of(letters),
{
    crate::runs::lemma_all_letters_one_run(letters, false);
    assert(contig_lengths_of(letters) =~= seq![letters.len() as usize]);
}

/// A sequence of gap symbols only has no contig.
pub proof fn lemma_all_gap_has_no_contig(letters: Seq<char>)
    requires
        forall|j: int| 0 <= j < letters.len() ==> #[trigger] letters[j] == GAP_SYMBOL,
    ensures
        contig_lengths_of(letters) == Seq::<usize>::empty(),
{
    crate::runs::lemma_no_letter_no_run(letters, false);
    assert(contig_lengths_of(letters) =~= Seq::<usize>::empty());
}

/// Contigs and gaps take turns: every contig is a maximal gap-free run, not
/// empty, and the contigs come in order of position.
pub proof fn lemma_contigs_are_gap_free_runs(letters: Seq<char>)
    requires
        letters.len() <= usize::MAX,
    ensures
        contig_lengths_of(letters).len() == runs(letters, false).len(),
        forall|k: int|
            0 <= k < runs(letters, false).len() ==> {
                let r = #[trigger] runs(letters, false)[k];
                &&& crate::runs::is_maximal_run(letters, r.0, r.1, false)
                &&& contig_lengths_of(letters)[k] == r.1 - r.0
                &&& contig_lengths_of(letters)[k] > 0
            },
{
    crate::runs::lemma_runs_are_the_maximal_runs(letters, false);
    assert forall|k: int| 0 <= k < runs(letters, false).len() implies {
        let r = #[trigger] runs(letters, false)[k];
        &&& crate::runs::is_maximal_run(letters, r.0, r.1, false)
        &&& contig_lengths_of(letters)[k] == r.1 - r.0
        &&& contig_lengths_of(letters)[k] > 0
    } by {
        let r = runs(letters, false)[k];
        assert(crate::runs::is_maximal_run(letters, r.0, r.1, false));
    }
}

/// Longest-first is a total order on lengths.
pub proof fn lemma_longest_first_total()
    ensures
        total_ordering(longest_first()),
{
    let geq = longest_first();
    assert(vstd::relations::reflexive(geq));
    assert(vstd::relations::antisymmetric(geq));
    assert(vstd::relations::transitive(geq));
    assert(vstd::relations::strongly_connected(geq));
}

/// Sorts with `sort_unstable` of std's slices, which puts the elements in
/// ascending order and keeps each of them as often as it occurred.
#[verifier::external_body]
fn sort_ascending(lengths: &mut Vec<usize>)
    ensures
        final(lengths)@.to_multiset() == old(lengths)@.to_multiset(),
        forall|i: int, j: int|
            0 <= i < j < final(lengths)@.len() ==> final(lengths)@[i] <= final(lengths)@[j],
{
    lengths.sort_unstable();
}

/// The lengths from longest to shortest, and their sum.
fn sorted_descending(lengths: &[usize]) -> (r: (Vec<usize>, u128))
    ensures
        r.0@ == descending(lengths@),
        r.1 == total_of(lengths@),
{
    let n = lengths.len();
    let mut ascending: Vec<usize> = Vec::new();
    let mut total: u128 = 0;
    let mut i: usize = 0;
    while i < n
        invariant
            i <= n,
            n == lengths@.len(),
            ascending@ == lengths@.take(i as int),
            total == total_of(lengths@.take(i as int)),
        decreases n - i,
    {
        proof {
            lemma_total_bounded(lengths@.take(i as int));
            assert(lengths@.take(i + 1).drop_last() =~= lengths@.take(i as int));
            assert(i * usize::MAX + usize::MAX <= u128::MAX) by (nonlinear_arith)
                requires
                    i <= usize::MAX,
                    usize::MAX <= u64::MAX,
            ;
        }
        ascending.push(lengths[i]);
        total = total + lengths[i] as u128;
        i += 1;
        assert(ascending@ =~= lengths@.take(i as int));
    }
    assert(lengths@.take(n as int) =~= lengths@);
    sort_ascending(&mut ascending);
    proof {
        broadcast use vstd::seq_lib::group_to_multiset_ensures;

        assert(ascending@.len() == ascending@.to_multiset().len());
        assert(lengths@.len() == lengths@.to_multiset().len());
    }
    let mut sorted: Vec<usize> = Vec::new();
    let mut k: usize = n;
    while k > 0
        invariant
            k <= n,
            n == ascending@.len(),
            sorted@.len() == n - k,
            forall|j: int| 0 <= j < sorted@.len() ==> sorted@[j] == ascending@[n - 1 - j],
        decreases k,
    {
        k -= 1;
        sorted.push(ascending[k]);
    }
    proof {
        assert(sorted@ =~= ascending@.reverse());
        ascending@.lemma_reverse_to_multiset();
        assert(sorted_by(sorted@, longest_first()));
        lemma_longest_first_total();
        lengths@.lemma_sort_by_ensures(longest_first());
        lemma_sorted_unique(sorted@, descending(lengths@), longest_first());
    }
    (sorted, total)
}

/// Computes `percent` hundredths of `total`, rounded up.
fn threshold(total: u128, percent: u8) -> (t: u128)
    requires
        percent <= 100,
    ensures
        t == threshold_of(total as nat, percent as nat),
{
    let p: u128 = percent as u128;
    let whole: u128 = total / 100;
    let rest: u128 = total % 100;
    assert(whole * p <= whole * 100 && whole * 100 + rest == total && rest * p <= rest * 100 && (
    whole * p * 100 + (rest * p + 99)) / 100 == whole * p + (rest * p + 99) / 100 && whole * p
        * 100 + (rest * p + 99) == total * p + 99) by (nonlinear_arith)
        requires
            whole == total / 100,
            rest == total % 100,
            p <= 100,
    ;
    whole * p + (rest * p + 99) / 100
}

impl NStatistics {
    /// Computes the five statistics of a collection of lengths, given in any
    /// order. An empty collection is refused.
    pub fn from_lengths(lengths: &[usize]) -> (r: Result<NStatistics, &'static str>)
        ensures
            r is Err <==> lengths@.len() == 0,
            r matches Err(e) ==> e@ == "Input lengths cannot be empty"@,
            r matches Ok(stats) ==> stats == n_statistics_of(lengths@),
    {
        if lengths.len() == 0 {
            return Err("Input lengths cannot be empty");
        }
        let (sorted, total) = sorted_descending(lengths);
        Ok(
            NStatistics {
                n50: Self::calculate_n_statistic(sorted.as_slice(), total, 50),
                n60: Self::calculate_n_statistic(sorted.as_slice(), total, 60),
                n70: Self::calculate_n_statistic(sorted.as_slice(), total, 70),
                n80: Self::calculate_n_statistic(sorted.as_slice(), total, 80),
                n90: Self::calculate_n_statistic(sorted.as_slice(), total, 90),
            },
        )
    }

    /// Computes the statistics that are reported for a collection of
    /// lengths: all 0 for an empty one, which is no error.
    pub fn compute(lengths: &[usize]) -> (stats: NStatistics)
        ensures
            stats == reported_statistics(lengths@),
            lengths@.len() == 0 ==> stats == zero_statistics(),
    {
        match Self::from_lengths(lengths) {
            Ok(stats) => stats,
            Err(_) => NStatistics::default(),
        }
    }

    /// Scans `lengths` in the order given and returns the first length with
    /// which the running sum reaches `percent` hundredths of `total_length`,
    /// rounded up; 0 when the sum never reaches it.
    pub fn calculate_n_statistic(lengths: &[usize], total_length: u128, percent: u8) -> (n: usize)
        requires
            percent <= 100,
        ensures
            n == first_reaching(
                lengths@,
                0,
                0,
                threshold_of(total_length as nat, percent as nat),
            ),
    {
        let threshold_length = threshold(total_length, percent);
        let mut cumulative_length: u128 = 0;
        let mut i: usize = 0;
        while i < lengths.len()
            invariant
                i <= lengths@.len(),
                threshold_length == threshold_of(total_length as nat, percent as nat),
                cumulative_length == total_of(lengths@.take(i as int)),
                first_reaching(lengths@, i as int, cumulative_length as nat, threshold_length as nat)
                    == first_reaching(lengths@, 0, 0, threshold_length as nat),
            decreases lengths@.len() - i,
        {
            proof {
                lemma_total_bounded(lengths@.take(i as int));
                assert(lengths@.take(i + 1).drop_last() =~= lengths@.take(i as int));
                assert(i * usize::MAX + usize::MAX <= u128::MAX) by (nonlinear_arith)
                    requires
                        i <= usize::MAX,
                        usize::MAX <= u64::MAX,
                ;
            }
            let length = lengths[i];
            cumulative_length = cumulative_length + length as u128;
            if cumulative_length >= threshold_length {
                return length;
            }
            i += 1;
        }
        0
    }
}

/// Appends the contig lengths of one sequence to `contigs`.
fn push_contig_lengths(letters: &Vec<char>, contigs: &mut Vec<usize>)
    ensures
        final(contigs)@ == old(contigs)@ + contig_lengths_of(letters@),
{
    let n = letters.len();
    let mut start: usize = 0;
    let mut i: usize = 0;
    while i < n
        invariant
            i <= n,
            n == letters@.len(),
            start == run_start(letters@, i as int, false),
            contigs@ == old(contigs)@ + run_lengths(closed_runs(letters@, i as int, false)),
        decreases n - i,
    {
        proof {
            lemma_run_start(letters@, i as int, false);
            lemma_closed_runs(letters@, i as int, false);
        }
        if letters[i] == GAP_SYMBOL {
            if i > start {
                contigs.push(i - start);
            }
            start = i + 1;
        }
        i += 1;
        assert(contigs@ =~= old(contigs)@ + run_lengths(closed_runs(letters@, i as int, false)));
    }
    proof {
        lemma_run_start(letters@, n as int, false);
    }
    if start < n {
        contigs.push(n - start);
    }
    assert(contigs@ =~= old(contigs)@ + contig_lengths_of(letters@));
}

/// Derives the contig lengths and the scaffold lengths of the records, each
/// in record order: `(contig lengths, scaffold lengths)`. An empty sequence
/// contributes to neither.
pub fn extract_lengths(sequences: &[(String, String)]) -> (lengths: (Vec<usize>, Vec<usize>))
    ensures
        lengths.0@ == all_contig_lengths(sequences@),
        lengths.1@ == all_scaffold_lengths(sequences@),
{
    let mut contig_lengths: Vec<usize> = Vec::new();
    let mut scaffold_lengths: Vec<usize> = Vec::new();
    let mut i: usize = 0;
    while i < sequences.len()
        invariant
            i <= sequences@.len(),
            contig_lengths@ == all_contig_lengths(sequences@.take(i as int)),
            scaffold_lengths@ == all_scaffold_lengths(sequences@.take(i as int)),
        decreases sequences@.len() - i,
    {
        let letters = letters_of(sequences[i].1.as_str());
        proof {
            assert(sequences@.take(i + 1).drop_last() =~= sequences@.take(i as int));
            assert(sequences@.take(i + 1).last() == sequences@[i as int]);
            if letters@.len() == 0 {
                crate::runs::lemma_no_letter_no_run(letters@, false);
            }
        }
        if letters.len() > 0 {
            scaffold_lengths.push(letters.len());
            push_contig_lengths(&letters, &mut contig_lengths);
        }
        i += 1;
        assert(scaffold_lengths@ =~= all_scaffold_lengths(sequences@.take(i as int)));
        assert(contig_lengths@ =~= all_contig_lengths(sequences@.take(i as int)));
    }
    assert(sequences@.take(sequences@.len() as int) =~= sequences@);
    (contig_lengths, scaffold_lengths)
}

/// Computes the statistics of the records' contigs and of their scaffolds:
/// `(contig statistics, scaffold statistics)`. Where there are no lengths of
/// a kind, its statistics are all 0.
pub fn calculate_n50_for_sequences(sequences: &[(String, String)]) -> (stats: (
    NStatistics,
    NStatistics,
))
    ensures
        stats.0 == reported_statistics(all_contig_lengths(sequences@)),
        stats.1 == reported_statistics(all_scaffold_lengths(sequences@)),
{
    let (contig_lengths, scaffold_lengths) = extract_lengths(sequences);
    let contig_n_stats = NStatistics::compute(contig_lengths.as_slice());
    let scaffold_n_stats = NStatistics::compute(scaffold_lengths.as_slice());
    (contig_n_stats, scaffold_n_stats)
}

} // verus!
