use fasta_stat::base_statistics::{
    longest_sequence_length, sequences_without_n, BaseStatistics, OverallStatistics,
};
use fasta_stat::file_writer::{render_gap_statistics, render_n50_statistics};
use fasta_stat::gap_statistics::find_gaps;
use fasta_stat::n50_statistics::NStatistics;

fn record(id: &str, length: usize, a: usize, c: usize, g: usize, t: usize, n: usize) -> BaseStatistics {
    BaseStatistics {
        sequence_id: id.to_string(),
        length,
        count_a: a,
        count_c: c,
        count_g: g,
        count_t: t,
        count_n: n,
    }
}

#[test]
fn n50_table_has_thousands_separators() {
    let contig = NStatistics { n50: 1234567, n60: 999, n70: 1000, n80: 12, n90: 0 };
    let scaffold = NStatistics { n50: 98765432, n60: 100000, n70: 10001, n80: 1001, n90: 7 };
    assert_eq!(
        render_n50_statistics(&contig, &scaffold),
        "Type\tN50\tN60\tN70\tN80\tN90\n\
         Contig\t1,234,567\t999\t1,000\t12\t0\n\
         Scaffold\t98,765,432\t100,000\t10,001\t1,001\t7\n"
    );
}

#[test]
fn gap_table_lists_gaps_in_order() {
    let mut gaps = find_gaps("chr1", "ACNNNGTN");
    gaps.extend(find_gaps("chr2", "NNNNNNNNNNNNA"));
    assert_eq!(
        render_gap_statistics(&gaps),
        "SequenceID\tStart\tEnd\tLength\tGapID\n\
         chr1\t2\t5\t3\tchr1-gap-1\n\
         chr1\t7\t8\t1\tchr1-gap-2\n\
         chr2\t0\t12\t12\tchr2-gap-1\n"
    );
}

#[test]
fn gap_table_of_no_gaps_is_header_only() {
    assert_eq!(render_gap_statistics(&[]), "SequenceID\tStart\tEnd\tLength\tGapID\n");
}

#[test]
fn record_columns_with_separators() {
    let r = record("chr1", 1234567, 1000, 200000, 300000, 400, 33167);
    assert_eq!(
        r.columns_with_thousands_sep(),
        "chr1\t1,234,567\t1,000\t400\t200,000\t300,000\t33,167\t500,000"
    );
}

#[test]
fn record_columns_of_empty_record_are_zeros() {
    let r = record("chr1", 0, 0, 0, 0, 0, 0);
    assert_eq!(r.columns_with_thousands_sep(), "0\t0\t0\t0\t0\t0\t0\t0");
}

#[test]
fn total_columns_with_separators() {
    let all = vec![record("a", 5000, 1000, 1500, 500, 2000, 0), record("b", 12, 3, 3, 3, 3, 0)];
    let overall = OverallStatistics::from_all_statistics(&all);
    assert_eq!(overall.columns_with_thousands_sep(), "Total\t5,012\t1,003\t2,003\t1,503\t503\t0\t2,006");
}

#[test]
fn total_columns_of_nothing_are_zeros() {
    let overall = OverallStatistics::from_all_statistics(&[]);
    assert_eq!(overall.columns_with_thousands_sep(), "Total\t0\t0\t0\t0\t0\t0");
}

#[test]
fn summary_counts_records_without_n() {
    let all = vec![record("a", 4, 1, 1, 1, 1, 0), record("b", 4, 1, 1, 1, 0, 1), record("c", 2, 2, 0, 0, 0, 0)];
    assert_eq!(sequences_without_n(&all), 2);
    assert_eq!(sequences_without_n(&[]), 0);
}

#[test]
fn summary_finds_longest_record() {
    let all = vec![record("a", 4, 1, 1, 1, 1, 0), record("b", 40, 1, 1, 1, 0, 1), record("c", 2, 2, 0, 0, 0, 0)];
    assert_eq!(longest_sequence_length(&all), 40);
    assert_eq!(longest_sequence_length(&[]), 0);
}
