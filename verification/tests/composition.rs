use fasta_stat::base_statistics::{BaseStatistics, OverallStatistics};

fn stats_of(id: &str, letters: &str) -> BaseStatistics {
    BaseStatistics::from_sequence(id, letters).unwrap()
}

#[test]
fn composition_counts_each_symbol() {
    let s = stats_of("chr1", "AACCCGGGGTN");
    assert_eq!(s.sequence_id, "chr1");
    assert_eq!(s.length, 11);
    assert_eq!(s.count_a, 2);
    assert_eq!(s.count_c, 3);
    assert_eq!(s.count_g, 4);
    assert_eq!(s.count_t, 1);
    assert_eq!(s.count_n, 1);
    assert_eq!(s.count_other(), 0);
}

#[test]
fn composition_rejects_empty_identifier() {
    let r = BaseStatistics::from_sequence("", "ACGT");
    assert_eq!(r.err(), Some("Sequence and sequence ID cannot be empty"));
}

#[test]
fn composition_rejects_empty_letters() {
    let r = BaseStatistics::from_sequence("chr1", "");
    assert_eq!(r.err(), Some("Sequence and sequence ID cannot be empty"));
}

#[test]
fn composition_buckets_and_other_sum_to_length() {
    let s = stats_of("chr1", "ACGTNXYRACGT-");
    assert_eq!(s.length, 13);
    assert_eq!(s.count_other(), 4);
    assert_eq!(
        s.count_a + s.count_t + s.count_c + s.count_g + s.count_n + s.count_other(),
        s.length
    );
}

#[test]
fn composition_does_not_fold_case() {
    let s = stats_of("chr1", "acgtnACGTN");
    assert_eq!(s.length, 10);
    assert_eq!(s.count_a, 1);
    assert_eq!(s.count_c, 1);
    assert_eq!(s.count_g, 1);
    assert_eq!(s.count_t, 1);
    assert_eq!(s.count_n, 1);
    assert_eq!(s.count_other(), 5);
}

#[test]
fn composition_gc_content_exact_values() {
    assert_eq!(stats_of("a", "GGCA").gc_content_hundredths(), 7500);
    assert_eq!(stats_of("a", "ACG").gc_content_hundredths(), 6666);
    assert_eq!(stats_of("a", "GCGC").gc_content_hundredths(), 10000);
    assert_eq!(stats_of("a", "ATNN").gc_content_hundredths(), 0);
}

#[test]
fn composition_is_repeatable() {
    let first = stats_of("chr7", "ACGTNNACGGGT");
    let second = stats_of("chr7", "ACGTNNACGGGT");
    assert_eq!(first.sequence_id, second.sequence_id);
    assert_eq!(first.length, second.length);
    assert_eq!(first.count_a, second.count_a);
    assert_eq!(first.count_c, second.count_c);
    assert_eq!(first.count_g, second.count_g);
    assert_eq!(first.count_t, second.count_t);
    assert_eq!(first.count_n, second.count_n);
    assert_eq!(first.gc_content_hundredths(), second.gc_content_hundredths());
}

#[test]
fn aggregate_of_nothing_is_zero() {
    let overall = OverallStatistics::from_all_statistics(&[]);
    assert_eq!(overall.total_length, 0);
    assert_eq!(overall.total_count_a, 0);
    assert_eq!(overall.total_count_c, 0);
    assert_eq!(overall.total_count_g, 0);
    assert_eq!(overall.total_count_t, 0);
    assert_eq!(overall.total_count_n, 0);
    assert_eq!(overall.gc_content_hundredths(), 0);
}

#[test]
fn aggregate_sums_every_field() {
    let all = vec![stats_of("a", "AACGTN"), stats_of("b", "GGGTTX"), stats_of("c", "N")];
    let overall = OverallStatistics::from_all_statistics(&all);
    assert_eq!(overall.total_length, 13);
    assert_eq!(overall.total_count_a, 2);
    assert_eq!(overall.total_count_c, 1);
    assert_eq!(overall.total_count_g, 4);
    assert_eq!(overall.total_count_t, 3);
    assert_eq!(overall.total_count_n, 2);
}

#[test]
fn aggregate_gc_is_length_weighted() {
    // 100% GC over 4 letters and 0% GC over 12: 25% of all letters, not 50%.
    let all = vec![stats_of("short", "GCGC"), stats_of("long", "ATATATATATAT")];
    assert_eq!(all[0].gc_content_hundredths(), 10000);
    assert_eq!(all[1].gc_content_hundredths(), 0);
    let overall = OverallStatistics::from_all_statistics(&all);
    assert_eq!(overall.gc_content_hundredths(), 2500);
    let weighted: u128 = all
        .iter()
        .map(|s| s.gc_content_hundredths() * s.length as u128)
        .sum::<u128>()
        / overall.total_length as u128;
    assert_eq!(overall.gc_content_hundredths(), weighted);
}

#[test]
fn aggregate_does_not_depend_on_order() {
    let forward = vec![stats_of("a", "AACGTN"), stats_of("b", "GGGTTX"), stats_of("c", "NCC")];
    let backward = vec![stats_of("c", "NCC"), stats_of("b", "GGGTTX"), stats_of("a", "AACGTN")];
    assert_eq!(
        OverallStatistics::from_all_statistics(&forward),
        OverallStatistics::from_all_statistics(&backward)
    );
}

#[test]
fn aggregate_total_length_is_sum_of_lengths() {
    let all = vec![stats_of("a", "ACGTACGT"), stats_of("b", "NNN"), stats_of("c", "XY")];
    let overall = OverallStatistics::from_all_statistics(&all);
    let sum: usize = all.iter().map(|s| s.length).sum();
    assert_eq!(overall.total_length, sum);
    assert_eq!(overall.total_length, 13);
}

#[test]
fn aggregate_calculate_statistics_gives_the_sums() {
    let all = vec![stats_of("a", "AACGTN"), stats_of("b", "GGGTTX")];
    assert_eq!(OverallStatistics::calculate_statistics(&all), (12, 2, 1, 4, 3, 1));
}

#[test]
fn aggregate_checked_accepts_valid_records() {
    let all = vec![stats_of("a", "AACGTN"), stats_of("b", "GGGTTX")];
    let overall = OverallStatistics::try_from_all_statistics(&all).unwrap();
    assert_eq!(overall, OverallStatistics::from_all_statistics(&all));
}

#[test]
fn aggregate_checked_refuses_counts_beyond_length() {
    let mut bad = stats_of("a", "ACGT");
    bad.count_a = 9;
    assert!(!bad.is_well_formed());
    assert_eq!(OverallStatistics::try_from_all_statistics(&[bad]), None);
}

#[test]
fn aggregate_checked_refuses_total_beyond_usize() {
    let mut huge = stats_of("a", "XXXX");
    huge.length = usize::MAX;
    let small = stats_of("b", "A");
    assert_eq!(OverallStatistics::try_from_all_statistics(&[huge, small]), None);
}
