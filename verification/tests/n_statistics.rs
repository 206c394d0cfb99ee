use fasta_stat::n50_statistics::{calculate_n50_for_sequences, extract_lengths, NStatistics};

fn records(pairs: &[(&str, &str)]) -> Vec<(String, String)> {
    pairs.iter().map(|(id, letters)| (id.to_string(), letters.to_string())).collect()
}

#[test]
fn lengths_split_on_gap_run() {
    let (contigs, scaffolds) = extract_lengths(&records(&[("s", "ACNNNGT")]));
    assert_eq!(contigs, vec![2, 2]);
    assert_eq!(scaffolds, vec![7]);
}

#[test]
fn lengths_skip_empty_records() {
    let (contigs, scaffolds) = extract_lengths(&records(&[("a", ""), ("b", "ACGT"), ("c", "")]));
    assert_eq!(contigs, vec![4]);
    assert_eq!(scaffolds, vec![4]);
}

#[test]
fn lengths_all_gap_record_has_no_contig() {
    let (contigs, scaffolds) = extract_lengths(&records(&[("a", "NNNN")]));
    assert!(contigs.is_empty());
    assert_eq!(scaffolds, vec![4]);
}

#[test]
fn lengths_without_gap_is_one_contig() {
    let (contigs, scaffolds) = extract_lengths(&records(&[("a", "ACGTACGTAC")]));
    assert_eq!(contigs, vec![10]);
    assert_eq!(scaffolds, vec![10]);
}

#[test]
fn lengths_follow_record_order_unsorted() {
    let (contigs, scaffolds) =
        extract_lengths(&records(&[("a", "NACNNACGTN"), ("b", "ACGTACGTN"), ("c", "AN")]));
    assert_eq!(contigs, vec![2, 4, 8, 1]);
    assert_eq!(scaffolds, vec![10, 9, 2]);
}

#[test]
fn lengths_of_no_records() {
    let (contigs, scaffolds) = extract_lengths(&[]);
    assert!(contigs.is_empty());
    assert!(scaffolds.is_empty());
}

#[test]
fn n_statistics_worked_example() {
    let stats = NStatistics::from_lengths(&[100, 90, 80, 70, 60]).unwrap();
    assert_eq!(stats, NStatistics { n50: 80, n60: 80, n70: 70, n80: 70, n90: 60 });
}

#[test]
fn n_statistics_sort_longest_first() {
    let stats = NStatistics::from_lengths(&[60, 100, 80, 70, 90]).unwrap();
    assert_eq!(stats, NStatistics { n50: 80, n60: 80, n70: 70, n80: 70, n90: 60 });
    let ascending = NStatistics::from_lengths(&[1, 2, 3, 4, 100]).unwrap();
    assert_eq!(ascending.n50, 100);
    assert_eq!(ascending.n90, 100);
}

#[test]
fn n_statistics_threshold_rounds_up() {
    // total 3: 70% is 2.1, so the threshold is 3 and the sum 2 does not reach it.
    let stats = NStatistics::from_lengths(&[1, 2]).unwrap();
    assert_eq!(stats, NStatistics { n50: 2, n60: 2, n70: 1, n80: 1, n90: 1 });
}

#[test]
fn n_statistics_single_length() {
    let stats = NStatistics::from_lengths(&[42]).unwrap();
    assert_eq!(stats, NStatistics { n50: 42, n60: 42, n70: 42, n80: 42, n90: 42 });
}

#[test]
fn n_statistics_equal_lengths() {
    let stats = NStatistics::from_lengths(&[5, 5, 5, 5]).unwrap();
    assert_eq!(stats, NStatistics { n50: 5, n60: 5, n70: 5, n80: 5, n90: 5 });
}

#[test]
fn n_statistics_from_lengths_refuses_empty() {
    assert_eq!(NStatistics::from_lengths(&[]).err(), Some("Input lengths cannot be empty"));
}

#[test]
fn n_statistics_of_nothing_are_zero() {
    let stats = NStatistics::compute(&[]);
    assert_eq!(stats, NStatistics { n50: 0, n60: 0, n70: 0, n80: 0, n90: 0 });
    assert_eq!(stats, NStatistics::default());
}

#[test]
fn n_statistics_compute_matches_from_lengths() {
    let lengths = [7, 3, 9, 1];
    assert_eq!(NStatistics::compute(&lengths), NStatistics::from_lengths(&lengths).unwrap());
}

#[test]
fn n_statistics_large_lengths_do_not_overflow() {
    let stats = NStatistics::from_lengths(&[usize::MAX, usize::MAX, 1]).unwrap();
    assert_eq!(stats.n50, usize::MAX);
    assert_eq!(stats.n90, usize::MAX);
}

#[test]
fn n_statistic_scan_in_given_order() {
    assert_eq!(NStatistics::calculate_n_statistic(&[100, 90, 80, 70, 60], 400, 50), 80);
    assert_eq!(NStatistics::calculate_n_statistic(&[100, 90, 80, 70, 60], 400, 90), 60);
    assert_eq!(NStatistics::calculate_n_statistic(&[100, 90, 80, 70, 60], 400, 25), 100);
}

#[test]
fn n_statistic_is_zero_when_never_reached() {
    assert_eq!(NStatistics::calculate_n_statistic(&[1, 1], 10, 90), 0);
    assert_eq!(NStatistics::calculate_n_statistic(&[], 10, 50), 0);
}

#[test]
fn n50_for_sequences_contigs_and_scaffolds() {
    let (contig, scaffold) = calculate_n50_for_sequences(&records(&[
        ("a", "ACNNNGT"),
        ("b", ""),
        ("c", "NNNN"),
        ("d", "ACGTACGT"),
    ]));
    assert_eq!(contig, NStatistics { n50: 8, n60: 8, n70: 2, n80: 2, n90: 2 });
    assert_eq!(scaffold, NStatistics { n50: 7, n60: 7, n70: 7, n80: 4, n90: 4 });
}

#[test]
fn n50_for_no_sequences_is_zero() {
    let (contig, scaffold) = calculate_n50_for_sequences(&[]);
    assert_eq!(contig, NStatistics::default());
    assert_eq!(scaffold, NStatistics::default());
}

#[test]
fn n50_for_all_gap_sequences_has_no_contigs() {
    let (contig, scaffold) = calculate_n50_for_sequences(&records(&[("a", "NNN"), ("b", "NN")]));
    assert_eq!(contig, NStatistics::default());
    assert_eq!(scaffold, NStatistics { n50: 3, n60: 3, n70: 2, n80: 2, n90: 2 });
}
