use fasta_stat::gap_statistics::find_gaps;
use fasta_stat::letters::GAP_SYMBOL;

#[test]
fn gap_symbol_is_n() {
    assert_eq!(GAP_SYMBOL, 'N');
}

#[test]
fn gaps_trailing_gap_reaches_end() {
    let gaps = find_gaps("seq", "ACGTNN");
    assert_eq!(gaps.len(), 1);
    assert_eq!(gaps[0].sequence_id(), "seq");
    assert_eq!(gaps[0].start(), 4);
    assert_eq!(gaps[0].end(), 6);
    assert_eq!(gaps[0].length(), 2);
    assert_eq!(gaps[0].gap_id(), "seq-gap-1");
}

#[test]
fn gaps_none_without_gap_symbol() {
    assert!(find_gaps("seq", "ACGTACGT").is_empty());
}

#[test]
fn gaps_none_in_empty_sequence() {
    assert!(find_gaps("seq", "").is_empty());
}

#[test]
fn gaps_all_gap_is_one_region() {
    let gaps = find_gaps("seq", "NNNNN");
    assert_eq!(gaps.len(), 1);
    assert_eq!(gaps[0].start(), 0);
    assert_eq!(gaps[0].end(), 5);
    assert_eq!(gaps[0].length(), 5);
    assert_eq!(gaps[0].gap_id(), "seq-gap-1");
}

#[test]
fn gaps_are_numbered_in_order_of_position() {
    let gaps = find_gaps("chr2", "NNACNNNGTN");
    let found: Vec<(usize, usize, usize, String)> = gaps
        .iter()
        .map(|g| (g.start(), g.end(), g.length(), g.gap_id().to_string()))
        .collect();
    assert_eq!(
        found,
        vec![
            (0, 2, 2, "chr2-gap-1".to_string()),
            (4, 7, 3, "chr2-gap-2".to_string()),
            (9, 10, 1, "chr2-gap-3".to_string()),
        ]
    );
}

#[test]
fn gaps_numbering_starts_again_for_each_sequence() {
    let first = find_gaps("a", "ANA");
    let second = find_gaps("b", "CNNC");
    assert_eq!(first[0].gap_id(), "a-gap-1");
    assert_eq!(second[0].gap_id(), "b-gap-1");
}

#[test]
fn gaps_label_counts_in_decimal() {
    let gaps = find_gaps("s", "ANANANANANANANANANANANAN");
    assert_eq!(gaps.len(), 12);
    assert_eq!(gaps[8].gap_id(), "s-gap-9");
    assert_eq!(gaps[9].gap_id(), "s-gap-10");
    assert_eq!(gaps[11].gap_id(), "s-gap-12");
    assert_eq!(gaps[11].start(), 23);
    assert_eq!(gaps[11].end(), 24);
}

#[test]
fn gaps_lowercase_n_is_no_gap() {
    assert!(find_gaps("seq", "ACnnGT").is_empty());
}
