use fasta_stat::file_reader::{is_whitespace, to_upper, FastaReader};

fn lines(text: &[&str]) -> Vec<String> {
    text.iter().map(|l| l.to_string()).collect()
}

fn pairs(records: &[(&str, &str)]) -> Vec<(String, String)> {
    records.iter().map(|(id, letters)| (id.to_string(), letters.to_string())).collect()
}

#[test]
fn reader_joins_lines_and_uppercases() {
    let reader = FastaReader::from_lines(
        &lines(&[">chr1 first chromosome", "acgt", "NNac", ">chr2", "GG"]),
        None,
    );
    assert_eq!(reader.sequences, pairs(&[("chr1", "ACGTNNAC"), ("chr2", "GG")]));
}

#[test]
fn reader_identifier_is_first_token() {
    let reader = FastaReader::from_lines(&lines(&[">  id2\tlength=4 x", "ACGT"]), None);
    assert_eq!(reader.sequences, pairs(&[("id2", "ACGT")]));
}

#[test]
fn reader_keeps_only_wanted_prefix() {
    let text = lines(&[">chr1", "AC", ">scaffold7", "GT", ">chrX", "NN"]);
    let reader = FastaReader::from_lines(&text, Some("chr"));
    assert_eq!(reader.sequences, pairs(&[("chr1", "AC"), ("chrX", "NN")]));
}

#[test]
fn reader_keeps_record_without_letters() {
    let reader = FastaReader::from_lines(&lines(&[">a", ">b", "AC"]), None);
    assert_eq!(reader.sequences, pairs(&[("a", ""), ("b", "AC")]));
}

#[test]
fn reader_of_no_lines_has_no_records() {
    assert!(FastaReader::from_lines(&[], None).sequences.is_empty());
}

#[test]
fn reader_letters_before_first_header_join_first_record() {
    let reader = FastaReader::from_lines(&lines(&["ac", ">x", "GT"]), None);
    assert_eq!(reader.sequences, pairs(&[("x", "ACGT")]));
}

#[test]
fn reader_header_without_identifier_opens_nothing() {
    let reader = FastaReader::from_lines(&lines(&[">", "AC", ">x", "GT", "> ", "TT"]), None);
    assert_eq!(reader.sequences, pairs(&[("x", "ACGT")]));
}

#[test]
fn reader_empty_line_adds_nothing() {
    let reader = FastaReader::from_lines(&lines(&[">x", "AC", "", "GT"]), None);
    assert_eq!(reader.sequences, pairs(&[("x", "ACGT")]));
}

#[test]
fn should_include_without_prefix() {
    assert!(FastaReader::should_include("anything", None));
    assert!(FastaReader::should_include("", None));
}

#[test]
fn should_include_with_prefix() {
    assert!(FastaReader::should_include("chr1", Some("chr")));
    assert!(FastaReader::should_include("chr", Some("chr")));
    assert!(FastaReader::should_include("chr1", Some("")));
    assert!(!FastaReader::should_include("scaffold1", Some("chr")));
    assert!(!FastaReader::should_include("ch", Some("chr")));
    assert!(!FastaReader::should_include("Chr1", Some("chr")));
    assert!(!FastaReader::should_include("xchr1", Some("chr")));
}

#[test]
fn whitespace_agrees_with_std_on_every_char() {
    for code in 0..=0x10FFFFu32 {
        if let Some(c) = char::from_u32(code) {
            assert_eq!(is_whitespace(c), c.is_whitespace(), "U+{:04X}", code);
        }
    }
}

#[test]
fn upper_agrees_with_std_on_every_char() {
    for code in 0..=0x10FFFFu32 {
        if let Some(c) = char::from_u32(code) {
            assert_eq!(to_upper(c), c.to_ascii_uppercase(), "U+{:04X}", code);
        }
    }
}
