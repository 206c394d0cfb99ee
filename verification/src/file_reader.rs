//! Records of a FASTA text: from its lines to `(identifier, letters)` pairs.
//!
//! A line that begins with `>` opens a record; its identifier is the first
//! run of non-blank characters behind the marker. Every other line adds its
//! letters, in upper case, to the record that is open.

use vstd::prelude::*;
use crate::letters::letters_of;

verus! {

/// The records of one FASTA text.
pub struct FastaReader {
    pub sequences: Vec<(String, String)>,
}

/// The marker that opens a record.
pub const RECORD_MARKER: char = '>';

/// What is known while the lines are read: the records that are complete,
/// and the identifier and letters of the record that is open.
pub ghost struct ReadState {
    pub records: Seq<(Seq<char>, Seq<char>)>,
    pub id: Seq<char>,
    pub letters: Seq<char>,
}

/// Whether `c` is white space in the sense of Unicode's `White_Space`
/// property.
pub open spec fn is_blank(c: char) -> bool {
    ||| c == ' '
    ||| '\u{9}' <= c <= '\u{d}'
    ||| c == '\u{85}'
    ||| c == '\u{a0}'
    ||| c == '\u{1680}'
    ||| '\u{2000}' <= c <= '\u{200a}'
    ||| c == '\u{2028}'
    ||| c == '\u{2029}'
    ||| c == '\u{202f}'
    ||| c == '\u{205f}'
    ||| c == '\u{3000}'
}

/// `c` with an ASCII lower-case letter turned into its upper-case form.
pub open spec fn upper(c: char) -> char {
    if 'a' <= c <= 'z' {
        ((c as u8 - 32) as u8) as char
    } else {
        c
    }
}

/// The letters of `s`, each in upper case.
pub open spec fn uppercased(s: Seq<char>) -> Seq<char> {
    Seq::new(s.len(), |k: int| upper(s[k]))
}

/// The first position from `i` on that holds no blank; the length of `s`
/// where there is none.
pub open spec fn token_start(s: Seq<char>, i: int) -> int
    decreases s.len() - i,
{
    if i < 0 || i >= s.len() {
        s.len() as int
    } else if is_blank(s[i]) {
        token_start(s, i + 1)
    } else {
        i
    }
}

/// The first position from `i` on that holds a blank; the length of `s`
/// where there is none.
pub open spec fn token_end(s: Seq<char>, i: int) -> int
    decreases s.len() - i,
{
    if i < 0 || i >= s.len() {
        s.len() as int
    } else if is_blank(s[i]) {
        i
    } else {
        token_end(s, i + 1)
    }
}

/// The identifier that a header line gives: the first run of non-blank
/// characters behind the marker; empty where only blanks follow it.
pub open spec fn header_id(line: Seq<char>) -> Seq<char> {
    let start = token_start(line, 1);
    if start >= line.len() {
        Seq::empty()
    } else {
        line.subrange(start, token_end(line, start))
    }
}

/// Whether a sequence with this identifier is wanted: always without a
/// prefix, else when the identifier begins with the prefix.
pub open spec fn is_included(sequence_id: Seq<char>, chr_prefix: Option<Seq<char>>) -> bool {
    match chr_prefix {
        Some(prefix) => prefix.is_prefix_of(sequence_id),
        None => true,
    }
}

/// The records with the open record added, if it has an identifier and is
/// wanted.
pub open spec fn with_open_record(st: ReadState, chr_prefix: Option<Seq<char>>) -> Seq<
    (Seq<char>, Seq<char>),
> {
    if st.id.len() > 0 && is_included(st.id, chr_prefix) {
        st.records.push((st.id, st.letters))
    } else {
        st.records
    }
}

/// The state after one more line. A header closes the open record, if it
/// has an identifier, and opens the next; letters read under an empty
/// identifier stay and go to the next record.
pub open spec fn after_line(st: ReadState, line: Seq<char>, chr_prefix: Option<Seq<char>>)
    -> ReadState {
    if line.len() > 0 && line[0] == RECORD_MARKER {
        ReadState {
            records: with_open_record(st, chr_prefix),
            id: header_id(line),
            letters: if st.id.len() > 0 {
                Seq::empty()
            } else {
                st.letters
            },
        }
    } else {
        ReadState { records: st.records, id: st.id, letters: st.letters + uppercased(line) }
    }
}

/// The state after all the given lines.
pub open spec fn after_lines(lines: Seq<Seq<char>>, chr_prefix: Option<Seq<char>>) -> ReadState
    decreases lines.len(),
{
    if lines.len() == 0 {
        ReadState { records: Seq::empty(), id: Seq::empty(), letters: Seq::empty() }
    } else {
        after_line(after_lines(lines.drop_last(), chr_prefix), lines.last(), chr_prefix)
    }
}

/// The records that the lines hold, in their order.
pub open spec fn records_of(lines: Seq<Seq<char>>, chr_prefix: Option<Seq<char>>) -> Seq<
    (Seq<char>, Seq<char>),
> {
    with_open_record(after_lines(lines, chr_prefix), chr_prefix)
}

/// The lines as sequences of characters.
pub open spec fn line_views(lines: Seq<String>) -> Seq<Seq<char>> {
    Seq::new(lines.len(), |k: int| lines[k]@)
}

/// The records as pairs of character sequences.
pub open spec fn record_views(records: Seq<(String, String)>) -> Seq<(Seq<char>, Seq<char>)> {
    Seq::new(records.len(), |k: int| (records[k].0@, records[k].1@))
}

/// The prefix as a sequence of characters.
pub open spec fn prefix_view(chr_prefix: Option<&str>) -> Option<Seq<char>> {
    match chr_prefix {
        Some(prefix) => Some(prefix@),
        None => None,
    }
}

/// Collects the characters into a `String` with std's `String::from_iter`,
/// which keeps them all, in order.
#[verifier::external_body]
fn string_of(chars: &Vec<char>) -> (text: String)
    ensures
        text@ == chars@,
{
    String::from_iter(chars.iter())
}

/// Tells whether `c` is white space.
pub fn is_whitespace(c: char) -> (blank: bool)
    ensures
        blank == is_blank(c),
{
    c == ' ' || ('\u{9}' <= c && c <= '\u{d}') || c == '\u{85}' || c == '\u{a0}' || c
        == '\u{1680}' || ('\u{2000}' <= c && c <= '\u{200a}') || c == '\u{2028}' || c
        == '\u{2029}' || c == '\u{202f}' || c == '\u{205f}' || c == '\u{3000}'
}

/// Turns an ASCII lower-case letter into upper case and leaves any other
/// character as it is.
pub fn to_upper(c: char) -> (u: char)
    ensures
        u == upper(c),
{
    if 'a' <= c && c <= 'z' {
        ((c as u8) - 32) as char
    } else {
        c
    }
}

/// Reads the identifier off a header line.
fn read_header_id(line: &Vec<char>) -> (id: Vec<char>)
    ensures
        id@ == header_id(line@),
{
    let n = line.len();
    let mut start: usize = 1;
    while start < n && is_whitespace(line[start])
        invariant
            1 <= start,
            n == line@.len(),
            token_start(line@, start as int) == token_start(line@, 1),
        decreases n - start,
    {
        start += 1;
    }
    let mut id: Vec<char> = Vec::new();
    if start >= n {
        return id;
    }
    let mut end: usize = start;
    while end < n && !is_whitespace(line[end])
        invariant
            start <= end <= n,
            n == line@.len(),
            token_end(line@, end as int) == token_end(line@, start as int),
            id@ == line@.subrange(start as int, end as int),
        decreases n - end,
    {
        id.push(line[end]);
        end += 1;
        assert(id@ =~= line@.subrange(start as int, end as int));
    }
    id
}

impl FastaReader {
    /// Reads the records off the lines of a FASTA text, given without
    /// their line ends, and keeps those that are wanted.
    pub fn from_lines(lines: &[String], chr_prefix: Option<&str>) -> (reader: FastaReader)
        ensures
            record_views(reader.sequences@) == records_of(
                line_views(lines@),
                prefix_view(chr_prefix),
            ),
    {
        let ghost all = line_views(lines@);
        let ghost wanted = prefix_view(chr_prefix);
        let mut sequences: Vec<(String, String)> = Vec::new();
        let mut sequence_id: Vec<char> = Vec::new();
        let mut sequence_data: Vec<char> = Vec::new();
        let mut i: usize = 0;
        assert(record_views(sequences@) =~= Seq::empty());
        while i < lines.len()
            invariant
                i <= lines@.len(),
                all == line_views(lines@),
                wanted == prefix_view(chr_prefix),
                after_lines(all.take(i as int), wanted).records == record_views(sequences@),
                after_lines(all.take(i as int), wanted).id == sequence_id@,
                after_lines(all.take(i as int), wanted).letters == sequence_data@,
            decreases lines@.len() - i,
        {
            proof {
                assert(all.take(i + 1).drop_last() =~= all.take(i as int));
                assert(all.take(i + 1).last() == lines@[i as int]@);
            }
            let line = letters_of(lines[i].as_str());
            if line.len() > 0 && line[0] == RECORD_MARKER {
                if sequence_id.len() > 0 {
                    let id = string_of(&sequence_id);
                    if Self::should_include(id.as_str(), chr_prefix) {
                        let ghost before = record_views(sequences@);
                        sequences.push((id, string_of(&sequence_data)));
                        assert(record_views(sequences@) =~= before.push(
                            (sequence_id@, sequence_data@),
                        ));
                    }
                    sequence_data = Vec::new();
                }
                sequence_id = read_header_id(&line);
            } else {
                let ghost before = sequence_data@;
                let mut j: usize = 0;
                while j < line.len()
                    invariant
                        j <= line@.len(),
                        sequence_data@ == before + uppercased(line@).take(j as int),
                    decreases line@.len() - j,
                {
                    sequence_data.push(to_upper(line[j]));
                    j += 1;
                    assert(sequence_data@ =~= before + uppercased(line@).take(j as int));
                }
                assert(uppercased(line@).take(line@.len() as int) =~= uppercased(line@));
            }
            i += 1;
        }
        assert(all.take(lines@.len() as int) =~= all);
        if sequence_id.len() > 0 {
            let id = string_of(&sequence_id);
            if Self::should_include(id.as_str(), chr_prefix) {
                let ghost before = record_views(sequences@);
                sequences.push((id, string_of(&sequence_data)));
                assert(record_views(sequences@) =~= before.push((sequence_id@, sequence_data@)));
            }
        }
        FastaReader { sequences }
    }

    /// Tells whether a sequence is wanted: any without a prefix, else those
    /// whose identifier begins with the prefix.
    pub fn should_include(sequence_id: &str, chr_prefix: Option<&str>) -> (wanted: bool)
        ensures
            wanted == is_included(sequence_id@, prefix_view(chr_prefix)),
    {
        if let Some(prefix) = chr_prefix {
            let id = letters_of(sequence_id);
            let start = letters_of(prefix);
            if start.len() > id.len() {
                return false;
            }
            let mut k: usize = 0;
            while k < start.len()
                invariant
                    k <= start@.len() <= id@.len(),
                    chr_prefix == Some(prefix),
                    id@ == sequence_id@,
                    start@ == prefix@,
                    forall|j: int| 0 <= j < k ==> start@[j] == id@[j],
                decreases start@.len() - k,
            {
                if start[k] != id[k] {
                    assert(prefix@[k as int] != sequence_id@.subrange(0, prefix@.len() as int)[k as int]);
                    return false;
                }
                k += 1;
            }
            assert(prefix@ =~= sequence_id@.subrange(0, prefix@.len() as int));
            true
        } else {
            true
        }
    }
}

} // verus!
