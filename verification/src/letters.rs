//! The letters of a sequence, and counting over them.

use vstd::prelude::*;
use vstd::std_specs::iter::IteratorSpec;

verus! {

/// The letter that stands for an unknown base. Runs of it are gaps, and it is
/// the symbol tallied in the N bucket of a composition.
pub const GAP_SYMBOL: char = 'N';

/// How often `c` occurs in `s`.
pub open spec fn count_of(s: Seq<char>, c: char) -> nat
    decreases s.len(),
{
    if s.len() == 0 {
        0
    } else {
        count_of(s.drop_last(), c) + if s.last() == c { 1nat } else { 0nat }
    }
}

/// Whether `c` is one of the five tallied symbols.
pub open spec fn is_named(c: char) -> bool {
    c == 'A' || c == 'T' || c == 'C' || c == 'G' || c == GAP_SYMBOL
}

/// How many letters of `s` are none of the five tallied symbols.
pub open spec fn count_other(s: Seq<char>) -> nat
    decreases s.len(),
{
    if s.len() == 0 {
        0
    } else {
        count_other(s.drop_last()) + if is_named(s.last()) { 0nat } else { 1nat }
    }
}

/// The five tallied symbols and the remaining letters together make up the
/// whole sequence: A + T + C + G + N + other equals the length.
pub proof fn lemma_counts_partition_length(s: Seq<char>)
    ensures
        count_of(s, 'A') + count_of(s, 'T') + count_of(s, 'C') + count_of(s, 'G') + count_of(
            s,
            GAP_SYMBOL,
        ) + count_other(s) == s.len(),
    decreases s.len(),
{
    if s.len() > 0 {
        lemma_counts_partition_length(s.drop_last());
    }
}

/// The letters of `s`, one `char` each, in order.
pub fn letters_of(s: &str) -> (letters: Vec<char>)
    ensures
        letters@ == s@,
{
    broadcast use vstd::string::axiom_spec_iter, vstd::string::next_postcondition;

    let mut letters: Vec<char> = Vec::new();
    let mut rest = s.chars();
    loop
        invariant
            letters@ + rest.remaining() == s@,
            rest.decrease() is Some,
        decreases rest.decrease()->0,
    {
        let ghost before = rest.remaining();
        match rest.next() {
            Some(c) => {
                letters.push(c);
                assert(letters@ + rest.remaining() =~= s@) by {
                    assert(before =~= seq![c] + before.drop_first());
                }
            },
            None => {
                assert(letters@ =~= s@);
                return letters;
            },
        }
    }
}

} // verus!
