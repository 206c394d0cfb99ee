//! Maximal runs of letters of one kind: gap runs and gap-free runs.
//!
//! Gap regions and contigs are both read off the same definition, so the two
//! always agree on where a gap begins and ends.

use vstd::prelude::*;
use crate::letters::GAP_SYMBOL;

verus! {

/// Whether `c` belongs to a run of the wanted kind: a gap run (`gap`) holds
/// only gap symbols, a gap-free run holds none.
pub open spec fn in_kind(c: char, gap: bool) -> bool {
    (c == GAP_SYMBOL) == gap
}

/// Where the run of the wanted kind that ends just before position `i`
/// begins; `i` itself when no such letter stands directly before `i`.
pub open spec fn run_start(s: Seq<char>, i: int, gap: bool) -> int
    decreases i,
{
    if i <= 0 {
        0
    } else if in_kind(s[i - 1], gap) {
        run_start(s, i - 1, gap)
    } else {
        i
    }
}

/// The maximal runs of the wanted kind that end before position `i` with a
/// letter of the other kind, as half-open intervals in order of position.
pub open spec fn closed_runs(s: Seq<char>, i: int, gap: bool) -> Seq<(int, int)>
    decreases i,
{
    if i <= 0 {
        Seq::empty()
    } else {
        let before = closed_runs(s, i - 1, gap);
        let start = run_start(s, i - 1, gap);
        if !in_kind(s[i - 1], gap) && start < i - 1 {
            before.push((start, i - 1))
        } else {
            before
        }
    }
}

/// All maximal runs of the wanted kind in `s`, as half-open intervals in
/// order of position. A run that reaches the end of `s` is the last one.
pub open spec fn runs(s: Seq<char>, gap: bool) -> Seq<(int, int)> {
    let n = s.len() as int;
    let start = run_start(s, n, gap);
    if start < n {
        closed_runs(s, n, gap).push((start, n))
    } else {
        closed_runs(s, n, gap)
    }
}

/// What the interval `[a, b)` must satisfy to be a maximal run of `s`:
/// non-empty, inside `s`, of the wanted kind throughout, and bounded on each
/// side by the end of `s` or by a letter of the other kind.
pub open spec fn is_maximal_run(s: Seq<char>, a: int, b: int, gap: bool) -> bool {
    &&& 0 <= a < b <= s.len()
    &&& forall|j: int| a <= j < b ==> in_kind(#[trigger] s[j], gap)
    &&& (a == 0 || !in_kind(s[a - 1], gap))
    &&& (b == s.len() || !in_kind(s[b], gap))
}

/// The run that ends just before `i` begins in `[0, i]`, holds only letters
/// of the wanted kind, and cannot be extended to the left.
pub proof fn lemma_run_start(s: Seq<char>, i: int, gap: bool)
    requires
        0 <= i <= s.len(),
    ensures
        0 <= run_start(s, i, gap) <= i,
        forall|j: int| run_start(s, i, gap) <= j < i ==> in_kind(#[trigger] s[j], gap),
        run_start(s, i, gap) == 0 || !in_kind(s[run_start(s, i, gap) - 1], gap),
    decreases i,
{
    if i > 0 && in_kind(s[i - 1], gap) {
        lemma_run_start(s, i - 1, gap);
    }
}

/// Every closed run before `i` is a maximal run that ends before `i`, and
/// each begins after the one before it has ended.
pub proof fn lemma_closed_runs(s: Seq<char>, i: int, gap: bool)
    requires
        0 <= i <= s.len(),
    ensures
        closed_runs(s, i, gap).len() + (if run_start(s, i, gap) < i {
            1int
        } else {
            0int
        }) <= i,
        forall|k: int|
            0 <= k < closed_runs(s, i, gap).len() ==> {
                let r = #[trigger] closed_runs(s, i, gap)[k];
                is_maximal_run(s, r.0, r.1, gap) && r.1 < i && r.1 <= run_start(s, i, gap)
            },
        forall|k: int, m: int|
            0 <= k < m < closed_runs(s, i, gap).len() ==> (#[trigger] closed_runs(s, i, gap)[k]).1
                < (#[trigger] closed_runs(s, i, gap)[m]).0,
        forall|j: int|
            0 <= j < run_start(s, i, gap) && in_kind(#[trigger] s[j], gap) ==> exists|k: int|
                0 <= k < closed_runs(s, i, gap).len() && (#[trigger] closed_runs(s, i, gap)[k]).0
                    <= j < closed_runs(s, i, gap)[k].1,
    decreases i,
{
    if i > 0 {
        lemma_closed_runs(s, i - 1, gap);
        lemma_run_start(s, i - 1, gap);
        lemma_run_start(s, i, gap);
        let before = closed_runs(s, i - 1, gap);
        let now = closed_runs(s, i, gap);
        let start = run_start(s, i - 1, gap);
        assert forall|j: int|
            0 <= j < run_start(s, i, gap) && in_kind(#[trigger] s[j], gap) implies exists|k: int|
            0 <= k < now.len() && (#[trigger] now[k]).0 <= j < now[k].1 by {
            if j < start {
                let k = choose|k: int|
                    0 <= k < before.len() && (#[trigger] before[k]).0 <= j < before[k].1;
                assert(now[k] == before[k]);
            } else {
                assert(!in_kind(s[i - 1], gap));
                assert(start <= j < i - 1);
                assert(now[now.len() - 1] == (start, i - 1));
            }
        }
    }
}

/// The runs of `s` are exactly its maximal runs: each is one, they come in
/// order of position without touching, and every letter of the wanted kind
/// lies in one of them.
pub proof fn lemma_runs_are_the_maximal_runs(s: Seq<char>, gap: bool)
    ensures
        runs(s, gap).len() <= s.len(),
        forall|k: int|
            0 <= k < runs(s, gap).len() ==> is_maximal_run(
                s,
                (#[trigger] runs(s, gap)[k]).0,
                runs(s, gap)[k].1,
                gap,
            ),
        forall|k: int, m: int|
            0 <= k < m < runs(s, gap).len() ==> (#[trigger] runs(s, gap)[k]).1 < (
            #[trigger] runs(s, gap)[m]).0,
        forall|j: int|
            0 <= j < s.len() && in_kind(#[trigger] s[j], gap) ==> exists|k: int|
                0 <= k < runs(s, gap).len() && (#[trigger] runs(s, gap)[k]).0 <= j < runs(
                    s,
                    gap,
                )[k].1,
{
    let n = s.len() as int;
    lemma_closed_runs(s, n, gap);
    lemma_run_start(s, n, gap);
    let closed = closed_runs(s, n, gap);
    let all = runs(s, gap);
    let start = run_start(s, n, gap);
    if start < n {
        lemma_closed_before_open(s, n, gap);
    }
    assert forall|j: int| 0 <= j < s.len() && in_kind(#[trigger] s[j], gap) implies exists|k: int|
        0 <= k < all.len() && (#[trigger] all[k]).0 <= j < all[k].1 by {
        if j < start {
            let k = choose|k: int|
                0 <= k < closed.len() && (#[trigger] closed[k]).0 <= j < closed[k].1;
            assert(all[k] == closed[k]);
        } else {
            assert(all[all.len() - 1] == (start, n));
        }
    }
}

/// A closed run ends strictly before the run that is still open at `i`
/// begins.
pub proof fn lemma_closed_before_open(s: Seq<char>, i: int, gap: bool)
    requires
        0 <= i <= s.len(),
        run_start(s, i, gap) < i,
    ensures
        forall|k: int|
            0 <= k < closed_runs(s, i, gap).len() ==> (#[trigger] closed_runs(s, i, gap)[k]).1
                < run_start(s, i, gap),
    decreases i,
{
    lemma_closed_runs(s, i, gap);
    lemma_run_start(s, i, gap);
    assert forall|k: int| 0 <= k < closed_runs(s, i, gap).len() implies (#[trigger] closed_runs(
        s,
        i,
        gap,
    )[k]).1 < run_start(s, i, gap) by {
        let r = closed_runs(s, i, gap)[k];
        assert(is_maximal_run(s, r.0, r.1, gap));
        // the letter at r.1 is of the other kind, the one at the open run's start is not
        if r.1 == run_start(s, i, gap) {
            assert(in_kind(s[r.1], gap));
        }
    }
}

/// Where no letter is of the wanted kind there is no run.
pub proof fn lemma_no_letter_no_run(s: Seq<char>, gap: bool)
    requires
        forall|j: int| 0 <= j < s.len() ==> !in_kind(#[trigger] s[j], gap),
    ensures
        runs(s, gap).len() == 0,
{
    lemma_runs_are_the_maximal_runs(s, gap);
    if runs(s, gap).len() > 0 {
        let r = runs(s, gap)[0];
        assert(is_maximal_run(s, r.0, r.1, gap));
        assert(in_kind(s[r.0], gap));
    }
}

/// Where every letter is of the wanted kind, and there is at least one, the
/// whole sequence is the single run.
pub proof fn lemma_all_letters_one_run(s: Seq<char>, gap: bool)
    requires
        s.len() > 0,
        forall|j: int| 0 <= j < s.len() ==> in_kind(#[trigger] s[j], gap),
    ensures
        runs(s, gap) == seq![(0int, s.len() as int)],
{
    lemma_runs_are_the_maximal_runs(s, gap);
    let all = runs(s, gap);
    assert(in_kind(s[0], gap));
    let k = choose|k: int| 0 <= k < all.len() && (#[trigger] all[k]).0 <= 0 < all[k].1;
    assert(is_maximal_run(s, all[k].0, all[k].1, gap));
    if all[k].1 < s.len() {
        assert(in_kind(s[all[k].1], gap));
    }
    if all.len() > 1 {
        let m = if k == 0 { 1int } else { 0int };
        assert(is_maximal_run(s, all[m].0, all[m].1, gap));
        if k < m {
            assert(all[k].1 < all[m].0);
        } else {
            assert(all[m].1 < all[k].0);
        }
    }
    assert(all =~= seq![(0int, s.len() as int)]);
}

/// A sequence whose last letter is of the wanted kind ends in a run: the
/// last run reaches the end of the sequence.
pub proof fn lemma_trailing_run_reaches_end(s: Seq<char>, gap: bool)
    requires
        s.len() > 0,
        in_kind(s.last(), gap),
    ensures
        runs(s, gap).len() > 0,
        runs(s, gap).last().1 == s.len(),
{
    lemma_run_start(s, s.len() - 1, gap);
}

} // verus!
