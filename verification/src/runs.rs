//! Runs of marked entries in a sequence where some entries do not count.

use vstd::prelude::*;

verus! {

/// How an entry takes part in the search for runs.
#[derive(Debug, Clone, Copy, PartialEq, Eq, Structural)]
pub enum Mark {
    /// The entry does not count: it neither joins a run nor ends one.
    Skip,
    /// The entry can be part of a run.
    Yes,
    /// The entry ends a run.
    No,
}

/// The mark of the last of the first `n` entries that counts.
pub open spec fn last_mark_upto(marks: Seq<Mark>, n: int) -> Mark
    decreases n,
{
    if n <= 0 {
        Mark::Skip
    } else if marks[n - 1] != Mark::Skip {
        marks[n - 1]
    } else {
        last_mark_upto(marks, n - 1)
    }
}

/// The mark of the first entry at or after `i` that counts.
pub open spec fn next_mark_from(marks: Seq<Mark>, i: int) -> Mark
    decreases marks.len() - i,
{
    if i >= marks.len() || i < 0 {
        Mark::Skip
    } else if marks[i] != Mark::Skip {
        marks[i]
    } else {
        next_mark_from(marks, i + 1)
    }
}

/// Whether entry `i` is marked and has a marked neighbour among the entries
/// that count: it belongs to a run of two or more.
pub open spec fn in_run(marks: Seq<Mark>, i: int) -> bool {
    marks[i] == Mark::Yes && (last_mark_upto(marks, i) == Mark::Yes || next_mark_from(marks, i + 1)
        == Mark::Yes)
}

/// For each entry, whether it belongs to a run of two or more.
pub fn run_flags(marks: &Vec<Mark>) -> (r: Vec<bool>)
    ensures
        r.len() == marks.len(),
        forall|i: int| 0 <= i < marks.len() ==> r@[i] == in_run(marks@, i),
{
    let n = marks.len();
    // nexts[i] is the mark of the first entry after i that counts
    let mut nexts: Vec<Mark> = Vec::new();
    let mut k: usize = 0;
    while k < n
        invariant
            k <= n,
            nexts.len() == k,
        decreases n - k,
    {
        nexts.push(Mark::Skip);
        k += 1;
    }
    let mut i: usize = n;
    let mut next = Mark::Skip;
    while i > 0
        invariant
            i <= n,
            n == marks.len(),
            nexts.len() == n,
            next == next_mark_from(marks@, i as int),
            forall|j: int| i <= j < n ==> nexts@[j] == next_mark_from(marks@, j + 1),
        decreases i,
    {
        i -= 1;
        nexts[i] = next;
        if marks[i] != Mark::Skip {
            next = marks[i];
        }
    }
    let mut r: Vec<bool> = Vec::new();
    let mut last = Mark::Skip;
    let mut j: usize = 0;
    while j < n
        invariant
            j <= n,
            n == marks.len(),
            nexts.len() == n,
            r.len() == j,
            last == last_mark_upto(marks@, j as int),
            forall|k: int| 0 <= k < n ==> nexts@[k] == next_mark_from(marks@, k + 1),
            forall|k: int| 0 <= k < j ==> r@[k] == in_run(marks@, k),
        decreases n - j,
    {
        r.push(marks[j] == Mark::Yes && (last == Mark::Yes || nexts[j] == Mark::Yes));
        if marks[j] != Mark::Skip {
            last = marks[j];
        }
        j += 1;
    }
    r
}

} // verus!
