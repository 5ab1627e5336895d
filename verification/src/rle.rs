//! Run-length encoding of byte streams: maximal runs of one repeated
//! value, never coalescing across a value change.

use vstd::prelude::*;

verus! {

/// One run: a value and how many times it repeats.
#[derive(Clone, Copy, Debug, PartialEq, Eq, Structural)]
pub struct Run {
    pub val: u8,
    pub length: usize,
}

/// How far the run starting at `from` reaches: the count of equal bytes
/// before the value changes or the stream ends.
pub open spec fn run_len(s: Seq<u8>, from: int) -> nat
    decreases s.len() - from,
{
    if from < 0 || from >= s.len() {
        0
    } else if from + 1 < s.len() && s[from + 1] == s[from] {
        1 + run_len(s, from + 1)
    } else {
        1
    }
}

/// A run is never empty and never reaches past the stream's end.
pub proof fn lemma_run_len_bounds(s: Seq<u8>, from: int)
    requires
        0 <= from < s.len(),
    ensures
        1 <= run_len(s, from) <= s.len() - from,
    decreases s.len() - from,
{
    if from + 1 < s.len() && s[from + 1] == s[from] {
        lemma_run_len_bounds(s, from + 1);
    }
}

/// The maximal runs of the stream from position `from` on, in order.
pub open spec fn spec_runs(s: Seq<u8>, from: int) -> Seq<Run>
    decreases s.len() - from,
    via spec_runs_decreases
{
    if from < 0 || from >= s.len() {
        Seq::empty()
    } else {
        seq![Run { val: s[from], length: run_len(s, from) as usize }]
            + spec_runs(s, from + run_len(s, from))
    }
}

#[via_fn]
proof fn spec_runs_decreases(s: Seq<u8>, from: int) {
    if 0 <= from < s.len() {
        lemma_run_len_bounds(s, from);
    }
}

/// A stream of equal bytes ending exactly where the equality stops is one
/// run of exactly that extent.
proof fn lemma_run_len_exact(s: Seq<u8>, start: int, end: int)
    requires
        0 <= start < end <= s.len(),
        forall|t: int| start < t < end ==> s[t] == s[start],
        end == s.len() || s[end] != s[start],
    ensures
        run_len(s, start) == end - start,
    decreases end - start,
{
    if start + 1 < end {
        lemma_run_len_exact(s, start + 1, end);
    }
}

/// There are never more runs than bytes.
pub proof fn lemma_runs_count(s: Seq<u8>, from: int)
    requires
        0 <= from,
    ensures
        spec_runs(s, from).len() <= s.len() - from || from >= s.len(),
        from < s.len() ==> spec_runs(s, from).len() >= 1,
    decreases s.len() - from,
{
    if from < s.len() {
        lemma_run_len_bounds(s, from);
        lemma_runs_count(s, from + run_len(s, from));
        assert(spec_runs(s, from).len() == 1 + spec_runs(s, from + run_len(s, from)).len());
    }
}

/// Splits a stream into its maximal runs of equal bytes. Every run is
/// reported, length-one runs included, in stream order.
pub fn make_runs(input: &Vec<u8>) -> (r: Vec<Run>)
    ensures
        r@ == spec_runs(input@, 0),
{
    let n = input.len();
    let mut runs: Vec<Run> = Vec::new();
    let mut i: usize = 0;
    while i < n
        invariant
            i <= n,
            n == input@.len(),
            runs@ + spec_runs(input@, i as int) == spec_runs(input@, 0),
        decreases n - i,
    {
        let v = input[i];
        let start = i;
        i += 1;
        while i < n && input[i] == v
            invariant
                start < i <= n,
                n == input@.len(),
                v == input@[start as int],
                forall|t: int| start < t < i ==> input@[t] == input@[start as int],
            decreases n - i,
        {
            i += 1;
        }
        proof {
            lemma_run_len_exact(input@, start as int, i as int);
        }
        runs.push(Run { val: v, length: i - start });
        proof {
            assert(runs@ + spec_runs(input@, i as int)
                =~= runs@.drop_last() + spec_runs(input@, start as int));
        }
    }
    proof {
        assert(runs@ =~= runs@ + spec_runs(input@, n as int));
    }
    runs
}

} // verus!
