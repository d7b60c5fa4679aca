//! Sequential multinomial allocation: a total count is spread over bins by
//! one conditional draw per bin, and the last bin absorbs what is left.

use vstd::prelude::*;

verus! {

/// The sum of a sequence of counts.
pub open spec fn total(counts: Seq<i32>) -> int
    decreases counts.len(),
{
    if counts.len() == 0 {
        0
    } else {
        total(counts.drop_last()) + counts.last()
    }
}

/// What a bin receives from a draw: the drawn count, capped by what is still
/// left to allocate.
pub open spec fn share(remaining: int, drawn: u64) -> int {
    if drawn < remaining {
        drawn as int
    } else {
        remaining
    }
}

/// The outcomes that `draw` can give, as a relation between the bin, the
/// number of trials and the drawn count, whatever the randomness source.
pub open spec fn outcomes<R, D: Fn(&mut R, usize, u64) -> u64>(draw: &D) -> spec_fn(int, int, u64) -> bool {
    |bin: int, trials: int, drawn: u64|
        exists|g: &mut R| #[trigger] draw.ensures((g, bin as usize, trials as u64), drawn)
}

/// Bin `i` of `x` holds the share of a draw that `outcome` admits for that
/// bin, made with as many trials as the earlier bins left over from `n`.
pub open spec fn bin_filled(outcome: spec_fn(int, int, u64) -> bool, n: int, x: Seq<i32>, i: int) -> bool {
    exists|drawn: u64|
        #[trigger] outcome(i, n - total(x.take(i)), drawn) && x[i] == share(n - total(x.take(i)), drawn)
}

/// `x` allocates `n` over its bins: every bin but the last is filled by a
/// draw, and the last bin holds the remainder.
pub open spec fn is_allocation(outcome: spec_fn(int, int, u64) -> bool, n: int, x: Seq<i32>) -> bool {
    &&& x.len() >= 1
    &&& forall|i: int| 0 <= i < x.len() - 1 ==> #[trigger] bin_filled(outcome, n, x, i)
    &&& x.last() == n - total(x.drop_last())
}

/// Appending a count adds it to the total.
pub proof fn lemma_total_push(counts: Seq<i32>, c: i32)
    ensures
        total(counts.push(c)) == total(counts) + c,
{
    assert(counts.push(c).drop_last() =~= counts);
}

/// One more count in a prefix adds that count to the prefix's total.
proof fn lemma_total_take_step(counts: Seq<i32>, i: int)
    requires
        0 <= i < counts.len(),
    ensures
        total(counts.take(i + 1)) == total(counts.take(i)) + counts[i],
{
    assert(counts.take(i + 1).drop_last() =~= counts.take(i));
}

/// What is left of `n` before bin `i` is never negative, and every earlier
/// bin holds between zero and `n`.
proof fn lemma_allocation_prefix(outcome: spec_fn(int, int, u64) -> bool, n: int, x: Seq<i32>, i: int)
    requires
        n >= 0,
        is_allocation(outcome, n, x),
        0 <= i < x.len(),
    ensures
        0 <= total(x.take(i)) <= n,
        forall|j: int| 0 <= j < i ==> 0 <= #[trigger] x[j] <= n,
    decreases i,
{
    if i > 0 {
        lemma_allocation_prefix(outcome, n, x, i - 1);
        lemma_total_take_step(x, i - 1);
        assert(bin_filled(outcome, n, x, i - 1));
    }
}

/// Conservation: an allocation of a non-negative `n` sums to exactly `n`,
/// and each of its bins holds between zero and `n`, whatever was drawn.
pub proof fn lemma_allocation_conserves(outcome: spec_fn(int, int, u64) -> bool, n: int, x: Seq<i32>)
    requires
        n >= 0,
        is_allocation(outcome, n, x),
    ensures
        total(x) == n,
        forall|i: int| 0 <= i < x.len() ==> 0 <= #[trigger] x[i] <= n,
{
    let last = x.len() - 1;
    lemma_allocation_prefix(outcome, n, x, last);
    assert(x.take(last) =~= x.drop_last());
}

/// `outcome` admits at most one drawn count for each bin and number of
/// trials.
pub open spec fn is_single_valued(outcome: spec_fn(int, int, u64) -> bool) -> bool {
    forall|bin: int, trials: int, a: u64, b: u64|
        #[trigger] outcome(bin, trials, a) && #[trigger] outcome(bin, trials, b) ==> a == b
}

/// Two allocations of `n` by a single-valued relation agree on their first
/// `i` bins.
proof fn lemma_allocations_share_prefix(
    outcome: spec_fn(int, int, u64) -> bool,
    n: int,
    x: Seq<i32>,
    y: Seq<i32>,
    i: int,
)
    requires
        is_single_valued(outcome),
        is_allocation(outcome, n, x),
        is_allocation(outcome, n, y),
        x.len() == y.len(),
        0 <= i < x.len(),
    ensures
        x.take(i) == y.take(i),
    decreases i,
{
    if i == 0 {
        assert(x.take(0) =~= y.take(0));
    } else {
        lemma_allocations_share_prefix(outcome, n, x, y, i - 1);
        assert(bin_filled(outcome, n, x, i - 1));
        assert(bin_filled(outcome, n, y, i - 1));
        assert(x[i - 1] == y[i - 1]);
        assert(x.take(i) =~= x.take(i - 1).push(x[i - 1]));
        assert(y.take(i) =~= y.take(i - 1).push(y[i - 1]));
    }
}

/// Determinism: where every draw is a function of what it is asked, two
/// allocations of the same count over the same number of bins are the same.
pub proof fn lemma_allocation_is_determined(
    outcome: spec_fn(int, int, u64) -> bool,
    n: int,
    x: Seq<i32>,
    y: Seq<i32>,
)
    requires
        is_single_valued(outcome),
        is_allocation(outcome, n, x),
        is_allocation(outcome, n, y),
        x.len() == y.len(),
    ensures
        x == y,
{
    let last = x.len() - 1;
    lemma_allocations_share_prefix(outcome, n, x, y, last);
    assert(x.take(last) =~= x.drop_last());
    assert(y.take(last) =~= y.drop_last());
    assert(x =~= x.drop_last().push(x.last()));
    assert(y =~= y.drop_last().push(y.last()));
}

/// An allocation by one relation is an allocation by any relation that
/// admits at least the same outcomes.
pub proof fn lemma_allocation_widens(
    narrow: spec_fn(int, int, u64) -> bool,
    wide: spec_fn(int, int, u64) -> bool,
    n: int,
    x: Seq<i32>,
)
    requires
        is_allocation(narrow, n, x),
        forall|bin: int, trials: int, drawn: u64| #[trigger] narrow(bin, trials, drawn) ==> wide(bin, trials, drawn),
    ensures
        is_allocation(wide, n, x),
{
    assert forall|i: int| 0 <= i < x.len() - 1 implies #[trigger] bin_filled(wide, n, x, i) by {
        assert(bin_filled(narrow, n, x, i));
    }
}

/// The count that a bin takes from a draw made with `remaining` trials.
pub fn allot(remaining: i32, drawn: u64) -> (count: i32)
    ensures
        count == share(remaining as int, drawn),
{
    if remaining >= 0 && drawn < remaining as u64 {
        drawn as i32
    } else {
        remaining
    }
}

/// Spreads `n` over `bins` bins. For each bin but the last, `draw` is asked
/// for a count out of what is still left, given the bin's index and the
/// number of trials; the bin takes that count, capped by what is left. The
/// last bin takes the remainder, so the bins always sum to `n`.
pub fn sample_multinomial<R, D: Fn(&mut R, usize, u64) -> u64>(
    r: &mut R,
    draw: &D,
    bins: usize,
    n: i32,
) -> (x: Vec<i32>)
    requires
        bins >= 1,
        n >= 0,
        forall|g: &mut R, bin: usize, trials: u64|
            bin < bins - 1 && trials <= n ==> #[trigger] draw.requires((g, bin, trials)),
    ensures
        x.len() == bins,
        is_allocation(outcomes(draw), n as int, x@),
        total(x@) == n,
        forall|i: int| 0 <= i < bins ==> 0 <= #[trigger] x[i] <= n,
{
    let mut x: Vec<i32> = Vec::new();
    let mut s: i32 = n;
    let mut i: usize = 0;
    while i < bins - 1
        invariant
            bins >= 1,
            i <= bins - 1,
            x.len() == i,
            0 <= s <= n,
            s == n - total(x@),
            forall|j: int| 0 <= j < i ==> #[trigger] bin_filled(outcomes(draw), n as int, x@, j),
            forall|g: &mut R, bin: usize, trials: u64|
                bin < bins - 1 && trials <= n ==> #[trigger] draw.requires((g, bin, trials)),
        decreases bins - 1 - i,
    {
        let drawn: u64 = draw(r, i, s as u64);
        let count: i32 = allot(s, drawn);
        proof {
            let ghost before = x@;
            let after = before.push(count);
            lemma_total_push(before, count);
            assert(after.take(i as int) =~= before);
            assert(outcomes(draw)(i as int, s as int, drawn));
            assert(bin_filled(outcomes(draw), n as int, after, i as int));
            assert forall|j: int| 0 <= j < i implies #[trigger] bin_filled(outcomes(draw), n as int, after, j) by {
                assert(bin_filled(outcomes(draw), n as int, before, j));
                assert(after.take(j) =~= before.take(j));
            }
        }
        x.push(count);
        s = s - count;
        i = i + 1;
    }
    proof {
        lemma_total_push(x@, s);
        assert(x@.push(s).drop_last() =~= x@);
        assert forall|j: int| 0 <= j < i implies #[trigger] bin_filled(outcomes(draw), n as int, x@.push(s), j) by {
            assert(bin_filled(outcomes(draw), n as int, x@, j));
            assert(x@.push(s).take(j) =~= x@.take(j));
        }
    }
    x.push(s);
    proof {
        lemma_allocation_conserves(outcomes(draw), n as int, x@);
    }
    x
}

} // verus!
