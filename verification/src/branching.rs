//! Generation sizes of a branching process: each generation is drawn from
//! the one before it, and an empty generation stays empty for good.

use vstd::prelude::*;

verus! {

/// The size of a generation, given the size of the one before it and the
/// count that was drawn for it. Nothing follows an empty generation, and a
/// draw below zero counts as zero.
pub open spec fn next_size(prev: int, drawn: int) -> int {
    if prev == 0 {
        0
    } else if drawn < 0 {
        0
    } else {
        drawn
    }
}

/// The outcomes that `offspring` can give, as a relation between the number
/// of parents and the drawn count, whatever the randomness source.
pub open spec fn litters<R, O: Fn(&mut R, i32) -> i32>(offspring: &O) -> spec_fn(i32, i32) -> bool {
    |parents: i32, drawn: i32|
        exists|g: &mut R| #[trigger] offspring.ensures((g, parents), drawn)
}

/// Generation `k` of `sizes` follows from generation `k - 1`: it is empty
/// if that one is, and otherwise holds a draw that `litter` admits for that
/// many parents.
pub open spec fn follows(litter: spec_fn(i32, i32) -> bool, sizes: Seq<i32>, k: int) -> bool {
    if sizes[k - 1] == 0 {
        sizes[k] == 0
    } else {
        exists|drawn: i32|
            #[trigger] litter(sizes[k - 1], drawn) && sizes[k] == next_size(
                sizes[k - 1] as int,
                drawn as int,
            )
    }
}

/// `sizes` is a run of generations that starts with `initial` cases.
pub open spec fn is_lineage(litter: spec_fn(i32, i32) -> bool, initial: int, sizes: Seq<i32>) -> bool {
    &&& sizes.len() >= 1 ==> sizes[0] == initial
    &&& forall|k: int| 1 <= k < sizes.len() ==> #[trigger] follows(litter, sizes, k)
}

/// Absorbing extinction: once a generation of a lineage is empty, every
/// later generation is empty too, whatever could have been drawn.
pub proof fn lemma_extinction_is_absorbing(
    litter: spec_fn(i32, i32) -> bool,
    initial: int,
    sizes: Seq<i32>,
    j: int,
    k: int,
)
    requires
        is_lineage(litter, initial, sizes),
        0 <= j <= k < sizes.len(),
        sizes[j] == 0,
    ensures
        sizes[k] == 0,
    decreases k - j,
{
    if j < k {
        lemma_extinction_is_absorbing(litter, initial, sizes, j, k - 1);
        assert(follows(litter, sizes, k));
    }
}

/// No generation of a lineage that starts with a non-negative count is
/// negative.
pub proof fn lemma_lineage_is_nonnegative(
    litter: spec_fn(i32, i32) -> bool,
    initial: int,
    sizes: Seq<i32>,
    k: int,
)
    requires
        is_lineage(litter, initial, sizes),
        initial >= 0,
        0 <= k < sizes.len(),
    ensures
        sizes[k] >= 0,
{
    if k > 0 {
        assert(follows(litter, sizes, k));
    }
}

/// `litter` admits at most one drawn count for each number of parents.
pub open spec fn is_single_valued(litter: spec_fn(i32, i32) -> bool) -> bool {
    forall|parents: i32, a: i32, b: i32| #[trigger] litter(parents, a) && #[trigger] litter(parents, b) ==> a == b
}

/// Two lineages by a single-valued relation that start with the same count
/// agree on generation `k`.
proof fn lemma_lineages_agree(litter: spec_fn(i32, i32) -> bool, initial: int, a: Seq<i32>, b: Seq<i32>, k: int)
    requires
        is_single_valued(litter),
        is_lineage(litter, initial, a),
        is_lineage(litter, initial, b),
        0 <= k < a.len(),
        k < b.len(),
    ensures
        a[k] == b[k],
    decreases k,
{
    if k > 0 {
        lemma_lineages_agree(litter, initial, a, b, k - 1);
        assert(follows(litter, a, k));
        assert(follows(litter, b, k));
    }
}

/// Determinism: where every draw is a function of what it is asked, two
/// lineages of the same length that start with the same count are the same.
pub proof fn lemma_lineage_is_determined(litter: spec_fn(i32, i32) -> bool, initial: int, a: Seq<i32>, b: Seq<i32>)
    requires
        is_single_valued(litter),
        is_lineage(litter, initial, a),
        is_lineage(litter, initial, b),
        a.len() == b.len(),
    ensures
        a == b,
{
    assert forall|k: int| 0 <= k < a.len() implies a[k] == b[k] by {
        lemma_lineages_agree(litter, initial, a, b, k);
    }
    assert(a =~= b);
}

/// The size of the generation that follows one of `prev` cases, for which
/// `drawn` was drawn.
pub fn next_generation(prev: i32, drawn: i32) -> (size: i32)
    ensures
        size == next_size(prev as int, drawn as int),
{
    if prev == 0 {
        0
    } else if drawn < 0 {
        0
    } else {
        drawn
    }
}

/// The first `ngen` generation sizes of an outbreak that starts with
/// `initial` cases. `offspring` is asked for the size of each further
/// generation, given the size of the one before it, as long as that one is
/// not empty; after an empty generation it is never asked again.
pub fn generation_sizes<R, O: Fn(&mut R, i32) -> i32>(
    r: &mut R,
    offspring: &O,
    initial: i32,
    ngen: usize,
) -> (sizes: Vec<i32>)
    requires
        initial >= 0,
        forall|g: &mut R, parents: i32| parents > 0 ==> #[trigger] offspring.requires((g, parents)),
    ensures
        sizes.len() == ngen,
        is_lineage(litters(offspring), initial as int, sizes@),
        forall|k: int| 0 <= k < ngen ==> #[trigger] sizes[k] >= 0,
{
    let mut sizes: Vec<i32> = Vec::new();
    if ngen == 0 {
        return sizes;
    }
    sizes.push(initial);
    let mut prev: i32 = initial;
    let mut k: usize = 1;
    while k < ngen
        invariant
            1 <= k <= ngen,
            sizes.len() == k,
            sizes[0] == initial,
            prev == sizes[k - 1],
            forall|i: int| 0 <= i < k ==> #[trigger] sizes[i] >= 0,
            forall|i: int| 1 <= i < k ==> #[trigger] follows(litters(offspring), sizes@, i),
            forall|g: &mut R, parents: i32| parents > 0 ==> #[trigger] offspring.requires((g, parents)),
        decreases ngen - k,
    {
        let ghost before = sizes@;
        let mut size: i32 = 0;
        if prev != 0 {
            let drawn: i32 = offspring(r, prev);
            size = next_generation(prev, drawn);
            proof {
                assert(litters(offspring)(prev, drawn));
            }
        }
        sizes.push(size);
        proof {
            assert(follows(litters(offspring), sizes@, k as int));
            assert forall|i: int| 1 <= i < k implies #[trigger] follows(litters(offspring), sizes@, i) by {
                assert(follows(litters(offspring), before, i));
            }
        }
        prev = size;
        k = k + 1;
    }
    sizes
}

} // verus!
