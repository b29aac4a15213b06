//! Deterministic generation: one vector per index, a pure function of the
//! master seed, the index, the dimension and the sparsity.

use crate::vector::{is_canonical, lemma_ascending_unique, strictly_ascending, SparseVec, VecModel};
use rand::seq::SliceRandom;
use rand::SeedableRng;
use rand_chacha::ChaCha8Rng;
use rayon::iter::{IntoParallelIterator, ParallelIterator};
use vstd::prelude::*;

verus! {

/// Odd 64-bit multiplier that spreads consecutive indices over the seed space.
pub const SEED_MIXER: u64 = 0x517cc1b727220a95;

/// Dimension of the vectors of a default configuration.
pub const DEFAULT_DIMENSION: usize = 10000;

/// The seed of the vector at `index`: `(master_seed + index) * SEED_MIXER`,
/// both operations wrapping at 2^64.
pub open spec fn vector_seed(master_seed: u64, index: int) -> u64 {
    (((master_seed as int + index) % 0x1_0000_0000_0000_0000) * SEED_MIXER as int
        % 0x1_0000_0000_0000_0000) as u64
}

/// The order in which a ChaCha8 generator seeded with `seed` shuffles `items`.
pub uninterp spec fn chacha_shuffle(seed: u64, items: Seq<usize>) -> Seq<usize>;

/// `0, 1, ..., n - 1`.
pub open spec fn coordinates(n: nat) -> Seq<usize> {
    Seq::new(n, |i: int| i as usize)
}

/// The random permutation of `[0, dimension)` drawn from `seed`.
pub open spec fn permutation_of(seed: u64, dimension: nat) -> Seq<usize> {
    chacha_shuffle(seed, coordinates(dimension))
}

/// `s` rearranged in ascending order.
pub open spec fn ascending_order(s: Seq<usize>) -> Seq<usize> {
    s.sort_by(|a: usize, b: usize| a <= b)
}

/// The vector drawn from `seed`: the first `sparsity` values of the
/// permutation are its +1 coordinates, the next `sparsity` its -1
/// coordinates, each list in ascending order.
pub open spec fn drawn_vector(seed: u64, dimension: nat, sparsity: nat) -> VecModel {
    let p = permutation_of(seed, dimension);
    (
        ascending_order(p.subrange(0, sparsity as int)),
        ascending_order(p.subrange(sparsity as int, 2 * sparsity as int)),
    )
}

/// `m` is canonical and has `sparsity` coordinates of each sign, all below
/// `dimension`.
pub open spec fn well_shaped(m: VecModel, dimension: nat, sparsity: nat) -> bool {
    &&& is_canonical(m)
    &&& m.0.len() == sparsity
    &&& m.1.len() == sparsity
    &&& forall|i: int| 0 <= i < m.0.len() ==> m.0[i] < dimension
    &&& forall|i: int| 0 <= i < m.1.len() ==> m.1[i] < dimension
}

/// The vector at `index` of the dataset of `master_seed`.
pub open spec fn generated_vector(
    master_seed: u64,
    index: int,
    dimension: nat,
    sparsity: nat,
) -> VecModel {
    drawn_vector(vector_seed(master_seed, index), dimension, sparsity)
}

/// The `n` vectors from index `start` on of the dataset of `master_seed`.
pub open spec fn generated_vectors(
    master_seed: u64,
    start: int,
    n: nat,
    dimension: nat,
    sparsity: nat,
) -> Seq<VecModel> {
    Seq::new(n, |j: int| generated_vector(master_seed, start + j, dimension, sparsity))
}

/// Relies on `ChaCha8Rng::seed_from_u64` (rand_chacha) and `SliceRandom::shuffle`
/// (rand): a Fisher-Yates shuffle, a sequence of swaps chosen by the generator,
/// whose state depends on the seed alone.
#[verifier::external_body]
fn shuffle_seeded(items: &mut Vec<usize>, seed: u64)
    ensures
        final(items)@ == chacha_shuffle(seed, old(items)@),
        final(items)@.to_multiset() == old(items)@.to_multiset(),
{
    let mut rng = ChaCha8Rng::seed_from_u64(seed);
    items.shuffle(&mut rng);
}

/// Relies on `slice::sort_unstable`: the same elements, in ascending order.
#[verifier::external_body]
fn sort_ascending(items: &mut Vec<usize>)
    ensures
        final(items)@.to_multiset() == old(items)@.to_multiset(),
        forall|i: int, j: int|
            0 <= i <= j < final(items)@.len() ==> final(items)@[i] <= final(items)@[j],
{
    items.sort_unstable();
}

/// Relies on rayon's parallel `map` over an index range and its `collect`,
/// which keeps index order; each item is made by `generate_vector`.
#[verifier::external_body]
pub(crate) fn generate_range(
    master_seed: u64,
    start: usize,
    end: usize,
    dimension: usize,
    sparsity: usize,
) -> (r: Vec<SparseVec>)
    requires
        start <= end,
        2 * sparsity <= dimension,
    ensures
        r@.len() == end - start,
        forall|j: int|
            0 <= j < r@.len() ==> #[trigger] r@[j]@ == generated_vector(
                master_seed,
                start + j,
                dimension as nat,
                sparsity as nat,
            ) && well_shaped(r@[j]@, dimension as nat, sparsity as nat),
{
    (start..end).into_par_iter().map(|i| generate_vector(master_seed, i, dimension, sparsity)).collect()
}

/// The seed of the vector at `index`.
pub fn per_vector_seed(master_seed: u64, index: usize) -> (r: u64)
    ensures
        r == vector_seed(master_seed, index as int),
{
    master_seed.wrapping_add(index as u64).wrapping_mul(SEED_MIXER)
}

proof fn lemma_sorted_distinct_ascending(s: Seq<usize>)
    requires
        forall|i: int, j: int| 0 <= i < j < s.len() ==> s[i] <= s[j],
        s.no_duplicates(),
    ensures
        strictly_ascending(s),
{
}

proof fn lemma_same_multiset_no_duplicates(a: Seq<usize>, b: Seq<usize>)
    requires
        a.no_duplicates(),
        a.to_multiset() == b.to_multiset(),
    ensures
        b.no_duplicates(),
        a.to_set() == b.to_set(),
        a.len() == b.len(),
{
    broadcast use vstd::seq_lib::group_to_multiset_ensures;
    assert(a.len() == a.to_multiset().len());
    assert(b.len() == b.to_multiset().len());
    a.lemma_multiset_has_no_duplicates();
    b.lemma_multiset_has_no_duplicates_conv();
    assert forall|x: usize| a.to_set().contains(x) <==> b.to_set().contains(x) by {
        assert(a.contains(x) <==> a.to_multiset().count(x) > 0);
        assert(b.contains(x) <==> b.to_multiset().count(x) > 0);
    }
    assert(a.to_set() =~= b.to_set());
}

/// `items[from..to]`, sorted ascending.
fn sorted_slice(items: &Vec<usize>, from: usize, to: usize) -> (r: Vec<usize>)
    requires
        from <= to <= items@.len(),
        items@.no_duplicates(),
    ensures
        r@ == ascending_order(items@.subrange(from as int, to as int)),
        strictly_ascending(r@),
        r@.len() == to - from,
        r@.to_set() == items@.subrange(from as int, to as int).to_set(),
{
    let mut r: Vec<usize> = Vec::new();
    let mut i: usize = from;
    while i < to
        invariant
            from <= i <= to <= items@.len(),
            r@ == items@.subrange(from as int, i as int),
        decreases to - i,
    {
        r.push(items[i]);
        i = i + 1;
        assert(r@ =~= items@.subrange(from as int, i as int));
    }
    let ghost unsorted = r@;
    assert(unsorted.no_duplicates());
    sort_ascending(&mut r);
    proof {
        broadcast use vstd::seq_lib::group_to_multiset_ensures;
        lemma_same_multiset_no_duplicates(unsorted, r@);
        lemma_sorted_distinct_ascending(r@);
        assert(r@.len() == r@.to_multiset().len());
        assert(unsorted.len() == unsorted.to_multiset().len());
        let leq = |a: usize, b: usize| a <= b;
        assert(vstd::relations::total_ordering(leq));
        unsorted.lemma_sort_by_ensures(leq);
        let sorted = ascending_order(unsorted);
        assert(vstd::relations::sorted_by(sorted, leq));
        assert forall|i: int, j: int| 0 <= i < j < sorted.len() implies sorted[i] <= sorted[j] by {
            assert(leq(sorted[i], sorted[j]));
        }
        lemma_same_multiset_no_duplicates(unsorted, sorted);
        lemma_sorted_distinct_ascending(sorted);
        lemma_ascending_unique(r@, sorted);
    }
    r
}

/// The vector drawn from the seed `seed`.
fn generate_sparse_vec(seed: u64, dimension: usize, sparsity: usize) -> (r: SparseVec)
    requires
        2 * sparsity <= dimension,
    ensures
        r@ == drawn_vector(seed, dimension as nat, sparsity as nat),
        well_shaped(r@, dimension as nat, sparsity as nat),
{
    let mut indices: Vec<usize> = Vec::new();
    let mut i: usize = 0;
    while i < dimension
        invariant
            i <= dimension,
            indices@ == coordinates(i as nat),
        decreases dimension - i,
    {
        indices.push(i);
        i = i + 1;
        assert(indices@ =~= coordinates(i as nat));
    }
    let ghost ordered = indices@;
    assert(ordered.no_duplicates());
    shuffle_seeded(&mut indices, seed);
    proof {
        lemma_same_multiset_no_duplicates(ordered, indices@);
    }
    let pos = sorted_slice(&indices, 0, sparsity);
    let neg = sorted_slice(&indices, sparsity, 2 * sparsity);
    proof {
        let p = indices@;

        let front = p.subrange(0, sparsity as int);
        let back = p.subrange(sparsity as int, 2 * sparsity as int);
        assert forall|i: int, j: int|
            0 <= i < pos@.len() && 0 <= j < neg@.len() implies pos@[i] != neg@[j] by {
            assert(pos@.to_set().contains(pos@[i]));
            assert(neg@.to_set().contains(neg@[j]));
            assert(front.contains(pos@[i]));
            assert(back.contains(neg@[j]));
            let a = choose|a: int|
                0 <= a < front.len() && front[a] == pos@[i];
            let b = choose|b: int|
                0 <= b < back.len() && back[b] == neg@[j];
            assert(p[a] == pos@[i]);
            assert(p[sparsity + b] == neg@[j]);
        }
        assert forall|i: int| 0 <= i < pos@.len() implies pos@[i] < dimension by {
            assert(pos@.to_set().contains(pos@[i]));
            assert(front.contains(pos@[i]));
            let a = choose|a: int|
                0 <= a < front.len() && front[a] == pos@[i];
            assert(p[a] == pos@[i]);
            assert(p.to_set().contains(p[a]));
            assert(ordered.to_set().contains(p[a]));
            assert(ordered.contains(p[a]));
        }
        assert forall|i: int| 0 <= i < neg@.len() implies neg@[i] < dimension by {
            assert(neg@.to_set().contains(neg@[i]));
            assert(back.contains(neg@[i]));
            let b = choose|b: int|
                0 <= b < back.len() && back[b] == neg@[i];
            assert(p[sparsity + b] == neg@[i]);
            assert(p.to_set().contains(p[sparsity + b]));
            assert(ordered.to_set().contains(p[sparsity + b]));
            assert(ordered.contains(p[sparsity + b]));
        }
    }
    SparseVec { pos, neg }
}

/// The vector at `index` of the dataset of `master_seed`.
pub fn generate_vector(master_seed: u64, index: usize, dimension: usize, sparsity: usize) -> (r:
    SparseVec)
    requires
        2 * sparsity <= dimension,
    ensures
        r@ == generated_vector(master_seed, index as int, dimension as nat, sparsity as nat),
        well_shaped(r@, dimension as nat, sparsity as nat),
{
    let seed = per_vector_seed(master_seed, index);
    generate_sparse_vec(seed, dimension, sparsity)
}

/// The vector at an index does not depend on how the work is split: a batch
/// of `n` vectors that starts at `start` holds at its position `j` the vector
/// at index `start + j` of the whole dataset.
pub proof fn lemma_generation_deterministic(
    master_seed: u64,
    start: nat,
    n: nat,
    j: int,
    dimension: nat,
    sparsity: nat,
)
    requires
        0 <= j < n,
    ensures
        generated_vectors(master_seed, start as int, n, dimension, sparsity)[j] == generated_vectors(
            master_seed,
            0,
            start + n,
            dimension,
            sparsity,
        )[start + j],
        generated_vectors(master_seed, start as int, n, dimension, sparsity)[j] == generated_vector(
            master_seed,
            start + j,
            dimension,
            sparsity,
        ),
{
}

} // verus!
