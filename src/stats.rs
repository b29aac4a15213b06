//! Scoring of retrieval runs: nearest-rank latency percentiles and recall
//! of an approximate top-k against the exact one.

use vstd::prelude::*;

verus! {

/// The nearest rank of the `q_percent` percentile among `n` sorted values:
/// `(n - 1) * q / 100` rounded to the nearest integer, halves rounded up.
pub open spec fn nearest_rank(n: nat, q_percent: nat) -> int {
    ((n - 1) * q_percent + 50) / 100
}

/// The values are in ascending order.
pub open spec fn sorted_ascending(s: Seq<u64>) -> bool {
    forall|i: int, j: int| 0 <= i <= j < s.len() ==> s[i] <= s[j]
}

/// The `q_percent` percentile of ascending values, by the nearest-rank
/// method; 0 where there are none.
pub fn quantile(sorted: &Vec<u64>, q_percent: u64) -> (r: u64)
    requires
        q_percent <= 100,
    ensures
        sorted@.len() == 0 ==> r == 0,
        sorted@.len() > 0 ==> 0 <= nearest_rank(sorted@.len(), q_percent as nat) < sorted@.len()
            && r == sorted@[nearest_rank(sorted@.len(), q_percent as nat)],
{
    let n = sorted.len();
    if n == 0 {
        return 0;
    }
    let last: u64 = (n - 1) as u64;
    proof {
        assert(last * q_percent <= last * 100) by (nonlinear_arith)
            requires
                q_percent <= 100,
        ;
        assert(0 <= last * q_percent) by (nonlinear_arith);
    }
    let scaled: u128 = (last as u128) * (q_percent as u128) + 50;
    let idx: u128 = scaled / 100;
    proof {
        assert(((last * q_percent + 50) / 100) <= last) by (nonlinear_arith)
            requires
                last * q_percent <= last * 100,
        ;
    }
    sorted[idx as usize]
}

/// Number of ids found by both the approximate and the exact search.
pub open spec fn hits(approx: Seq<usize>, exact: Seq<usize>) -> nat {
    approx.to_set().intersect(exact.to_set()).len()
}

fn contains_id(s: &Vec<usize>, end: usize, x: usize) -> (r: bool)
    requires
        end <= s@.len(),
    ensures
        r == s@.subrange(0, end as int).contains(x),
{
    let mut i: usize = 0;
    while i < end
        invariant
            i <= end <= s@.len(),
            forall|k: int| 0 <= k < i ==> s@[k] != x,
        decreases end - i,
    {
        if s[i] == x {
            assert(s@.subrange(0, end as int)[i as int] == x);
            return true;
        }
        i = i + 1;
    }
    proof {
        if s@.subrange(0, end as int).contains(x) {
            let k = choose|k: int| 0 <= k < end && s@.subrange(0, end as int)[k] == x;
            assert(s@[k] == x);
        }
    }
    false
}

/// How many distinct ids of `exact` also occur in `approx`.
pub fn recall_hits(approx: &Vec<usize>, exact: &Vec<usize>) -> (r: usize)
    ensures
        r == hits(approx@, exact@),
{
    broadcast use vstd::set::group_set_axioms, vstd::seq_lib::seq_to_set_is_finite;

    let ghost a = approx@.to_set();
    let mut count: usize = 0;
    let mut j: usize = 0;
    proof {
        assert(exact@.subrange(0, 0).to_set() =~= Set::<usize>::empty());
        assert(a.intersect(Set::<usize>::empty()) =~= Set::<usize>::empty());
    }
    while j < exact.len()
        invariant
            j <= exact@.len(),
            a == approx@.to_set(),
            count == a.intersect(exact@.subrange(0, j as int).to_set()).len(),
            count <= j,
        decreases exact@.len() - j,
    {
        let x = exact[j];
        let ghost before = exact@.subrange(0, j as int).to_set();
        let seen = contains_id(exact, j, x);
        let found = contains_id(approx, approx.len(), x);
        proof {
            let after = exact@.subrange(0, j + 1 as int).to_set();
            assert(exact@.subrange(0, j + 1 as int) =~= exact@.subrange(0, j as int).push(x));
            exact@.subrange(0, j as int).lemma_push_to_set_commute(x);
            assert(after == before.insert(x));
            assert(approx@.subrange(0, approx@.len() as int) =~= approx@);
            if seen {
                assert(before.contains(x));
                assert(after =~= before);
            } else if found {
                assert(a.contains(x));
                assert(a.intersect(after) =~= a.intersect(before).insert(x));
                assert(!a.intersect(before).contains(x));
            } else {
                assert(!a.contains(x));
                assert(a.intersect(after) =~= a.intersect(before));
            }
        }
        if !seen && found {
            count = count + 1;
        }
        j = j + 1;
    }
    assert(exact@.subrange(0, exact@.len() as int) =~= exact@);
    count
}

/// Recall is a fraction: the hits are at most the number of exact ids; and
/// where the approximate ids are the exact ones, all distinct, every exact id
/// is a hit.
pub proof fn lemma_recall_bounds(approx: Seq<usize>, exact: Seq<usize>)
    ensures
        hits(approx, exact) <= exact.len(),
        approx.to_set() == exact.to_set() && exact.no_duplicates() ==> hits(approx, exact)
            == exact.len(),
{
    broadcast use vstd::set::group_set_axioms, vstd::seq_lib::seq_to_set_is_finite;

    vstd::set_lib::lemma_len_intersect(exact.to_set(), approx.to_set());
    assert(exact.to_set().intersect(approx.to_set()) =~= approx.to_set().intersect(
        exact.to_set(),
    ));
    exact.lemma_cardinality_of_set();
    if approx.to_set() == exact.to_set() && exact.no_duplicates() {
        assert(approx.to_set().intersect(exact.to_set()) =~= exact.to_set());
        exact.unique_seq_to_set();
    }
}

} // verus!
