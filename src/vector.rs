//! Sparse ternary vectors: the coordinates valued +1 and those valued -1.

use vstd::prelude::*;

verus! {

/// A sparse ternary vector. Every coordinate not listed is 0.
#[derive(Clone, Debug, PartialEq, Eq)]
pub struct SparseVec {
    /// Coordinates valued +1.
    pub pos: Vec<usize>,
    /// Coordinates valued -1.
    pub neg: Vec<usize>,
}

/// The mathematical content of a vector: its +1 and -1 coordinate lists.
pub type VecModel = (Seq<usize>, Seq<usize>);

impl View for SparseVec {
    type V = VecModel;

    open spec fn view(&self) -> VecModel {
        (self.pos@, self.neg@)
    }
}

/// Each element is smaller than the next: sorted with no repetition.
pub open spec fn strictly_ascending(s: Seq<usize>) -> bool {
    forall|i: int, j: int| 0 <= i < j < s.len() ==> s[i] < s[j]
}

/// No coordinate is listed in both `a` and `b`.
pub open spec fn disjoint(a: Seq<usize>, b: Seq<usize>) -> bool {
    forall|i: int, j: int| 0 <= i < a.len() && 0 <= j < b.len() ==> a[i] != b[j]
}

/// The stored form of a vector: both lists strictly ascending, and disjoint.
pub open spec fn is_canonical(m: VecModel) -> bool {
    &&& strictly_ascending(m.0)
    &&& strictly_ascending(m.1)
    &&& disjoint(m.0, m.1)
}

/// The views of a sequence of vectors.
pub open spec fn models(vs: Seq<SparseVec>) -> Seq<VecModel> {
    vs.map_values(|v: SparseVec| v@)
}

/// Two strictly ascending lists that hold the same coordinates are the same list.
pub proof fn lemma_ascending_unique(a: Seq<usize>, b: Seq<usize>)
    requires
        strictly_ascending(a),
        strictly_ascending(b),
        a.to_set() == b.to_set(),
    ensures
        a == b,
    decreases a.len(),
{
    if a.len() == 0 {
        if b.len() > 0 {
            assert(b.to_set().contains(b[0]));
        }
        assert(a =~= b);
    } else {
        if b.len() == 0 {
            assert(a.to_set().contains(a[0]));
        } else {
            let la = a.last();
            let lb = b.last();
            assert(a.to_set().contains(la));
            assert(b.to_set().contains(lb));
            assert(b.contains(la));
            assert(a.contains(lb));
            assert(la == lb);
            let a2 = a.drop_last();
            let b2 = b.drop_last();
            assert forall|x: usize| a2.to_set().contains(x) implies b2.to_set().contains(x) by {
                assert(a2.contains(x));
                assert(a.contains(x));
                assert(a.to_set().contains(x));
                assert(b.to_set().contains(x));
                assert(b.contains(x));
                let j = choose|j: int| 0 <= j < b.len() && b[j] == x;
                let i = choose|i: int| 0 <= i < a2.len() && a2[i] == x;
                assert(x < la);
                assert(j != b.len() - 1);
                assert(b2[j] == x);
            }
            assert forall|x: usize| b2.to_set().contains(x) implies a2.to_set().contains(x) by {
                assert(b2.contains(x));
                assert(b.contains(x));
                assert(b.to_set().contains(x));
                assert(a.to_set().contains(x));
                assert(a.contains(x));
                let j = choose|j: int| 0 <= j < a.len() && a[j] == x;
                let i = choose|i: int| 0 <= i < b2.len() && b2[i] == x;
                assert(x < lb);
                assert(j != a.len() - 1);
                assert(a2[j] == x);
            }
            assert(a2.to_set() =~= b2.to_set());
            lemma_ascending_unique(a2, b2);
            assert(a =~= a2.push(la));
            assert(b =~= b2.push(lb));
        }
    }
}

} // verus!
