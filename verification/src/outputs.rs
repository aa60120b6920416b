//! Semantic equality of two declared output lists.

use vstd::prelude::*;

use crate::record::File;

verus! {

/// Two output lists are equal when they have the same length and, position by
/// position, the same path and the same content-hash text. Order matters: a
/// reordering of the same outputs counts as a difference.
pub open spec fn outputs_same(a: Seq<File>, b: Seq<File>) -> bool {
    &&& a.len() == b.len()
    &&& forall|i: int|
        0 <= i < a.len() ==> {
            &&& (#[trigger] a[i]).path@ == b[i].path@
            &&& a[i].digest.hash@ == b[i].digest.hash@
        }
}

/// Decides whether two declared output lists are semantically equal:
/// same length, and at each index the same path and the same hash text.
pub fn outputs_are_same(a: &[File], b: &[File]) -> (r: bool)
    ensures
        r == outputs_same(a@, b@),
{
    if a.len() != b.len() {
        return false;
    }
    let n = a.len();
    let mut i: usize = 0;
    while i < n
        invariant
            n == a@.len() == b@.len(),
            0 <= i <= n,
            forall|j: int|
                0 <= j < i ==> {
                    &&& (#[trigger] a@[j]).path@ == b@[j].path@
                    &&& a@[j].digest.hash@ == b@[j].digest.hash@
                },
        decreases n - i,
    {
        if a[i].path != b[i].path {
            return false;
        }
        if a[i].digest.hash != b[i].digest.hash {
            return false;
        }
        i = i + 1;
    }
    true
}

/// Output equality is reflexive: a record's outputs equal themselves.
pub proof fn lemma_outputs_same_reflexive(a: Seq<File>)
    ensures
        outputs_same(a, a),
{
}

} // verus!
