//! A small builder utility for assembling byte vectors piece by piece.

use vstd::prelude::*;

verus! {

/// Builder-style appending for vectors: each call returns the vector with
/// the given elements appended.
pub trait BuildVec<T>: Sized + View<V = Seq<T>> {
    /// Returns `self` with every element of `elements` appended.
    fn build_with(self, elements: &Self) -> (r: Self)
        ensures
            r@ == self@ + elements@,
    ;

    /// Returns `self` with every element of `elements` appended.
    fn build_with_slice(self, elements: &[T]) -> (r: Self)
        ensures
            r@ == self@ + elements@,
    ;
}

impl<T: Copy> BuildVec<T> for Vec<T> {
    fn build_with(self, elements: &Self) -> (r: Self) {
        self.build_with_slice(elements.as_slice())
    }

    fn build_with_slice(self, elements: &[T]) -> (r: Self) {
        let mut r = self;
        let ghost start: Seq<T> = r@;
        let n = elements.len();
        let mut i: usize = 0;
        while i < n
            invariant
                n == elements@.len(),
                i <= n,
                r@ == start + elements@.subrange(0, i as int),
            decreases n - i,
        {
            r.push(elements[i]);
            assert(r@ =~= start + elements@.subrange(0, i + 1));
            i = i + 1;
        }
        assert(r@ =~= start + elements@);
        r
    }
}

} // verus!
