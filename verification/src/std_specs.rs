//! What this crate assumes of the standard library where `vstd` is silent.

use vstd::prelude::*;

verus! {

/// `<[T]>::swap` exchanges the elements at `a` and `b` and touches nothing
/// else. It panics on an index out of bounds, which the precondition rules
/// out. Assumed of the standard library, not proved here.
pub assume_specification<T>[ <[T]>::swap ](slice: &mut [T], a: usize, b: usize)
    requires
        a < old(slice)@.len(),
        b < old(slice)@.len(),
    ensures
        final(slice)@ == old(slice)@.update(a as int, old(slice)@[b as int]).update(
            b as int,
            old(slice)@[a as int],
        ),
;

} // verus!
