//! A single-writer primitive that keeps two copies of a data structure: readers look at the
//! published copy while the writer brings the other one up to date from an operational log,
//! and `publish` swaps the two.

mod epochs;
mod utilities;
mod write;


pub use crate::epochs::{blocking_reader, holds_old_copy, lemma_advance_flips_parity, Epochs};
pub use crate::utilities::CounterAddOp;
pub use crate::write::WriteHandle;


use vstd::prelude::*;

verus! {

/// Types that can incorporate operations of type `O` into a `T`.
///
/// Each operation is applied once to each of the two copies. `next` says what one application
/// does to a copy: it depends on that copy alone, which is what keeps the two copies equal.
pub trait Apply<T, A>: Sized {
    /// The copy that results from applying this operation to `data`.
    spec fn next(&self, data: T) -> T;

    /// Apply the operation to the first of the two copies. The operation is left as it is, for
    /// its second application.
    fn apply_first(&mut self, first: &mut T, second: &T, auxiliary: &mut A)
        ensures
            *final(first) == old(self).next(*old(first)),
            *final(self) == *old(self),
    ;

    /// Apply the operation to the second copy, consuming it.
    fn apply_second(self, first: &T, second: &mut T, auxiliary: &mut A)
        ensures
            *final(second) == self.next(*old(second)),
    {
        let mut op = self;
        op.apply_first(second, first, auxiliary);
    }
}

/// The copy that results from applying `ops`, in order, to `data`.
pub open spec fn apply_all<O: Apply<T, A>, T, A>(data: T, ops: Seq<O>) -> T
    decreases ops.len(),
{
    if ops.len() == 0 {
        data
    } else {
        ops.last().next(apply_all::<O, T, A>(data, ops.drop_last()))
    }
}

/// A write handle over `init` and `auxiliary`, with no operation logged yet. The second copy
/// of the data is a clone of `init`, so cloning must give back an equal value.
pub fn new<O, T, A>(init: T, auxiliary: A) -> (w: WriteHandle<O, T, A>)
    where
        O: Apply<T, A>,
        T: Clone,
    requires
        forall|c: T| #[trigger] call_ensures(T::clone, (&init,), c) ==> c == init,
    ensures
        w.wf(),
        w.initial() == init,
        w.ops() == Seq::<O>::empty(),
        w.log() == Seq::<O>::empty(),
        w.swap_point() == 0,
        w.published() == init,
        w.write_copy() == init,
        w.readers() == crate::epochs::no_readers(),
        w.aux() == auxiliary,
        w.refresh_count() == 0,
{
    let second = init.clone();
    WriteHandle::new(init, second, auxiliary)
}

/// Applying `a` and then `b` is applying `a + b`.
pub proof fn lemma_apply_all_concat<O: Apply<T, A>, T, A>(data: T, a: Seq<O>, b: Seq<O>)
    ensures
        apply_all::<O, T, A>(data, a + b) == apply_all::<O, T, A>(apply_all::<O, T, A>(data, a), b),
    decreases b.len(),
{
    if b.len() > 0 {
        lemma_apply_all_concat::<O, T, A>(data, a, b.drop_last());
        assert((a + b).drop_last() =~= a + b.drop_last());
        assert((a + b).last() == b.last());
    } else {
        assert(a + b =~= a);
    }
}

} // verus!
