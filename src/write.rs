use crate::epochs::{blocking_reader, holds_old_copy, Epochs};
use crate::{apply_all, Apply};
use std::collections::VecDeque;
use vstd::prelude::*;

verus! {

/// The writer of a two-copy data structure.
///
/// Operations are appended to an operational log and reach readers only when `publish` is
/// called. The handle also keeps the registry of reader epochs, so that readers can be
/// registered, enter and leave reads, and `publish` can tell whether a reader may still be
/// looking at the copy it is about to overwrite.
pub struct WriteHandle<O, T, A> {
    epochs: Epochs,
    w_handle: T,
    r_handle: T,
    oplog: VecDeque<O>,
    swap_index: usize,
    last_epochs: Vec<usize>,
    auxiliary: A,
    refreshes: usize,
    init: Ghost<T>,
    drained: Ghost<Seq<O>>,
}

impl<O: Apply<T, A>, T, A> WriteHandle<O, T, A> {
    /// The write copy has seen every drained operation; the published copy has also seen the
    /// operations of the log before the swap index.
    pub closed spec fn wf(&self) -> bool {
        &&& self.swap_index <= self.oplog@.len()
        &&& self.w_handle == apply_all::<O, T, A>(self.init@, self.drained@)
        &&& self.r_handle == apply_all::<O, T, A>(
            self.init@,
            self.drained@ + self.oplog@.take(self.swap_index as int),
        )
    }

    /// The value the handle was created with.
    pub closed spec fn initial(&self) -> T {
        self.init@
    }

    /// Every operation appended so far, in order.
    pub closed spec fn ops(&self) -> Seq<O> {
        self.drained@ + self.oplog@
    }

    /// The copy that readers see.
    pub closed spec fn published(&self) -> T {
        self.r_handle
    }

    /// The copy that only the writer touches.
    pub closed spec fn write_copy(&self) -> T {
        self.w_handle
    }

    /// The operational log.
    pub closed spec fn log(&self) -> Seq<O> {
        self.oplog@
    }

    /// How many entries at the front of the log the published copy has already seen.
    pub closed spec fn swap_point(&self) -> nat {
        self.swap_index as nat
    }

    /// The registered readers and their epochs.
    pub closed spec fn readers(&self) -> Map<usize, usize> {
        self.epochs@
    }

    /// The epochs of the readers as they stood right after the last swap, by slot.
    pub closed spec fn snapshot(&self) -> Seq<usize> {
        self.last_epochs@
    }

    /// The auxiliary data.
    pub closed spec fn aux(&self) -> A {
        self.auxiliary
    }

    /// How many times the copies have been swapped, wrapping at the top of `usize`.
    pub closed spec fn refresh_count(&self) -> usize {
        self.refreshes
    }

    /// The operations that readers do not see yet.
    pub open spec fn pending(&self) -> Seq<O> {
        self.log().skip(self.swap_point() as int)
    }

    /// No registered reader may still be inside a read of the copy that the next publish
    /// overwrites.
    pub open spec fn quiescent(&self) -> bool {
        forall|k: usize|
            #![trigger self.readers()[k]]
            self.readers().contains_key(k) ==> !holds_old_copy(self.snapshot(), k, self.readers()[k])
    }

    /// No registered reader is inside a read.
    pub open spec fn no_reader_inside(&self) -> bool {
        forall|k: usize| #[trigger] self.readers().contains_key(k) ==> self.readers()[k] % 2 == 0
    }

    /// `next` is this handle after one publish: the published copy has caught up with the log,
    /// the old published copy became the write copy, and the snapshot holds every reader's epoch.
    pub open spec fn publishes(self, next: Self) -> bool {
        &&& next.wf()
        &&& next.initial() == self.initial()
        &&& next.ops() == self.ops()
        &&& next.log() == self.pending()
        &&& next.swap_point() == next.log().len()
        &&& next.published() == apply_all::<O, T, A>(self.published(), self.pending())
        &&& next.write_copy() == self.published()
        &&& next.readers() == self.readers()
        &&& forall|k: usize|
            #![trigger next.readers()[k]]
            next.readers().contains_key(k) ==> k < next.snapshot().len() && next.snapshot()[k as int]
                == next.readers()[k]
        &&& next.refresh_count() == self.refresh_count().wrapping_add(1)
    }

    /// `next` holds the same data and log as this handle; only reader epochs may differ.
    pub open spec fn same_data(self, next: Self) -> bool {
        &&& next.wf() == self.wf()
        &&& next.initial() == self.initial()
        &&& next.ops() == self.ops()
        &&& next.log() == self.log()
        &&& next.swap_point() == self.swap_point()
        &&& next.published() == self.published()
        &&& next.write_copy() == self.write_copy()
        &&& next.snapshot() == self.snapshot()
        &&& next.aux() == self.aux()
        &&& next.refresh_count() == self.refresh_count()
    }
}


impl<O: Apply<T, A>, T, A> WriteHandle<O, T, A> {
    /// Publishes the log unless a reader may still be reading the copy that would be
    /// overwritten. In that case nothing changes and the slot of the first such reader is
    /// returned, so that the caller can wait for it and try again.
    pub fn try_publish(&mut self) -> (r: Option<usize>)
        requires
            old(self).wf(),
        ensures
            r.is_some() <==> !old(self).quiescent(),
            match r {
                Some(slot) => {
                    &&& old(self).readers().contains_key(slot)
                    &&& holds_old_copy(old(self).snapshot(), slot, old(self).readers()[slot])
                    &&& *final(self) == *old(self)
                },
                None => {
                    &&& old(self).publishes(*final(self))
                    &&& forall|k: usize|
                        #![trigger old(self).readers()[k]]
                        old(self).readers().contains_key(k) ==> !holds_old_copy(
                            old(self).snapshot(),
                            k,
                            old(self).readers()[k],
                        )
                },
            },
    {
        let live = self.epochs.readers();
        match blocking_reader(&self.last_epochs, &live, 0) {
            Some(i) => {
                proof {
                    let k = live@[i as int].0;
                    assert(self.readers().contains_key(k));
                }
                return Some(live[i].0);
            },
            None => {
                assert forall|k: usize|
                    #![trigger self.readers()[k]]
                    self.readers().contains_key(k) implies !holds_old_copy(self.snapshot(), k, self.readers()[k]) by {
                    let j = choose|j: int| 0 <= j < live@.len() && #[trigger] live@[j].0 == k;
                }
            },
        }
        self.apply_and_swap();
        self.refreshes = self.refreshes.wrapping_add(1);
        self.record_epochs(&live);
        None
    }

    /// Brings the write copy up to date with the whole log and swaps it with the published one.
    fn apply_and_swap(&mut self)
        requires
            old(self).wf(),
        ensures
            final(self).wf(),
            final(self).initial() == old(self).initial(),
            final(self).ops() == old(self).ops(),
            final(self).log() == old(self).pending(),
            final(self).swap_point() == final(self).log().len(),
            final(self).published() == apply_all::<O, T, A>(old(self).published(), old(self).pending()),
            final(self).write_copy() == old(self).published(),
            final(self).epochs == old(self).epochs,
            final(self).last_epochs == old(self).last_epochs,
            final(self).refreshes == old(self).refreshes,
    {
        let ghost d0 = self.drained@;
        let ghost log0 = self.oplog@;
        let n = self.swap_index;
        let mut i: usize = 0;
        while i < n
            invariant
                n == old(self).swap_index,
                n <= log0.len(),
                i <= n,
                d0 == old(self).drained@,
                log0 == old(self).oplog@,
                self.init == old(self).init,
                self.drained == old(self).drained,
                self.epochs == old(self).epochs,
                self.last_epochs == old(self).last_epochs,
                self.refreshes == old(self).refreshes,
                self.swap_index == old(self).swap_index,
                self.oplog@ == log0.skip(i as int),
                self.w_handle == apply_all::<O, T, A>(self.init@, d0 + log0.take(i as int)),
                self.r_handle == apply_all::<O, T, A>(self.init@, d0 + log0.take(n as int)),
            decreases n - i,
        {
            let op = self.oplog.pop_front().unwrap();
            proof {
                assert(op == log0[i as int]);
                assert(d0 + log0.take(i as int + 1) =~= (d0 + log0.take(i as int)).push(op));
                assert((d0 + log0.take(i as int)).push(op).drop_last() =~= d0 + log0.take(i as int));
            }
            op.apply_second(&self.r_handle, &mut self.w_handle, &mut self.auxiliary);
            i = i + 1;
            proof {
                assert(self.oplog@ =~= log0.skip(i as int));
            }
        }
        let ghost rest = log0.skip(n as int);
        let m = self.oplog.len();
        let mut j: usize = 0;
        while j < m
            invariant
                m == rest.len(),
                j <= m,
                rest == log0.skip(n as int),
                n <= log0.len(),
                d0 == old(self).drained@,
                log0 == old(self).oplog@,
                self.init == old(self).init,
                self.drained == old(self).drained,
                self.epochs == old(self).epochs,
                self.last_epochs == old(self).last_epochs,
                self.refreshes == old(self).refreshes,
                self.oplog@ == rest.skip(j as int) + rest.take(j as int),
                self.w_handle == apply_all::<O, T, A>(self.init@, d0 + log0.take(n as int) + rest.take(j as int)),
                self.r_handle == apply_all::<O, T, A>(self.init@, d0 + log0.take(n as int)),
            decreases m - j,
        {
            let mut op = self.oplog.pop_front().unwrap();
            proof {
                assert(rest.skip(j as int)[0] == rest[j as int]);
                assert(op == rest[j as int]);
                assert(self.oplog@ =~= rest.skip(j as int + 1) + rest.take(j as int));
                assert(rest.take(j as int).push(op) =~= rest.take(j as int + 1));
                let pre = d0 + log0.take(n as int);
                assert(pre + rest.take(j as int + 1) =~= (pre + rest.take(j as int)).push(op));
                assert((pre + rest.take(j as int)).push(op).drop_last() =~= pre + rest.take(j as int));
            }
            op.apply_first(&mut self.w_handle, &self.r_handle, &mut self.auxiliary);
            self.oplog.push_back(op);
            proof {
                assert(self.oplog@ =~= rest.skip(j as int + 1) + rest.take(j as int + 1));
            }
            j = j + 1;
        }
        proof {
            assert(rest.take(m as int) =~= rest);
            assert(self.oplog@ =~= rest);
            assert(log0.take(n as int) + rest =~= log0);
            assert(d0 + log0.take(n as int) + rest =~= d0 + log0);
            crate::lemma_apply_all_concat::<O, T, A>(self.init@, d0 + log0.take(n as int), rest);
        }
        std::mem::swap(&mut self.w_handle, &mut self.r_handle);
        self.drained = Ghost(d0 + log0.take(n as int));
        self.swap_index = m;
        proof {
            assert(self.oplog@.take(m as int) =~= self.oplog@);
            assert(self.drained@ + self.oplog@ =~= d0 + log0);
        }
    }

    /// Records the epoch of every reader in `live` as the snapshot for the next publish.
    fn record_epochs(&mut self, live: &Vec<(usize, usize)>)
        requires
            forall|i: int|
                0 <= i < live@.len() ==> old(self).epochs@.contains_key(#[trigger] live@[i].0)
                    && old(self).epochs@[live@[i].0] == live@[i].1,
            forall|k: usize|
                old(self).epochs@.contains_key(k) ==> exists|i: int|
                    0 <= i < live@.len() && #[trigger] live@[i].0 == k,
            forall|i: int, j: int| 0 <= i < j < live@.len() ==> live@[i].0 < live@[j].0,
        ensures
            final(self).wf() == old(self).wf(),
            final(self).initial() == old(self).initial(),
            final(self).ops() == old(self).ops(),
            final(self).log() == old(self).log(),
            final(self).swap_point() == old(self).swap_point(),
            final(self).published() == old(self).published(),
            final(self).write_copy() == old(self).write_copy(),
            final(self).epochs == old(self).epochs,
            final(self).refreshes == old(self).refreshes,
            forall|k: usize|
                #![trigger final(self).readers()[k]]
                final(self).readers().contains_key(k) ==> k < final(self).snapshot().len()
                    && final(self).snapshot()[k as int] == final(self).readers()[k],
    {
        let bound = self.epochs.slot_bound();
        while self.last_epochs.len() < bound
            invariant
                self.epochs == old(self).epochs,
                self.w_handle == old(self).w_handle,
                self.r_handle == old(self).r_handle,
                self.oplog == old(self).oplog,
                self.swap_index == old(self).swap_index,
                self.init == old(self).init,
                self.drained == old(self).drained,
                self.refreshes == old(self).refreshes,
            decreases bound - self.last_epochs@.len(),
        {
            self.last_epochs.push(0);
        }
        let mut t: usize = 0;
        while t < live.len()
            invariant
                self.epochs == old(self).epochs,
                self.w_handle == old(self).w_handle,
                self.r_handle == old(self).r_handle,
                self.oplog == old(self).oplog,
                self.swap_index == old(self).swap_index,
                self.init == old(self).init,
                self.drained == old(self).drained,
                self.refreshes == old(self).refreshes,
                forall|k: usize| self.epochs@.contains_key(k) ==> k < bound,
                bound <= self.last_epochs@.len(),
                t <= live@.len(),
                forall|i: int|
                    0 <= i < live@.len() ==> self.epochs@.contains_key(#[trigger] live@[i].0)
                        && self.epochs@[live@[i].0] == live@[i].1,
                forall|i: int, j: int| 0 <= i < j < live@.len() ==> live@[i].0 < live@[j].0,
                forall|i: int| 0 <= i < t ==> self.last_epochs@[#[trigger] live@[i].0 as int] == live@[i].1,
            decreases live@.len() - t,
        {
            let slot = live[t].0;
            let e = live[t].1;
            assert(self.epochs@.contains_key(live@[t as int].0));
            self.last_epochs.set(slot, e);
            t = t + 1;
        }
        assert forall|k: usize|
            #![trigger self.readers()[k]]
            self.readers().contains_key(k) implies k < self.snapshot().len()
                && self.snapshot()[k as int] == self.readers()[k] by {
            let i = choose|i: int| 0 <= i < live@.len() && #[trigger] live@[i].0 == k;
        }
    }
}


impl<O: Apply<T, A>, T, A> WriteHandle<O, T, A> {
    /// A handle whose two copies are `w_handle` and `r_handle`, which must be equal, with an
    /// empty log and no reader.
    pub(crate) fn new(w_handle: T, r_handle: T, auxiliary: A) -> (r: Self)
        requires
            w_handle == r_handle,
        ensures
            r.wf(),
            r.initial() == w_handle,
            r.ops() == Seq::<O>::empty(),
            r.log() == Seq::<O>::empty(),
            r.swap_point() == 0,
            r.published() == w_handle,
            r.write_copy() == w_handle,
            r.readers() == crate::epochs::no_readers(),
            r.snapshot() == Seq::<usize>::empty(),
            r.aux() == auxiliary,
            r.refresh_count() == 0,
    {
        let ghost init = w_handle;
        let r = WriteHandle {
            epochs: Epochs::new(),
            w_handle,
            r_handle,
            oplog: VecDeque::new(),
            swap_index: 0,
            last_epochs: Vec::new(),
            auxiliary,
            refreshes: 0,
            init: Ghost(init),
            drained: Ghost(Seq::empty()),
        };
        proof {
            assert(r.oplog@.take(0) =~= Seq::<O>::empty());
            assert(r.drained@ + r.oplog@.take(0) =~= Seq::<O>::empty());
            assert(r.drained@ + r.oplog@ =~= Seq::<O>::empty());
        }
        r
    }

    /// Publishes every appended operation to readers: the write copy catches up with the log
    /// and becomes the published copy, and the old published copy becomes the write copy.
    ///
    /// No reader may still be reading the copy that is overwritten: with readers on other
    /// threads, this is where the writer waits for them (see `try_publish`).
    pub fn publish(&mut self)
        requires
            old(self).wf(),
            old(self).quiescent(),
        ensures
            old(self).publishes(*final(self)),
    {
        let _ = self.try_publish();
    }

    /// Publishes only if some operation is pending.
    pub fn flush(&mut self)
        requires
            old(self).wf(),
            old(self).pending().len() > 0 ==> old(self).quiescent(),
        ensures
            old(self).pending().len() == 0 ==> *final(self) == *old(self),
            old(self).pending().len() > 0 ==> old(self).publishes(*final(self)),
    {
        if self.has_pending_operations() {
            self.publish();
        }
    }

    /// Whether the log holds operations that readers do not see yet.
    pub fn has_pending_operations(&self) -> (r: bool)
        requires
            self.wf(),
        ensures
            r == (self.pending().len() > 0),
    {
        self.swap_index < self.oplog.len()
    }

    /// Appends an operation to the log. Readers see it only after the next publish.
    pub fn append(&mut self, op: O)
        requires
            old(self).wf(),
        ensures
            final(self).wf(),
            final(self).log() == old(self).log().push(op),
            final(self).ops() == old(self).ops().push(op),
            final(self).pending() == old(self).pending().push(op),
            final(self).swap_point() == old(self).swap_point(),
            final(self).initial() == old(self).initial(),
            final(self).published() == old(self).published(),
            final(self).write_copy() == old(self).write_copy(),
            final(self).readers() == old(self).readers(),
            final(self).snapshot() == old(self).snapshot(),
            final(self).aux() == old(self).aux(),
            final(self).refresh_count() == old(self).refresh_count(),
    {
        let ghost log0 = self.oplog@;
        self.oplog.push_back(op);
        proof {
            assert(self.oplog@.take(self.swap_index as int) =~= log0.take(self.swap_index as int));
            assert(self.drained@ + self.oplog@ =~= (self.drained@ + log0).push(op));
            assert(self.oplog@.skip(self.swap_index as int) =~= log0.skip(self.swap_index as int).push(op));
        }
    }

    /// Appends the operations of `ops`, in order, to the log.
    pub fn extend(&mut self, ops: Vec<O>)
        requires
            old(self).wf(),
        ensures
            final(self).wf(),
            final(self).log() == old(self).log() + ops@,
            final(self).ops() == old(self).ops() + ops@,
            final(self).swap_point() == old(self).swap_point(),
            final(self).initial() == old(self).initial(),
            final(self).published() == old(self).published(),
            final(self).write_copy() == old(self).write_copy(),
            final(self).readers() == old(self).readers(),
            final(self).snapshot() == old(self).snapshot(),
            final(self).aux() == old(self).aux(),
            final(self).refresh_count() == old(self).refresh_count(),
    {
        let mut rest = ops;
        let ghost all = rest@;
        let ghost mut i: int = 0;
        while rest.len() > 0
            invariant
                self.wf(),
                0 <= i <= all.len(),
                rest@ == all.skip(i),
                self.log() == old(self).log() + all.take(i),
                self.ops() == old(self).ops() + all.take(i),
                self.swap_point() == old(self).swap_point(),
                self.initial() == old(self).initial(),
                self.published() == old(self).published(),
                self.write_copy() == old(self).write_copy(),
                self.readers() == old(self).readers(),
                self.snapshot() == old(self).snapshot(),
                self.aux() == old(self).aux(),
                self.refresh_count() == old(self).refresh_count(),
            decreases rest@.len(),
        {
            let op = rest.remove(0);
            proof {
                assert(op == all[i]);
                assert(all.take(i + 1) =~= all.take(i).push(op));
                assert(rest@ =~= all.skip(i + 1));
            }
            self.append(op);
            proof {
                assert(old(self).log() + all.take(i + 1) =~= (old(self).log() + all.take(i)).push(op));
                assert(old(self).ops() + all.take(i + 1) =~= (old(self).ops() + all.take(i)).push(op));
            }
            proof {
                i = i + 1;
            }
        }
        proof {
            assert(all.take(i) =~= all);
        }
    }

    /// The auxiliary data.
    pub fn auxiliary(&self) -> (r: &A)
        ensures
            *r == self.aux(),
    {
        &self.auxiliary
    }

    /// Mutable access to the auxiliary data.
    pub fn auxiliary_mut(&mut self) -> (r: &mut A)
        ensures
            *r == old(self).aux(),
            final(self).aux() == *final(r),
            final(self).wf() == old(self).wf(),
            final(self).published() == old(self).published(),
            final(self).write_copy() == old(self).write_copy(),
            final(self).log() == old(self).log(),
            final(self).ops() == old(self).ops(),
    {
        &mut self.auxiliary
    }

    /// Publishes what is pending and hands back the published copy, ending the handle.
    ///
    /// No reader may be inside a read: with readers on other threads, this is where the writer
    /// waits for them to leave.
    pub fn take(self) -> (r: Box<T>)
        requires
            self.wf(),
            self.no_reader_inside(),
        ensures
            *r == apply_all::<O, T, A>(self.published(), self.pending()),
            *r == apply_all::<O, T, A>(self.initial(), self.ops()),
    {
        let mut this = self;
        proof {
            lemma_caught_up(this);
        }
        if this.swap_index != this.oplog.len() {
            this.publish();
        } else {
            proof {
                assert(this.pending() =~= Seq::<O>::empty());
            }
        }
        Box::new(this.r_handle)
    }
}

impl<O: Apply<T, A>, T, A> WriteHandle<O, T, A> {
    /// The copy that readers see: what was current at the last publish.
    pub fn read(&self) -> (r: &T)
        ensures
            *r == self.published(),
    {
        &self.r_handle
    }

    /// Registers a new reader, outside any read, and returns its slot.
    pub fn register_reader(&mut self) -> (slot: usize)
        ensures
            !old(self).readers().contains_key(slot),
            final(self).readers() == old(self).readers().insert(slot, 0),
            old(self).same_data(*final(self)),
    {
        self.epochs.register()
    }

    /// Removes the reader in `slot`; the slot may be handed out again.
    pub fn deregister_reader(&mut self, slot: usize)
        ensures
            final(self).readers() == old(self).readers().remove(slot),
            old(self).same_data(*final(self)),
    {
        self.epochs.deregister(slot)
    }

    /// The reader in `slot` starts a read: its epoch moves on to an odd value.
    pub fn enter(&mut self, slot: usize)
        requires
            old(self).readers().contains_key(slot),
            old(self).readers()[slot] % 2 == 0,
        ensures
            final(self).readers() == old(self).readers().insert(
                slot,
                old(self).readers()[slot].wrapping_add(1),
            ),
            final(self).readers()[slot] % 2 == 1,
            old(self).same_data(*final(self)),
    {
        self.epochs.advance(slot)
    }

    /// The reader in `slot` ends its read: its epoch moves on to an even value.
    pub fn exit(&mut self, slot: usize)
        requires
            old(self).readers().contains_key(slot),
            old(self).readers()[slot] % 2 == 1,
        ensures
            final(self).readers() == old(self).readers().insert(
                slot,
                old(self).readers()[slot].wrapping_add(1),
            ),
            final(self).readers()[slot] % 2 == 0,
            old(self).same_data(*final(self)),
    {
        self.epochs.advance(slot)
    }

    /// The epoch of the reader in `slot`, if it is registered.
    pub fn reader_epoch(&self, slot: usize) -> (r: Option<usize>)
        ensures
            self.readers().contains_key(slot) ==> r == Some(self.readers()[slot]),
            !self.readers().contains_key(slot) ==> r.is_none(),
    {
        self.epochs.epoch(slot)
    }

    /// The length of the operational log.
    pub fn oplog_len(&self) -> (r: usize)
        ensures
            r == self.log().len(),
    {
        self.oplog.len()
    }

    /// How many entries at the front of the log the published copy has already seen.
    pub fn swap_index(&self) -> (r: usize)
        ensures
            r == self.swap_point(),
    {
        self.swap_index
    }

    /// How many times the copies have been swapped, wrapping at the top of `usize`.
    pub fn refreshes(&self) -> (r: usize)
        ensures
            r == self.refresh_count(),
    {
        self.refreshes
    }
}

/// What the published copy holds after the pending operations is what the initial value holds
/// after every operation appended.
pub proof fn lemma_caught_up<O: Apply<T, A>, T, A>(w: WriteHandle<O, T, A>)
    requires
        w.wf(),
    ensures
        apply_all::<O, T, A>(w.published(), w.pending()) == apply_all::<O, T, A>(w.initial(), w.ops()),
        apply_all::<O, T, A>(w.write_copy(), w.log()) == apply_all::<O, T, A>(w.initial(), w.ops()),
{
    let d = w.drained@;
    let l = w.oplog@;
    let n = w.swap_index as int;
    crate::lemma_apply_all_concat::<O, T, A>(w.init@, d + l.take(n), l.skip(n));
    assert(d + l.take(n) + l.skip(n) =~= d + l);
    crate::lemma_apply_all_concat::<O, T, A>(w.init@, d, l);
}


/// After a publish the published copy holds every operation appended, applied in order to the
/// initial value, and the write copy reaches the same value once it replays the log.
pub proof fn lemma_publish_catches_up<O: Apply<T, A>, T, A>(
    before: WriteHandle<O, T, A>,
    after: WriteHandle<O, T, A>,
)
    requires
        before.wf(),
        before.publishes(after),
    ensures
        after.published() == apply_all::<O, T, A>(after.initial(), after.ops()),
        apply_all::<O, T, A>(after.write_copy(), after.log()) == apply_all::<O, T, A>(
            after.initial(),
            after.ops(),
        ),
{
    lemma_caught_up(after);
    assert(after.pending() =~= Seq::<O>::empty());
}

/// Readers see exactly the operations that were appended before the last publish.
pub proof fn lemma_published_holds_published_ops<O: Apply<T, A>, T, A>(w: WriteHandle<O, T, A>)
    requires
        w.wf(),
    ensures
        w.published() == apply_all::<O, T, A>(
            w.initial(),
            w.ops().take(w.ops().len() - w.pending().len()),
        ),
{
    assert(w.ops().take(w.ops().len() - w.pending().len()) =~= w.drained@ + w.oplog@.take(
        w.swap_index as int,
    ));
}

/// A publish with nothing pending leaves what readers see unchanged, leaves both copies equal,
/// and leaves nothing pending.
pub proof fn lemma_publish_without_pending<O: Apply<T, A>, T, A>(
    before: WriteHandle<O, T, A>,
    after: WriteHandle<O, T, A>,
)
    requires
        before.wf(),
        before.pending().len() == 0,
        before.publishes(after),
    ensures
        after.published() == before.published(),
        after.write_copy() == after.published(),
        after.pending().len() == 0,
{
    assert(before.pending() =~= Seq::<O>::empty());
}

/// A handle on which nothing was ever appended hands back its initial value.
pub proof fn lemma_nothing_appended_gives_initial<O: Apply<T, A>, T, A>(w: WriteHandle<O, T, A>)
    requires
        w.wf(),
        w.ops().len() == 0,
    ensures
        apply_all::<O, T, A>(w.published(), w.pending()) == w.initial(),
{
    lemma_caught_up(w);
}

} // verus!
