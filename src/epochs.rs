use slab::Slab;
use vstd::prelude::*;

verus! {

#[verifier::external_type_specification]
#[verifier::external_body]
#[verifier::reject_recursive_types(T)]
pub struct ExSlab<T>(Slab<T>);

/// A registry with no reader in it.
pub open spec fn no_readers() -> Map<usize, usize> {
    Map::empty()
}

/// The live entries of a slab of epoch counters, by key.
pub uninterp spec fn slab_entries(s: Slab<usize>) -> Map<usize, usize>;

/// Relies on `Slab::new`: a new slab holds no entry.
#[verifier::external_body]
fn slab_new() -> (r: Slab<usize>)
    ensures
        slab_entries(r) == no_readers(),
{
    Slab::new()
}

/// Relies on `Slab::insert`: the value is stored under a key that was vacant, which is returned.
#[verifier::external_body]
fn slab_insert(s: &mut Slab<usize>, val: usize) -> (key: usize)
    ensures
        !slab_entries(*old(s)).contains_key(key),
        slab_entries(*final(s)) == slab_entries(*old(s)).insert(key, val),
{
    s.insert(val)
}

/// Relies on `Slab::try_remove`: an occupied key is vacated and its value returned; a vacant
/// key changes nothing.
#[verifier::external_body]
fn slab_try_remove(s: &mut Slab<usize>, key: usize) -> (r: Option<usize>)
    ensures
        slab_entries(*old(s)).contains_key(key) ==> r == Some(slab_entries(*old(s))[key]),
        !slab_entries(*old(s)).contains_key(key) ==> r.is_none(),
        slab_entries(*final(s)) == slab_entries(*old(s)).remove(key),
{
    s.try_remove(key)
}

/// Relies on `Slab::get`: the value under an occupied key, `None` for a vacant one.
#[verifier::external_body]
fn slab_get(s: &Slab<usize>, key: usize) -> (r: Option<usize>)
    ensures
        slab_entries(*s).contains_key(key) ==> r == Some(slab_entries(*s)[key]),
        !slab_entries(*s).contains_key(key) ==> r.is_none(),
{
    s.get(key).copied()
}

/// Relies on `IndexMut` of `Slab`: overwrites the value under an occupied key.
#[verifier::external_body]
fn slab_set(s: &mut Slab<usize>, key: usize, val: usize)
    requires
        slab_entries(*old(s)).contains_key(key),
    ensures
        slab_entries(*final(s)) == slab_entries(*old(s)).insert(key, val),
{
    s[key] = val;
}

/// Relies on `Slab::capacity`: every key in use lies below it (keys index the slab's vector,
/// whose length is at most its capacity).
#[verifier::external_body]
fn slab_capacity(s: &Slab<usize>) -> (r: usize)
    ensures
        forall|k: usize| slab_entries(*s).contains_key(k) ==> k < r,
{
    s.capacity()
}

/// Relies on `Slab::iter`: every live entry once, by increasing key.
#[verifier::external_body]
fn slab_entries_in_order(s: &Slab<usize>) -> (r: Vec<(usize, usize)>)
    ensures
        forall|i: int|
            0 <= i < r@.len() ==> slab_entries(*s).contains_key(#[trigger] r@[i].0)
                && slab_entries(*s)[r@[i].0] == r@[i].1,
        forall|k: usize|
            slab_entries(*s).contains_key(k) ==> exists|i: int|
                0 <= i < r@.len() && #[trigger] r@[i].0 == k,
        forall|i: int, j: int| 0 <= i < j < r@.len() ==> r@[i].0 < r@[j].0,
{
    s.iter().map(|(k, e)| (k, *e)).collect()
}

/// Whether the reader in `slot`, whose epoch is now `now`, may still hold the copy that was
/// published before the snapshot `last` was taken: it was inside a read at the snapshot (odd
/// epoch) and has not moved since. A slot past the snapshot was registered after it.
pub open spec fn holds_old_copy(last: Seq<usize>, slot: usize, now: usize) -> bool {
    &&& slot < last.len()
    &&& last[slot as int] % 2 == 1
    &&& now == last[slot as int]
}

/// The registry of reader epochs: one counter per registered reader, keyed by a slot that stays
/// the same until the reader leaves. An even epoch means the reader is outside a read, an odd
/// one that it is inside.
pub struct Epochs {
    slots: Slab<usize>,
}

impl Epochs {
    /// The epoch of each registered reader, by slot.
    pub closed spec fn view(&self) -> Map<usize, usize> {
        slab_entries(self.slots)
    }

    /// An empty registry.
    pub fn new() -> (r: Epochs)
        ensures
            r@ == no_readers(),
    {
        Epochs { slots: slab_new() }
    }

    /// Registers a reader with an even epoch of zero and returns its slot.
    pub fn register(&mut self) -> (slot: usize)
        ensures
            !old(self)@.contains_key(slot),
            final(self)@ == old(self)@.insert(slot, 0),
    {
        slab_insert(&mut self.slots, 0)
    }

    /// Removes the reader in `slot`, if there is one; the slot may be handed out again.
    pub fn deregister(&mut self, slot: usize)
        ensures
            final(self)@ == old(self)@.remove(slot),
    {
        let _ = slab_try_remove(&mut self.slots, slot);
    }

    /// The epoch of the reader in `slot`.
    pub fn epoch(&self, slot: usize) -> (r: Option<usize>)
        ensures
            self@.contains_key(slot) ==> r == Some(self@[slot]),
            !self@.contains_key(slot) ==> r.is_none(),
    {
        slab_get(&self.slots, slot)
    }

    /// Moves the reader in `slot` one epoch on, wrapping at the top of `usize`: this flips
    /// whether it is inside a read.
    pub fn advance(&mut self, slot: usize)
        requires
            old(self)@.contains_key(slot),
        ensures
            final(self)@ == old(self)@.insert(slot, old(self)@[slot].wrapping_add(1)),
            final(self)@[slot] % 2 != old(self)@[slot] % 2,
    {
        let e = slab_get(&self.slots, slot).unwrap();
        proof {
            lemma_advance_flips_parity(e);
        }
        slab_set(&mut self.slots, slot, e.wrapping_add(1));
    }

    /// A bound above every slot in use.
    pub fn slot_bound(&self) -> (r: usize)
        ensures
            forall|k: usize| self@.contains_key(k) ==> k < r,
    {
        slab_capacity(&self.slots)
    }

    /// Every registered reader with its epoch, by increasing slot.
    pub fn readers(&self) -> (r: Vec<(usize, usize)>)
        ensures
            forall|i: int|
                0 <= i < r@.len() ==> self@.contains_key(#[trigger] r@[i].0) && self@[r@[i].0]
                    == r@[i].1,
            forall|k: usize|
                self@.contains_key(k) ==> exists|i: int| 0 <= i < r@.len() && #[trigger] r@[i].0 == k,
            forall|i: int, j: int| 0 <= i < j < r@.len() ==> r@[i].0 < r@[j].0,
    {
        slab_entries_in_order(&self.slots)
    }
}

/// Moving an epoch on flips its parity, also where it wraps from `usize::MAX` to zero.
pub proof fn lemma_advance_flips_parity(e: usize)
    ensures
        e.wrapping_add(1) % 2 != e % 2,
{
    if e == usize::MAX {
        assert(usize::MAX % 2 == 1) by {
            assert(usize::MAX == 0xffff_ffff || usize::MAX == 0xffff_ffff_ffff_ffff);
        }
    }
}

/// Finds the first reader, from position `start` of `readers` on, that may still hold the copy
/// published before the snapshot `last`; `None` when every one of them has left it.
pub fn blocking_reader(last: &Vec<usize>, readers: &Vec<(usize, usize)>, start: usize) -> (r: Option<usize>)
    ensures
        match r {
            Some(i) => {
                &&& start <= i < readers@.len()
                &&& holds_old_copy(last@, readers@[i as int].0, readers@[i as int].1)
                &&& forall|j: int|
                    start <= j < i ==> !holds_old_copy(last@, #[trigger] readers@[j].0, readers@[j].1)
            },
            None => forall|j: int|
                start <= j < readers@.len() ==> !holds_old_copy(last@, #[trigger] readers@[j].0, readers@[j].1),
        },
{
    let mut i: usize = start;
    while i < readers.len()
        invariant
            start <= i,
            forall|j: int| start <= j < i ==> !holds_old_copy(last@, #[trigger] readers@[j].0, readers@[j].1),
        decreases readers@.len() - i,
    {
        let slot = readers[i].0;
        let now = readers[i].1;
        if slot < last.len() && last[slot] % 2 == 1 && now == last[slot] {
            assert(holds_old_copy(last@, readers@[i as int].0, readers@[i as int].1));
            return Some(i);
        }
        i = i + 1;
    }
    None
}

} // verus!
