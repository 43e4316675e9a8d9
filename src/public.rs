//! The public table type, with its capacity fixed by a [`Params`] type.

use core::marker::PhantomData;

use vstd::prelude::*;

use crate::index::abstract_of;
use crate::index::Detached;
use crate::params::DefaultParams;
use crate::params::Params;
use crate::table::usable;
use crate::table::Table;

verus! {

/// A fixed-capacity table of values addressed by [`Detached`] indices, with
/// its capacity chosen by the configuration `P`.
pub struct PTab<T, P: Params = DefaultParams> {
    inner: Table<T>,
    marker: PhantomData<P>,
}

impl<T, P: Params> View for PTab<T, P> {
    type V = Seq<Option<T>>;

    /// The slots, by array position: `Some` for an occupied slot.
    closed spec fn view(&self) -> Seq<Option<T>> {
        self.inner@
    }
}

impl<T, P: Params> PTab<T, P> {
    /// The table core behind this table.
    pub closed spec fn table(&self) -> Table<T> {
        self.inner
    }

    /// The table is well formed and has the capacity that `P` selects.
    pub open spec fn wf(&self) -> bool {
        &&& self.table().wf()
        &&& self.table().spec_capacity() == P::spec_length()
        &&& self@ == self.table()@
    }

    /// Creates an empty table.
    pub fn new() -> (r: Self)
        ensures
            r.wf(),
            r@ == Seq::new(P::spec_length().spec_size() as nat, |i: int| None::<T>),
            r.table().spec_len() == 0,
            forall|i: nat|
                i < P::spec_length().spec_size() ==> #[trigger] r.table().claim_name(i) == i as usize,
    {
        PTab { inner: Table::new(P::length()), marker: PhantomData }
    }

    /// The number of entries the table can hold: the capacity of `P`, less
    /// one at the largest capacity.
    pub fn capacity(&self) -> (r: usize)
        requires
            self.wf(),
        ensures
            r == usable(P::spec_length()),
    {
        self.inner.cap()
    }

    /// The number of entries in the table.
    pub fn len(&self) -> (r: usize)
        requires
            self.wf(),
        ensures
            r == self.table().spec_len(),
            r <= usable(P::spec_length()),
    {
        self.inner.len() as usize
    }

    /// Whether the table holds no entries.
    pub fn is_empty(&self) -> (r: bool)
        requires
            self.wf(),
        ensures
            r == (self.table().spec_len() == 0),
    {
        self.inner.is_empty()
    }

    /// Inserts `value`, returning the index that names it, or `None` when the
    /// table is full.
    pub fn insert(&mut self, value: T) -> (r: Option<Detached>)
        requires
            old(self).wf(),
        ensures
            final(self).wf(),
            old(self).table().inserted(value, final(self).table(), r),
    {
        self.inner.insert(value)
    }

    /// Inserts the value that `init` builds from the index that will name it,
    /// or returns `None` when the table is full.
    pub fn write<F>(&mut self, init: F) -> (r: Option<Detached>) where F: FnOnce(Detached) -> T
        requires
            old(self).wf(),
            forall|key: Detached| init.requires((key,)),
        ensures
            final(self).wf(),
            r is None <==> old(self).table().spec_len() == usable(P::spec_length()),
            r is None ==> final(self)@ == old(self)@,
            r matches Some(key) ==> {
                &&& old(self).table().lookup(key) is None
                &&& final(self).table().spec_len() == old(self).table().spec_len() + 1
                &&& abstract_of(key@, P::spec_length().spec_log2()) == old(self).table().claim_name(0)
                &&& forall|i: nat|
                    i + 1 < P::spec_length().spec_size() ==> #[trigger] final(self).table().claim_name(i) == old(self).table().claim_name(i + 1)
                &&& exists|value: T|
                    init.ensures((key,), value) && final(self)@ == old(self)@.update(
                        old(self).table().slot_of(key),
                        Some(value),
                    )
            },
    {
        self.inner.write(init)
    }

    /// Removes the entry that `index` names. Returns whether there was one.
    pub fn remove(&mut self, index: Detached) -> (r: bool)
        requires
            old(self).wf(),
        ensures
            final(self).wf(),
            old(self).table().removed(index, final(self).table(), r),
    {
        self.inner.remove(index)
    }

    /// Whether an entry is stored in the slot that `index` names.
    pub fn contains(&self, index: Detached) -> (r: bool)
        requires
            self.wf(),
        ensures
            r == self.table().lookup(index) is Some,
    {
        self.inner.contains(index)
    }

    /// Applies `f` to the entry that `index` names, if there is one.
    pub fn with<F, R>(&self, index: Detached, f: F) -> (r: Option<R>) where F: Fn(&T) -> R
        requires
            self.wf(),
            forall|value: &T| f.requires((value,)),
        ensures
            r is Some <==> self.table().lookup(index) is Some,
            r matches Some(out) ==> f.ensures((&self.table().lookup(index)->Some_0,), out),
    {
        self.inner.with(index, f)
    }

    /// A copy of the entry that `index` names, if there is one.
    pub fn read(&self, index: Detached) -> (r: Option<T>) where T: Copy
        requires
            self.wf(),
        ensures
            r == self.table().lookup(index),
    {
        self.inner.read(index)
    }

    /// The generation-zero indices of the occupied slots, in abstract order.
    pub fn weak_keys(&self) -> (r: Vec<Detached>)
        requires
            self.wf(),
        ensures
            forall|j: int| 0 <= j < r@.len() ==> (#[trigger] self.table().lookup(r@[j])) is Some,
            r@.len() == crate::table::weak_keys_upto(
                self@,
                P::spec_length().spec_log2(),
                P::spec_length().spec_size() as nat,
            ).len(),
            forall|j: int|
                0 <= j < r@.len() ==> #[trigger] r@[j]@ == crate::table::weak_keys_upto(
                    self@,
                    P::spec_length().spec_log2(),
                    P::spec_length().spec_size() as nat,
                )[j],
    {
        self.inner.weak_keys()
    }
}

impl<T, P: Params> Default for PTab<T, P> {
    fn default() -> (r: Self)
        ensures
            r.wf(),
            r@ == Seq::new(P::spec_length().spec_size() as nat, |i: int| None::<T>),
    {
        Self::new()
    }
}

} // verus!
