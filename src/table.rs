//! The table core: the slot directory, the counters and the protocol that
//! hands out and takes back slot names.
//!
//! The metadata array is a ring of cells indexed by two cursors. Cells between
//! the free cursor and the allocation cursor hold [`RESERVED`]; every other
//! cell holds the abstract index of a free slot. Claiming a slot swaps
//! `RESERVED` into the cell under the allocation cursor; returning one writes
//! the slot's next-generation index into the cell under the free cursor.

use vstd::arithmetic::div_mod::lemma_add_mod_noop;
use vstd::arithmetic::div_mod::lemma_fundamental_div_mod_converse;
use vstd::prelude::*;

use crate::index::abstract_of;
use crate::index::concrete_of;
use crate::index::concrete_of_detached;
use crate::index::detached_of;
use crate::index::lemma_abstract_of_concrete_of;
use crate::index::lemma_concrete_of_abstract_of;
use crate::index::lemma_concrete_of_bijective;
use crate::index::lemma_concrete_of_in_range;
use crate::index::lemma_detached_keeps_position;
use crate::index::lemma_abstract_round_trip;
use crate::index::lemma_detached_round_trip;
use crate::index::lemma_generation_zero;
use crate::index::lemma_low_bits_below_capacity;
use crate::index::Abstract;
use crate::index::Concrete;
use crate::index::Detached;
use crate::padded::CachePadded;
use crate::params::entry_mask;
use crate::params::is_log2_in_range;
use crate::params::lemma_pow2_usize;
use crate::params::pow2_usize;
use crate::params::Capacity;
use crate::params::CACHE_LINE_SHIFT;
use crate::params::CACHE_LINE_SLOTS;
use crate::params::MAX_LOG2;

verus! {

/// Marker held by a metadata cell while its slot is being claimed.
pub const RESERVED: usize = usize::MAX;

// -----------------------------------------------------------------------------
// Counting live entries
// -----------------------------------------------------------------------------

/// The number of occupied slots in `s`.
pub open spec fn live_count<T>(s: Seq<Option<T>>) -> nat
    decreases s.len(),
{
    if s.len() == 0 {
        0
    } else {
        live_count(s.drop_last()) + if s.last() is Some {
            1nat
        } else {
            0nat
        }
    }
}

/// Replacing one slot changes the count by what left and what came in.
pub proof fn lemma_live_count_update<T>(s: Seq<Option<T>>, i: int, v: Option<T>)
    requires
        0 <= i < s.len(),
    ensures
        live_count(s.update(i, v)) + (if s[i] is Some {
            1int
        } else {
            0int
        }) == live_count(s) + (if v is Some {
            1int
        } else {
            0int
        }),
    decreases s.len(),
{
    let t = s.update(i, v);
    if i == s.len() - 1 {
        assert(t.drop_last() =~= s.drop_last());
    } else {
        assert(t.drop_last() =~= s.drop_last().update(i, v));
        lemma_live_count_update(s.drop_last(), i, v);
    }
}

/// No more slots are occupied than there are slots.
pub proof fn lemma_live_count_bound<T>(s: Seq<Option<T>>)
    ensures
        live_count(s) <= s.len(),
    decreases s.len(),
{
    if s.len() > 0 {
        lemma_live_count_bound(s.drop_last());
    }
}

/// A run of empty slots counts zero.
pub proof fn lemma_live_count_empty<T>(s: Seq<Option<T>>)
    requires
        forall|i: int| 0 <= i < s.len() ==> s[i] is None,
    ensures
        live_count(s) == 0,
    decreases s.len(),
{
    if s.len() > 0 {
        lemma_live_count_empty(s.drop_last());
    }
}

// -----------------------------------------------------------------------------
// Capacity accounting
// -----------------------------------------------------------------------------

/// The number of slots withheld from use: one at the largest capacity, where
/// the identifier space cannot name every slot in every generation.
pub open spec fn withheld(capacity: Capacity) -> nat {
    if capacity.spec_log2() == MAX_LOG2 {
        1
    } else {
        0
    }
}

/// The number of entries a table of this capacity can hold.
pub open spec fn usable(capacity: Capacity) -> nat {
    (capacity.spec_size() - withheld(capacity)) as nat
}

/// The position of residue `a` in a ring of `n` cells that starts at residue
/// `f`.
pub open spec fn ring_rank(a: int, f: int, n: int) -> int {
    if a >= f {
        a - f
    } else {
        a - f + n
    }
}

/// `x % n` for `0 <= x < 2n`.
proof fn lemma_mod_once(x: int, n: int)
    requires
        0 < n,
        0 <= x < 2 * n,
    ensures
        x % n == if x < n {
            x
        } else {
            x - n
        },
{
    if x < n {
        lemma_fundamental_div_mod_converse(x, n, 0, x);
    } else {
        lemma_fundamental_div_mod_converse(x, n, 1, x - n);
    }
}

/// `a + j` and `a` fall on different residues when `0 < j < n`.
proof fn lemma_mod_offset_ne(a: int, j: int, n: int)
    requires
        0 <= a,
        0 < j < n,
    ensures
        (a + j) % n != a % n,
{
    lemma_add_mod_noop(a, j, n);
    lemma_mod_once(j, n);
    lemma_mod_once(a % n + j, n);
}

/// Adding the same amount to two numbers with equal residues keeps the
/// residues equal.
proof fn lemma_mod_shift(a: int, b: int, j: int, n: int)
    requires
        0 < n,
        a % n == b % n,
    ensures
        (a + j) % n == (b + j) % n,
{
    lemma_add_mod_noop(a, j, n);
    lemma_add_mod_noop(b, j, n);
}

/// The array position of the metadata cell that cursor position `x` selects,
/// for capacity `2^k`: only the residue of `x` modulo the capacity counts.
pub open spec fn cell_of(x: int, k: u32) -> int {
    concrete_of((x % (pow2_usize(k) as int)) as usize, k) as int
}

/// The cell under a 32-bit cursor, as the executable code computes it, is
/// `cell_of` of the cursor; it lies inside the array.
proof fn lemma_cell_of_cursor(x: u32, k: u32)
    requires
        is_log2_in_range(k),
    ensures
        concrete_of(x as usize, k) as int == cell_of(x as int, k),
        0 <= cell_of(x as int, k) < pow2_usize(k),
{
    let a = x as usize;
    lemma_pow2_usize(k);
    lemma_low_bits_below_capacity(a, k);
    assert(concrete_of(a, k) == concrete_of(a & entry_mask(k), k)) by (bit_vector)
        requires
            4 <= k <= 27,
    ;
    lemma_concrete_of_in_range(a, k);
}

/// Cursor positions with different residues select different cells.
proof fn lemma_cell_of_distinct(x: int, y: int, k: u32)
    requires
        is_log2_in_range(k),
        x % (pow2_usize(k) as int) != y % (pow2_usize(k) as int),
    ensures
        cell_of(x, k) != cell_of(y, k),
        0 <= cell_of(x, k) < pow2_usize(k),
{
    let n = pow2_usize(k) as int;
    lemma_pow2_usize(k);
    lemma_concrete_of_bijective(k);
    let rx = (x % n) as usize;
    let ry = (y % n) as usize;
    assert(rx < pow2_usize(k) && ry < pow2_usize(k));
}

/// The residue of a 32-bit cursor advances by one with the cursor, also when
/// the cursor wraps.
proof fn lemma_cursor_step(x: u32, k: u32)
    requires
        is_log2_in_range(k),
    ensures
        (vstd::wrapping::u32_specs::wrapping_add(x, 1) as int) % (pow2_usize(k) as int) == ((x as int)
            % (pow2_usize(k) as int) + 1) % (pow2_usize(k) as int),
{
    let n = pow2_usize(k) as int;
    lemma_pow2_usize(k);
    if x < u32::MAX {
        lemma_add_mod_noop(x as int, 1, n);
        lemma_mod_once(1, n);
    } else {
        let w: usize = x as usize;
        lemma_low_bits_below_capacity(w, k);
        assert(w & entry_mask(k) == entry_mask(k)) by (bit_vector)
            requires
                w == 0xffff_ffff,
                4 <= k <= 27,
        ;
        assert(entry_mask(k) == pow2_usize(k) - 1) by (bit_vector)
            requires
                4 <= k <= 27,
        ;
        lemma_mod_once(n, n);
        lemma_mod_once(0, n);
    }
}

/// The array position of the cell under a cursor, and where that cell sits in
/// the ring.
proof fn lemma_cursor_cell(x: u32, k: u32)
    requires
        is_log2_in_range(k),
    ensures
        concrete_of(x as usize, k) < pow2_usize(k),
        abstract_of(concrete_of(x as usize, k), k) as int == (x as int) % (pow2_usize(k) as int),
{
    lemma_concrete_of_in_range(x as usize, k);
    lemma_abstract_of_concrete_of(x as usize, k);
    lemma_low_bits_below_capacity(x as usize, k);
}

/// The next generation of abstract index `a`: `a` plus the capacity, or, when
/// that sum does not fit in a word, the generation-zero index of the same
/// slot. This is the sum with wrap-around.
pub open spec fn next_generation(a: usize, k: u32) -> usize {
    if a + pow2_usize(k) <= usize::MAX {
        (a + pow2_usize(k)) as usize
    } else {
        a & entry_mask(k)
    }
}

/// The next generation of an abstract index names the same slot, and differs
/// from it.
proof fn lemma_next_generation(a: usize, k: u32)
    requires
        is_log2_in_range(k),
    ensures
        concrete_of(next_generation(a, k), k) == concrete_of(a, k),
        next_generation(a, k) != a,
{
    let n = pow2_usize(k);
    let r = next_generation(a, k);
    lemma_pow2_usize(k);
    if a + n <= usize::MAX {
        assert(concrete_of(r, k) == concrete_of(a, k)) by (bit_vector)
            requires
                4 <= k <= 27,
                n == 1usize << k,
                r == a + n,
        ;
    } else {
        assert(concrete_of(r, k) == concrete_of(a, k)) by (bit_vector)
            requires
                4 <= k <= 27,
                r == a & entry_mask(k),
        ;
        lemma_low_bits_below_capacity(a, k);
    }
}

/// The name a slot gets back when its entry is removed: the next generation
/// of its abstract index, skipping [`RESERVED`].
pub open spec fn next_name(a: usize, k: u32) -> usize {
    if next_generation(a, k) == RESERVED {
        next_generation(RESERVED, k)
    } else {
        next_generation(a, k)
    }
}

/// The name a slot gets back names the same slot, is not [`RESERVED`], and
/// differs from the name it replaces.
proof fn lemma_next_name(a: usize, k: u32)
    requires
        is_log2_in_range(k),
    ensures
        concrete_of(next_name(a, k), k) == concrete_of(a, k),
        next_name(a, k) != RESERVED,
        next_name(a, k) != a,
{
    lemma_next_generation(a, k);
    lemma_next_generation(RESERVED, k);
    lemma_pow2_usize(k);
    lemma_low_bits_below_capacity(RESERVED, k);
    lemma_low_bits_below_capacity(a, k);
}

// -----------------------------------------------------------------------------
// Volatile state
// -----------------------------------------------------------------------------

/// The three counters that every insert and remove touches.
pub struct Volatile {
    entries: u32,
    next_id: u32,
    free_id: u32,
}

impl Volatile {
    /// The number of entries counted, including reservations in progress.
    pub closed spec fn spec_entries(self) -> u32 {
        self.entries
    }

    /// The allocation cursor.
    pub closed spec fn spec_next_id(self) -> u32 {
        self.next_id
    }

    /// The free cursor.
    pub closed spec fn spec_free_id(self) -> u32 {
        self.free_id
    }

    /// Fresh counters for a table of the given capacity. At the largest
    /// capacity one entry is counted from the start: that slot is withheld.
    pub fn new(capacity: Capacity) -> (r: Self)
        ensures
            r.spec_entries() == withheld(capacity),
            r.spec_next_id() == 0,
            r.spec_free_id() == 0,
    {
        let entries: u32 = if capacity.log2() == MAX_LOG2 {
            1
        } else {
            0
        };
        Volatile { entries, next_id: 0, free_id: 0 }
    }

    /// The number of entries counted.
    pub fn load_entries(&self) -> (r: u32)
        ensures
            r == self.spec_entries(),
    {
        self.entries
    }

    /// Counts one more entry; returns the previous count.
    pub fn incr_entries(&mut self) -> (r: u32)
        requires
            old(self).spec_entries() < u32::MAX,
        ensures
            r == old(self).spec_entries(),
            final(self).spec_entries() == old(self).spec_entries() + 1,
            final(self).spec_next_id() == old(self).spec_next_id(),
            final(self).spec_free_id() == old(self).spec_free_id(),
    {
        let prev = self.entries;
        self.entries = self.entries + 1;
        prev
    }

    /// Counts one entry less; returns the previous count.
    pub fn decr_entries(&mut self) -> (r: u32)
        requires
            old(self).spec_entries() > 0,
        ensures
            r == old(self).spec_entries(),
            final(self).spec_entries() == old(self).spec_entries() - 1,
            final(self).spec_next_id() == old(self).spec_next_id(),
            final(self).spec_free_id() == old(self).spec_free_id(),
    {
        let prev = self.entries;
        self.entries = self.entries - 1;
        prev
    }

    /// Replaces the entry count by `updated` if it equals `current`. Returns
    /// the count found, as `Ok` when it was replaced and as `Err` otherwise.
    pub fn swap_entries(&mut self, current: u32, updated: u32) -> (r: Result<u32, u32>)
        ensures
            old(self).spec_entries() == current ==> r == Ok::<u32, u32>(current)
                && final(self).spec_entries() == updated,
            old(self).spec_entries() != current ==> r == Err::<u32, u32>(old(self).spec_entries())
                && final(self).spec_entries() == old(self).spec_entries(),
            final(self).spec_next_id() == old(self).spec_next_id(),
            final(self).spec_free_id() == old(self).spec_free_id(),
    {
        if self.entries == current {
            self.entries = updated;
            Ok(current)
        } else {
            Err(self.entries)
        }
    }

    /// Takes the allocation cursor and advances it, wrapping at `2^32`.
    pub fn fetch_next_id(&mut self) -> (r: Abstract)
        ensures
            r@ == old(self).spec_next_id() as usize,
            final(self).spec_next_id() == vstd::wrapping::u32_specs::wrapping_add(
                old(self).spec_next_id(),
                1,
            ),
            final(self).spec_entries() == old(self).spec_entries(),
            final(self).spec_free_id() == old(self).spec_free_id(),
    {
        let id = self.next_id;
        self.next_id = self.next_id.wrapping_add(1);
        Abstract::new(id as usize)
    }

    /// Takes the free cursor and advances it, wrapping at `2^32`.
    pub fn fetch_free_id(&mut self) -> (r: Abstract)
        ensures
            r@ == old(self).spec_free_id() as usize,
            final(self).spec_free_id() == vstd::wrapping::u32_specs::wrapping_add(
                old(self).spec_free_id(),
                1,
            ),
            final(self).spec_entries() == old(self).spec_entries(),
            final(self).spec_next_id() == old(self).spec_next_id(),
    {
        let id = self.free_id;
        self.free_id = self.free_id.wrapping_add(1);
        Abstract::new(id as usize)
    }

    /// The allocation cursor.
    pub fn load_next_id(&self) -> (r: usize)
        ensures
            r == self.spec_next_id() as usize,
    {
        self.next_id as usize
    }

    /// The free cursor.
    pub fn load_free_id(&self) -> (r: usize)
        ensures
            r == self.spec_free_id() as usize,
    {
        self.free_id as usize
    }
}

// -----------------------------------------------------------------------------
// Table state
// -----------------------------------------------------------------------------

/// A fixed-capacity table of values addressed by [`Detached`] indices.
pub struct Table<T> {
    capacity: Capacity,
    volatile: CachePadded<Volatile>,
    data: Vec<Option<T>>,
    slot: Vec<usize>,
}

impl<T> View for Table<T> {
    type V = Seq<Option<T>>;

    /// The slots, by array position: `Some` for an occupied slot.
    closed spec fn view(&self) -> Seq<Option<T>> {
        self.data@
    }
}

impl<T> Table<T> {
    /// The capacity the table was built with.
    pub closed spec fn spec_capacity(&self) -> Capacity {
        self.capacity
    }

    /// The number of entries in the table.
    pub open spec fn spec_len(&self) -> nat {
        live_count(self@)
    }

    /// The array position that `key` names.
    pub open spec fn slot_of(&self, key: Detached) -> int {
        concrete_of_detached(key@, self.spec_capacity().spec_log2()) as int
    }

    /// The entry in the slot that `key` names.
    pub open spec fn lookup(&self, key: Detached) -> Option<T> {
        self@[self.slot_of(key)]
    }

    /// `after` and `r` are what inserting `value` into `self` gives: `None`
    /// exactly when the table is full, and otherwise a key naming a slot that
    /// was empty and now holds `value`, every other slot unchanged. The key is
    /// the public form of the first name queued in the free list, and the
    /// names behind it move up one place.
    pub open spec fn inserted(self, value: T, after: Self, r: Option<Detached>) -> bool {
        &&& after.wf()
        &&& after.spec_capacity() == self.spec_capacity()
        &&& (r is None <==> self.spec_len() == usable(self.spec_capacity()))
        &&& r is None ==> after@ == self@
        &&& r is None ==> forall|i: nat| #[trigger] after.claim_name(i) == self.claim_name(i)
        &&& r matches Some(key) ==> {
            &&& self.lookup(key) is None
            &&& after@ == self@.update(self.slot_of(key), Some(value))
            &&& after.spec_len() == self.spec_len() + 1
            &&& self.is_free_name(abstract_of(key@, self.spec_capacity().spec_log2()))
            &&& abstract_of(key@, self.spec_capacity().spec_log2()) == self.claim_name(0)
            &&& forall|i: nat|
                i + 1 < self.spec_capacity().spec_size() ==> #[trigger] after.claim_name(i)
                    == self.claim_name(i + 1)
        }
    }

    /// `after` and `r` are what removing `key` from `self` gives: the slot
    /// that `key` names is emptied, and `r` tells whether it held an entry.
    /// When it did, the slot's next-generation name joins the end of the free
    /// list, behind the names already queued.
    pub open spec fn removed(self, key: Detached, after: Self, r: bool) -> bool {
        &&& after.wf()
        &&& after.spec_capacity() == self.spec_capacity()
        &&& r == self.lookup(key) is Some
        &&& after@ == self@.update(self.slot_of(key), None)
        &&& after.spec_len() + (if r {
            1nat
        } else {
            0nat
        }) == self.spec_len()
        &&& forall|i: nat|
            i < self.spec_capacity().spec_size() - self.spec_len() ==> #[trigger] after.claim_name(i)
                == self.claim_name(i)
        &&& r ==> after.claim_name((self.spec_capacity().spec_size() - self.spec_len()) as nat)
            == next_name(
            abstract_of(key@, self.spec_capacity().spec_log2()),
            self.spec_capacity().spec_log2(),
        )
        &&& r ==> after.is_free_name(
            next_name(
                abstract_of(key@, self.spec_capacity().spec_log2()),
                self.spec_capacity().spec_log2(),
            ),
        )
    }

    spec fn counters(&self) -> Volatile {
        self.volatile.inner()
    }

    spec fn size(&self) -> int {
        self.capacity.spec_size() as int
    }

    spec fn free_residue(&self) -> int {
        self.counters().free_id as int % self.size()
    }

    /// Where the metadata cell at position `p` sits in the ring, counted from
    /// the free cursor.
    spec fn rank(&self, p: int) -> int {
        ring_rank(
            abstract_of(p as usize, self.capacity.spec_log2()) as int,
            self.free_residue(),
            self.size(),
        )
    }

    /// The table's invariant, while `entries_extra` reservations and
    /// `ring_extra` claimed cells are not yet matched by an occupied slot.
    spec fn inv(&self, entries_extra: int, ring_extra: int) -> bool {
        let k = self.capacity.spec_log2();
        let n = self.size();
        let live = live_count(self.data@) as int;
        let v = self.counters();
        &&& is_log2_in_range(k)
        &&& self.data@.len() == n
        &&& self.slot@.len() == n
        &&& v.entries as int == live + withheld(self.capacity) + entries_extra
        &&& v.entries as int <= n
        &&& v.next_id as int == (v.free_id as int + live + ring_extra) % 0x1_0000_0000
        &&& v.next_id as int % n == (self.free_residue() + live + ring_extra) % n
        &&& forall|p: int|
            0 <= p < n ==> (#[trigger] self.slot@[p] == RESERVED <==> self.rank(p) < live
                + ring_extra)
        &&& forall|p: int|
            0 <= p < n && #[trigger] self.slot@[p] != RESERVED ==> self.data@[concrete_of(
                self.slot@[p],
                k,
            ) as int] is None
        &&& forall|p: int, q: int|
            0 <= p < n && 0 <= q < n && p != q && #[trigger] self.slot@[p] != RESERVED
                && #[trigger] self.slot@[q] != RESERVED ==> concrete_of(self.slot@[p], k)
                != concrete_of(self.slot@[q], k)
    }

    /// The table is well formed: its counters agree with its slots, the
    /// reserved cells are exactly those between the two cursors, and the free
    /// list names only empty slots, each at most once.
    pub closed spec fn wf(&self) -> bool {
        self.inv(0, 0)
    }

    /// No free cell names array position `c`.
    spec fn not_free(&self, c: int) -> bool {
        forall|p: int|
            0 <= p < self.size() && #[trigger] self.slot@[p] != RESERVED ==> concrete_of(
                self.slot@[p],
                self.capacity.spec_log2(),
            ) != c
    }

    /// `a` is a slot name held by a free cell of the ring.
    pub closed spec fn is_free_name(&self, a: usize) -> bool {
        &&& a != RESERVED
        &&& exists|p: int| 0 <= p < self.size() && self.slot@[p] == a
    }

    /// The name held `i` cells past the allocation cursor. For `i` below the
    /// number of free slots these are the free names in the order in which
    /// inserts claim them.
    pub closed spec fn claim_name(&self, i: nat) -> usize {
        self.slot@[cell_of(self.counters().next_id as int + i, self.capacity.spec_log2())]
    }

    /// Builds an empty table with `capacity` slots.
    pub fn new(capacity: Capacity) -> (r: Self)
        ensures
            r.wf(),
            r.spec_capacity() == capacity,
            r@ == Seq::new(capacity.spec_size() as nat, |i: int| None::<T>),
            r.spec_len() == 0,
            forall|i: nat| i < capacity.spec_size() ==> #[trigger] r.claim_name(i) == i as usize,
    {
        let k = capacity.log2();
        let data = Self::new_data_array(capacity);
        let slot = Self::new_slot_array(capacity);
        let r = Table { capacity, volatile: CachePadded::new(Volatile::new(capacity)), data, slot };
        proof {
            let n = capacity.spec_size() as int;
            lemma_pow2_usize(k);
            lemma_live_count_empty(r.data@);
            lemma_concrete_of_bijective(k);
            lemma_mod_once(0, n);
            assert forall|p: int| 0 <= p < n implies (#[trigger] r.slot@[p] == RESERVED <==> r.rank(
                p,
            ) < 0) by {
                assert(abstract_of(p as usize, k) < pow2_usize(k));
            }
            assert forall|p: int, q: int|
                0 <= p < n && 0 <= q < n && p != q && #[trigger] r.slot@[p] != RESERVED
                    && #[trigger] r.slot@[q] != RESERVED implies concrete_of(r.slot@[p], k)
                != concrete_of(r.slot@[q], k) by {
                assert(concrete_of(abstract_of(p as usize, k), k) == p as usize);
                assert(concrete_of(abstract_of(q as usize, k), k) == q as usize);
            }
            assert(r@ =~= Seq::new(capacity.spec_size() as nat, |i: int| None::<T>));
            assert forall|i: nat| i < capacity.spec_size() implies #[trigger] r.claim_name(i)
                == i as usize by {
                lemma_mod_once(i as int, n);
                lemma_abstract_of_concrete_of(i as usize, k);
                lemma_low_bits_below_capacity(i as usize, k);
                lemma_concrete_of_in_range(i as usize, k);
            }
        }
        r
    }

    /// The data array of an empty table: every slot empty.
    fn new_data_array(capacity: Capacity) -> (r: Vec<Option<T>>)
        ensures
            r@.len() == capacity.spec_size(),
            forall|i: int| 0 <= i < r@.len() ==> r@[i] is None,
    {
        let n = capacity.as_usize();
        let mut data: Vec<Option<T>> = Vec::with_capacity(n);
        let mut i: usize = 0;
        while i < n
            invariant
                i <= n,
                n == capacity.spec_size(),
                data@.len() == i,
                forall|j: int| 0 <= j < i ==> data@[j] is None,
            decreases n - i,
        {
            data.push(None);
            i = i + 1;
        }
        data
    }

    /// The metadata array of an empty table: the cell at position `p` holds
    /// the generation-zero abstract index of slot `p`, so the first `N`
    /// allocations visit every slot once, striped across cache lines.
    fn new_slot_array(capacity: Capacity) -> (r: Vec<usize>)
        ensures
            r@.len() == capacity.spec_size(),
            forall|p: int|
                0 <= p < r@.len() ==> r@[p] == abstract_of(p as usize, capacity.spec_log2()),
    {
        let n = capacity.as_usize();
        let k = capacity.log2();
        let blocks = capacity.blocks();
        let mut slot: Vec<usize> = Vec::with_capacity(n);
        let mut offset: usize = 0;
        proof {
            lemma_pow2_usize(k);
        }
        while offset < n
            invariant
                offset <= n,
                n == capacity.spec_size(),
                k == capacity.spec_log2(),
                is_log2_in_range(k),
                blocks == pow2_usize((k - CACHE_LINE_SHIFT) as u32),
                slot@.len() == offset,
                forall|p: int| 0 <= p < offset ==> slot@[p] == abstract_of(p as usize, k),
            decreases n - offset,
        {
            let block: usize = offset / CACHE_LINE_SLOTS;
            let index: usize = offset % CACHE_LINE_SLOTS;
            assert(index * blocks + block == abstract_of(offset, k)) by (bit_vector)
                requires
                    4 <= k <= 27,
                    offset < (1usize << k),
                    blocks == 1usize << ((k - 4) as u32),
                    block == offset / 16,
                    index == offset % 16,
            ;
            assert(index * blocks + block < n) by (bit_vector)
                requires
                    4 <= k <= 27,
                    offset < (1usize << k),
                    n == 1usize << k,
                    blocks == 1usize << ((k - 4) as u32),
                    block == offset / 16,
                    index == offset % 16,
            ;
            let value: usize = index * blocks + block;
            slot.push(value);
            offset = offset + 1;
        }
        slot
    }

    /// The number of entries the table can hold: its capacity, less the slot
    /// withheld at the largest capacity.
    pub fn cap(&self) -> (r: usize)
        requires
            self.wf(),
        ensures
            r == usable(self.spec_capacity()),
    {
        let n = self.capacity.as_usize();
        if self.capacity.log2() == MAX_LOG2 {
            n - 1
        } else {
            n
        }
    }

    /// The number of entries in the table.
    pub fn len(&self) -> (r: u32)
        requires
            self.wf(),
        ensures
            r == self.spec_len(),
            r <= usable(self.spec_capacity()),
    {
        let mut len: u32 = self.volatile.get().load_entries();
        let mut max: u32 = self.capacity.as_u32();
        if self.capacity.log2() == MAX_LOG2 {
            len = len - 1;
            max = max - 1;
        }
        proof {
            lemma_live_count_bound(self.data@);
        }
        // The count never exceeds the capacity here; the bound is kept so
        // that the reported length is clamped by construction.
        if len > max {
            return max;
        }
        len
    }

    /// Whether the table holds no entries.
    pub fn is_empty(&self) -> (r: bool)
        requires
            self.wf(),
        ensures
            r == (self.spec_len() == 0),
    {
        self.len() == 0
    }

    /// Counts one more entry if there is room for it.
    fn reserve_slot(&mut self) -> (r: bool)
        requires
            old(self).wf(),
        ensures
            r == (old(self).spec_len() < usable(old(self).spec_capacity())),
            r ==> final(self).inv(1, 0),
            !r ==> final(self).wf(),
            final(self)@ == old(self)@,
            final(self).capacity == old(self).capacity,
            final(self).slot@ == old(self).slot@,
            final(self).counters().next_id == old(self).counters().next_id,
            final(self).counters().free_id == old(self).counters().free_id,
    {
        let n = self.capacity.as_u32();
        proof {
            lemma_live_count_bound(self.data@);
            lemma_pow2_usize(self.capacity.spec_log2());
        }
        let prev: u32 = self.volatile.get_mut().incr_entries();
        if prev < n {
            return true;
        }
        // The table is full: undo the increment.

        let current: u32 = prev + 1;
        let undone = self.volatile.get_mut().swap_entries(current, prev);
        assert(undone is Ok);
        false
    }

    /// Claims a free slot name from the ring under the allocation cursor.
    fn acquire_slot(&mut self) -> (r: Abstract)
        requires
            old(self).inv(1, 0),
            old(self).spec_len() < usable(old(self).spec_capacity()),
        ensures
            final(self).inv(1, 1),
            final(self)@ == old(self)@,
            final(self).capacity == old(self).capacity,
            r@ != RESERVED,
            old(self).is_free_name(r@),
            r@ == old(self).slot@[cell_of(
                old(self).counters().next_id as int,
                old(self).capacity.spec_log2(),
            )],
            final(self).slot@ == old(self).slot@.update(
                cell_of(old(self).counters().next_id as int, old(self).capacity.spec_log2()),
                RESERVED,
            ),
            final(self).counters().next_id == vstd::wrapping::u32_specs::wrapping_add(
                old(self).counters().next_id,
                1,
            ),
            final(self).counters().free_id == old(self).counters().free_id,
            final(self).counters().entries == old(self).counters().entries,
            final(self)@[concrete_of(r@, final(self).capacity.spec_log2()) as int] is None,
            final(self).not_free(concrete_of(r@, final(self).capacity.spec_log2()) as int),
    {
        let ghost k = self.capacity.spec_log2();
        let ghost n = self.size();
        let ghost live = live_count(self.data@) as int;
        let ghost f = self.free_residue();
        let cursor: Abstract = self.volatile.get_mut().fetch_next_id();
        let cell: Concrete = Concrete::from_abstract(cursor, self.capacity);
        let c: usize = cell.get();
        // The cells from the free cursor up to the allocation cursor are the
        // reserved ones, so the cell under the allocation cursor holds a free
        // name: with exclusive access the claim never has to move on.
        let claimed: usize = self.slot[c];
        proof {
            let x = old(self).counters().next_id;
            lemma_pow2_usize(k);
            lemma_cursor_cell(x, k);
            lemma_cell_of_cursor(x, k);
            lemma_concrete_of_bijective(k);
            lemma_mod_once(f + live, n);
            assert(self.rank(c as int) == live);
        }
        self.slot.set(c, RESERVED);
        proof {
            let x = old(self).counters().next_id;
            let y = self.counters().next_id;
            lemma_cursor_step(x, k);
            lemma_mod_once(x as int % n + 1, n);
            lemma_mod_once(f + live, n);
            lemma_mod_once(f + live + 1, n);
            if x < u32::MAX {
                lemma_mod_once(x as int + 1, 0x1_0000_0000);
            }
            lemma_mod_once(old(self).counters().free_id as int + live, 0x1_0000_0000);
            lemma_mod_once(old(self).counters().free_id as int + live + 1, 0x1_0000_0000);
            assert forall|p: int| 0 <= p < n implies (#[trigger] self.slot@[p] == RESERVED
                <==> self.rank(p) < live + 1) by {
                if p != c {
                    assert(abstract_of(p as usize, k) < pow2_usize(k));
                    assert(abstract_of(c as usize, k) < pow2_usize(k));
                    assert(concrete_of(abstract_of(p as usize, k), k) == p as usize);
                    assert(concrete_of(abstract_of(c as usize, k), k) == c as usize);
                }
            }
            assert forall|p: int|
                0 <= p < n && #[trigger] self.slot@[p] != RESERVED implies concrete_of(
                self.slot@[p],
                k,
            ) != concrete_of(claimed, k) by {
                assert(old(self).slot@[p] != RESERVED);
                assert(p != c);
            }
        }
        Abstract::new(claimed)
    }

    /// Stores `value` in the slot named by `claimed` and returns its public
    /// index.
    fn publish(&mut self, claimed: Abstract, value: T) -> (r: Detached)
        requires
            old(self).inv(1, 1),
            claimed@ != RESERVED,
            old(self)@[concrete_of(claimed@, old(self).capacity.spec_log2()) as int] is None,
            old(self).not_free(concrete_of(claimed@, old(self).capacity.spec_log2()) as int),
        ensures
            final(self).wf(),
            final(self).capacity == old(self).capacity,
            r@ == detached_of(claimed@, old(self).capacity.spec_log2()),
            final(self)@ == old(self)@.update(final(self).slot_of(r), Some(value)),
            final(self).slot@ == old(self).slot@,
            final(self).counters() == old(self).counters(),
            final(self).spec_len() == old(self).spec_len() + 1,
            old(self)@[final(self).slot_of(r)] is None,
    {
        let ghost k = self.capacity.spec_log2();
        let cell: Concrete = Concrete::from_abstract(claimed, self.capacity);
        let key: Detached = Detached::from_abstract(claimed, self.capacity);
        let c: usize = cell.get();
        proof {
            lemma_detached_keeps_position(claimed@, k);
            lemma_live_count_update(self.data@, c as int, Some(value));
        }
        self.data.set(c, Some(value));
        proof {
            let n = self.size();
            assert forall|p: int|
                0 <= p < n && #[trigger] self.slot@[p] != RESERVED implies self.data@[concrete_of(
                self.slot@[p],
                k,
            ) as int] is None by {
                assert(old(self).not_free(c as int));
                lemma_concrete_of_in_range(self.slot@[p], k);
            }
        }
        key
    }

    /// Reserves room, claims a slot name and stores `value` under it.
    pub fn insert(&mut self, value: T) -> (r: Option<Detached>)
        requires
            old(self).wf(),
        ensures
            old(self).inserted(value, *final(self), r),
    {
        proof {
            lemma_live_count_bound(self.data@);
        }
        if !self.reserve_slot() {
            return None;
        }
        let ghost reserved = *self;
        let claimed: Abstract = self.acquire_slot();
        let ghost taken = *self;
        let key: Detached = self.publish(claimed, value);
        proof {
            lemma_detached_round_trip(claimed@, self.capacity.spec_log2());
            lemma_claims_after_take(reserved, taken);
            assert forall|i: nat| i + 1 < self.capacity.spec_size() implies #[trigger] self.claim_name(
                i,
            ) == old(self).claim_name(i + 1) by {
                assert(self.claim_name(i) == taken.claim_name(i));
                assert(reserved.claim_name(i + 1) == old(self).claim_name(i + 1));
            }
        }
        Some(key)
    }

    /// Like [`Table::insert`], with the value built by `init` from the index
    /// that will name it. Should `init` panic, the claimed slot stays
    /// reserved and is never handed out again.
    pub fn write<F>(&mut self, init: F) -> (r: Option<Detached>) where F: FnOnce(Detached) -> T
        requires
            old(self).wf(),
            forall|key: Detached| init.requires((key,)),
        ensures
            final(self).wf(),
            final(self).spec_capacity() == old(self).spec_capacity(),
            r is None <==> old(self).spec_len() == usable(old(self).spec_capacity()),
            r is None ==> final(self)@ == old(self)@,
            r matches Some(key) ==> {
                &&& old(self)@[final(self).slot_of(key)] is None
                &&& final(self).spec_len() == old(self).spec_len() + 1
                &&& abstract_of(key@, old(self).spec_capacity().spec_log2()) == old(self).claim_name(0)
                &&& forall|i: nat|
                    i + 1 < old(self).spec_capacity().spec_size() ==> #[trigger] final(self).claim_name(i) == old(self).claim_name(i + 1)
                &&& exists|value: T|
                    init.ensures((key,), value) && final(self)@ == old(self)@.update(
                        final(self).slot_of(key),
                        Some(value),
                    )
            },
    {
        proof {
            lemma_live_count_bound(self.data@);
        }
        if !self.reserve_slot() {
            return None;
        }
        let ghost reserved = *self;
        let claimed: Abstract = self.acquire_slot();
        let ghost taken = *self;
        let key: Detached = Detached::from_abstract(claimed, self.capacity);
        let value: T = init(key);
        self.publish(claimed, value);
        proof {
            assert(init.ensures((key,), value));
            lemma_detached_round_trip(claimed@, self.capacity.spec_log2());
            lemma_claims_after_take(reserved, taken);
            assert forall|i: nat| i + 1 < self.capacity.spec_size() implies #[trigger] self.claim_name(
                i,
            ) == old(self).claim_name(i + 1) by {
                assert(self.claim_name(i) == taken.claim_name(i));
                assert(reserved.claim_name(i + 1) == old(self).claim_name(i + 1));
            }
        }
        Some(key)
    }

    /// The next-generation name of a slot: `capacity` added to its abstract
    /// index, with wrap-around, skipping [`RESERVED`].
    fn generate_next_slot(&self, index: Abstract) -> (r: usize)
        ensures
            r == next_name(index@, self.capacity.spec_log2()),
            r != RESERVED,
            concrete_of(r, self.capacity.spec_log2()) == concrete_of(
                index@,
                self.capacity.spec_log2(),
            ),
    {
        let k = self.capacity.log2();
        let n = self.capacity.as_usize();
        let mask = self.capacity.id_mask_entry();
        let mut data: usize = index.get();
        proof {
            lemma_next_name(data, k);
        }
        data = if data <= usize::MAX - n {
            data + n
        } else {
            data & mask
        };
        if data == RESERVED {
            proof {
                lemma_next_generation(data, k);
                lemma_low_bits_below_capacity(data, k);
                lemma_pow2_usize(k);
            }
            data = data & mask;
        }
        data
    }

    /// Returns a slot name to the ring under the free cursor and uncounts its
    /// entry.
    fn release_slot(&mut self, index: Abstract)
        requires
            old(self).inv(1, 1),
            old(self)@[concrete_of(index@, old(self).capacity.spec_log2()) as int] is None,
            old(self).not_free(concrete_of(index@, old(self).capacity.spec_log2()) as int),
        ensures
            final(self).wf(),
            final(self)@ == old(self)@,
            final(self).capacity == old(self).capacity,
            final(self).is_free_name(next_name(index@, old(self).capacity.spec_log2())),
            final(self).slot@ == old(self).slot@.update(
                cell_of(old(self).counters().free_id as int, old(self).capacity.spec_log2()),
                next_name(index@, old(self).capacity.spec_log2()),
            ),
            final(self).counters().free_id == vstd::wrapping::u32_specs::wrapping_add(
                old(self).counters().free_id,
                1,
            ),
            final(self).counters().next_id == old(self).counters().next_id,
            final(self).counters().entries == old(self).counters().entries - 1,
    {
        let ghost k = self.capacity.spec_log2();
        let ghost n = self.size();
        let ghost live = live_count(self.data@) as int;
        let ghost f = self.free_residue();
        let data: usize = self.generate_next_slot(index);
        let cursor: Abstract = self.volatile.get_mut().fetch_free_id();
        let cell: Concrete = Concrete::from_abstract(cursor, self.capacity);
        let c: usize = cell.get();
        proof {
            let x = old(self).counters().free_id;
            lemma_pow2_usize(k);
            lemma_cursor_cell(x, k);
            lemma_cell_of_cursor(x, k);
            lemma_concrete_of_bijective(k);
            assert(old(self).rank(c as int) == 0);
        }
        // The cell under the free cursor is the oldest reserved one, so the
        // name always goes into the first cell tried.
        self.slot.set(c, data);
        self.volatile.get_mut().decr_entries();
        proof {
            let x = old(self).counters().free_id;
            lemma_cursor_step(x, k);
            lemma_mod_once(f + 1, n);
            if x < u32::MAX {
                lemma_mod_once(x as int + 1, 0x1_0000_0000);
            }
            lemma_mod_once(x as int + live + 1, 0x1_0000_0000);
            lemma_mod_once(((x as int + 1) % 0x1_0000_0000) + live, 0x1_0000_0000);
            lemma_mod_once(f + live + 1, n);
            lemma_mod_once(f + 1 + live, n);
            lemma_mod_once(((f + 1) % n) + live, n);
            assert(self.slot@[c as int] == data);
            assert forall|p: int| 0 <= p < n implies (#[trigger] self.slot@[p] == RESERVED
                <==> self.rank(p) < live) by {
                assert(abstract_of(p as usize, k) < pow2_usize(k));
                if p != c {
                    assert(abstract_of(c as usize, k) < pow2_usize(k));
                    assert(concrete_of(abstract_of(p as usize, k), k) == p as usize);
                    assert(concrete_of(abstract_of(c as usize, k), k) == c as usize);
                }
            }
            assert forall|p: int|
                0 <= p < n && #[trigger] self.slot@[p] != RESERVED implies self.data@[concrete_of(
                self.slot@[p],
                k,
            ) as int] is None by {
                if p != c {
                    assert(old(self).slot@[p] != RESERVED);
                }
            }
            assert forall|p: int, q: int|
                0 <= p < n && 0 <= q < n && p != q && #[trigger] self.slot@[p] != RESERVED
                    && #[trigger] self.slot@[q] != RESERVED implies concrete_of(self.slot@[p], k)
                != concrete_of(self.slot@[q], k) by {
                if p != c && q != c {
                    assert(old(self).slot@[p] != RESERVED);
                    assert(old(self).slot@[q] != RESERVED);
                } else if p == c {
                    assert(old(self).slot@[q] != RESERVED);
                } else {
                    assert(old(self).slot@[p] != RESERVED);
                }
            }
        }
    }

    /// Removes the entry in the slot that `key` names. Returns whether there
    /// was one.
    pub fn remove(&mut self, key: Detached) -> (r: bool)
        requires
            old(self).wf(),
        ensures
            old(self).removed(key, *final(self), r),
    {
        let ghost k = self.capacity.spec_log2();
        let index: Concrete = Concrete::from_detached(key, self.capacity);
        let c: usize = index.get();
        if self.data[c].is_none() {
            proof {
                assert(self.data@.update(c as int, None) =~= self.data@);
            }
            return false;
        }
        proof {
            lemma_live_count_update(self.data@, c as int, None);
            lemma_concrete_of_abstract_of(key@, k);
        }
        self.data.set(c, None);
        proof {
            let n = self.size();
            assert forall|p: int|
                0 <= p < n && #[trigger] self.slot@[p] != RESERVED implies concrete_of(
                self.slot@[p],
                k,
            ) != c as int by {
                lemma_concrete_of_in_range(self.slot@[p], k);
                assert(old(self).data@[concrete_of(self.slot@[p], k) as int] is None);
            }
            assert forall|p: int|
                0 <= p < n && #[trigger] self.slot@[p] != RESERVED implies self.data@[concrete_of(
                self.slot@[p],
                k,
            ) as int] is None by {
                lemma_concrete_of_in_range(self.slot@[p], k);
                assert(old(self).data@[concrete_of(self.slot@[p], k) as int] is None);
            }
        }
        let ghost cleared = *self;
        self.release_slot(Abstract::from_detached(key, self.capacity));
        proof {
            lemma_live_count_bound(old(self).data@);
            lemma_claims_after_return(
                *old(self),
                *self,
                next_name(abstract_of(key@, k), k),
                live_count(old(self).data@) as int,
            );
        }
        true
    }

    /// Whether the slot that `key` names is occupied.
    pub fn contains(&self, key: Detached) -> (r: bool)
        requires
            self.wf(),
        ensures
            r == self.lookup(key) is Some,
    {
        let index: Concrete = Concrete::from_detached(key, self.capacity);
        self.data[index.get()].is_some()
    }

    /// Applies `f` to the entry in the slot that `key` names, if there is one.
    pub fn with<F, R>(&self, key: Detached, f: F) -> (r: Option<R>) where F: Fn(&T) -> R
        requires
            self.wf(),
            forall|value: &T| f.requires((value,)),
        ensures
            r is Some <==> self.lookup(key) is Some,
            r matches Some(out) ==> f.ensures((&self.lookup(key)->Some_0,), out),
    {
        let index: Concrete = Concrete::from_detached(key, self.capacity);
        match &self.data[index.get()] {
            Some(value) => Some(f(value)),
            None => None,
        }
    }

    /// A copy of the entry in the slot that `key` names, if there is one.
    pub fn read(&self, key: Detached) -> (r: Option<T>) where T: Copy
        requires
            self.wf(),
        ensures
            r == self.lookup(key),
    {
        let index: Concrete = Concrete::from_detached(key, self.capacity);
        match &self.data[index.get()] {
            Some(value) => Some(*value),
            None => None,
        }
    }

    /// The public indices of the occupied slots, found by scanning the
    /// abstract indices `0..N` in order. Each index is the generation-zero
    /// name of its slot, which may differ from the key the entry was inserted
    /// under.
    pub fn weak_keys(&self) -> (r: Vec<Detached>)
        requires
            self.wf(),
        ensures
            r@.len() == weak_keys_upto(
                self@,
                self.spec_capacity().spec_log2(),
                self.spec_capacity().spec_size() as nat,
            ).len(),
            forall|j: int|
                0 <= j < r@.len() ==> #[trigger] r@[j]@ == weak_keys_upto(
                    self@,
                    self.spec_capacity().spec_log2(),
                    self.spec_capacity().spec_size() as nat,
                )[j],
            forall|j: int| 0 <= j < r@.len() ==> (#[trigger] self.lookup(r@[j])) is Some,
    {
        let ghost k = self.capacity.spec_log2();
        let n: usize = self.capacity.as_usize();
        let mut keys: Vec<Detached> = Vec::new();
        let mut index: usize = 0;
        while index < n
            invariant
                self.wf(),
                index <= n,
                n == self.capacity.spec_size(),
                k == self.capacity.spec_log2(),
                keys@.len() == weak_keys_upto(self@, k, index as nat).len(),
                forall|j: int|
                    0 <= j < keys@.len() ==> #[trigger] keys@[j]@ == weak_keys_upto(
                        self@,
                        k,
                        index as nat,
                    )[j],
                forall|j: int| 0 <= j < keys@.len() ==> (#[trigger] self.lookup(keys@[j])) is Some,
            decreases n - index,
        {
            let abstract_idx: Abstract = Abstract::new(index);
            let concrete_idx: Concrete = Concrete::from_abstract(abstract_idx, self.capacity);
            if self.data[concrete_idx.get()].is_some() {
                let key = Detached::from_abstract(abstract_idx, self.capacity);
                proof {
                    lemma_detached_keeps_position(index, k);
                }
                keys.push(key);
            }
            index = index + 1;
        }
        keys
    }
}

/// The public indices that scanning abstract indices `0..n` yields: for each
/// abstract index whose slot is occupied, its public form.
pub open spec fn weak_keys_upto<T>(slots: Seq<Option<T>>, k: u32, n: nat) -> Seq<usize>
    decreases n,
{
    if n == 0 {
        Seq::empty()
    } else {
        let prev = weak_keys_upto(slots, k, (n - 1) as nat);
        let a = (n - 1) as usize;
        if slots[concrete_of(a, k) as int] is Some {
            prev.push(detached_of(a, k))
        } else {
            prev
        }
    }
}

/// Taking the name under the allocation cursor moves every later name one
/// place forward.
proof fn lemma_claims_after_take<T>(before: Table<T>, after: Table<T>)
    requires
        is_log2_in_range(before.capacity.spec_log2()),
        before.slot@.len() == before.size(),
        after.capacity == before.capacity,
        after.slot@ == before.slot@.update(
            cell_of(before.counters().next_id as int, before.capacity.spec_log2()),
            RESERVED,
        ),
        after.counters().next_id == vstd::wrapping::u32_specs::wrapping_add(
            before.counters().next_id,
            1,
        ),
    ensures
        forall|i: nat|
            i + 1 < before.capacity.spec_size() ==> #[trigger] after.claim_name(i)
                == before.claim_name(i + 1),
{
    let k = before.capacity.spec_log2();
    let n = before.size();
    let x = before.counters().next_id;
    let y = after.counters().next_id;
    lemma_pow2_usize(k);
    lemma_cursor_step(x, k);
    lemma_add_mod_noop(x as int, 1, n);
    lemma_mod_once(1, n);
    lemma_cell_of_cursor(x, k);
    assert forall|i: nat| i + 1 < before.capacity.spec_size() implies #[trigger] after.claim_name(i)
        == before.claim_name(i + 1) by {
        lemma_mod_shift(y as int, x as int + 1, i as int, n);
        assert(x as int + 1 + i == x as int + (i + 1));
        lemma_mod_offset_ne(x as int, i + 1int, n);
        lemma_cell_of_distinct(x as int + (i + 1), x as int, k);
    }
}

/// Returning a name into the cell under the free cursor puts it right after
/// the free names already queued, and leaves those in place.
proof fn lemma_claims_after_return<T>(before: Table<T>, after: Table<T>, name: usize, live: int)
    requires
        is_log2_in_range(before.capacity.spec_log2()),
        before.slot@.len() == before.size(),
        after.capacity == before.capacity,
        1 <= live <= before.size(),
        before.counters().next_id as int % before.size() == (before.free_residue() + live)
            % before.size(),
        after.counters().next_id == before.counters().next_id,
        after.slot@ == before.slot@.update(
            cell_of(before.counters().free_id as int, before.capacity.spec_log2()),
            name,
        ),
    ensures
        after.claim_name((before.size() - live) as nat) == name,
        forall|i: nat|
            i < before.size() - live ==> #[trigger] after.claim_name(i) == before.claim_name(i),
{
    let k = before.capacity.spec_log2();
    let n = before.size();
    let x = before.counters().next_id as int;
    let f = before.counters().free_id as int;
    let a = f % n;
    lemma_pow2_usize(k);
    lemma_mod_once(a + live, n);
    lemma_mod_shift(x, a + live, n - live, n);
    lemma_mod_once(a + n, n);
    lemma_mod_once(a, n);
    assert((a + live + (n - live)) % n == a);
    assert(a % n == a);
    lemma_mod_shift(f, a, 0, n);
    lemma_cell_of_cursor(before.counters().free_id, k);
    assert(cell_of(x + (n - live), k) == cell_of(f, k));
    assert forall|i: nat| i < before.size() - live implies #[trigger] after.claim_name(i)
        == before.claim_name(i) by {
        lemma_mod_shift(x, a + live, i as int, n);
        assert(a + live + i == a + (live + i));
        lemma_mod_offset_ne(a, live + i as int, n);
        lemma_cell_of_distinct(x + i, f, k);
    }
}

// -----------------------------------------------------------------------------
// Laws of the table
// -----------------------------------------------------------------------------

/// The occupied array positions of `s`.
pub open spec fn live_positions<T>(s: Seq<Option<T>>) -> Set<int> {
    Set::new(|c: int| 0 <= c < s.len() && s[c] is Some)
}

/// The number of occupied slots is the size of the set of occupied positions.
pub proof fn lemma_live_count_is_cardinality<T>(s: Seq<Option<T>>)
    ensures
        live_positions(s).finite(),
        live_positions(s).len() == live_count(s),
    decreases s.len(),
{
    if s.len() == 0 {
        assert(live_positions(s) =~= Set::empty());
    } else {
        let t = s.drop_last();
        lemma_live_count_is_cardinality(t);
        if s.last() is Some {
            assert(live_positions(s) =~= live_positions(t).insert(s.len() - 1));
        } else {
            assert(live_positions(s) =~= live_positions(t));
        }
    }
}

/// A well-formed table has one slot per unit of capacity, a supported
/// capacity, and no more entries than it can hold.
pub proof fn lemma_wf_shape<T>(t: Table<T>)
    requires
        t.wf(),
    ensures
        t@.len() == t.spec_capacity().spec_size(),
        is_log2_in_range(t.spec_capacity().spec_log2()),
        t.spec_len() <= usable(t.spec_capacity()),
{
}

/// On a table whose first `claimed` names have been taken in order from a
/// fresh start, the next insert takes abstract index `claimed`: inserts into
/// a fresh table hand out the abstract indices `0, 1, 2, ...` in turn.
pub proof fn lemma_claims_in_order<T>(
    t0: Table<T>,
    claimed: nat,
    value: T,
    t1: Table<T>,
    key: Detached,
)
    requires
        t0.wf(),
        claimed + 1 < t0.spec_capacity().spec_size(),
        forall|j: nat|
            j + claimed < t0.spec_capacity().spec_size() ==> #[trigger] t0.claim_name(j) == (j
                + claimed) as usize,
        t0.inserted(value, t1, Some(key)),
    ensures
        abstract_of(key@, t0.spec_capacity().spec_log2()) == claimed as usize,
        forall|j: nat|
            j + claimed + 1 < t0.spec_capacity().spec_size() ==> #[trigger] t1.claim_name(j) == (j
                + claimed + 1) as usize,
{
    assert(t0.claim_name(0) == claimed as usize);
    assert forall|j: nat| j + claimed + 1 < t0.spec_capacity().spec_size() implies #[trigger] t1.claim_name(
        j,
    ) == (j + claimed + 1) as usize by {
        assert(t0.claim_name(j + 1) == (j + 1 + claimed) as usize);
    }
}

/// Every key names a position inside the table.
proof fn lemma_slot_in_range<T>(t: Table<T>, key: Detached)
    requires
        t.wf(),
    ensures
        0 <= t.slot_of(key) < t@.len(),
{
    let k = t.capacity.spec_log2();
    lemma_concrete_of_abstract_of(key@, k);
    lemma_concrete_of_in_range(abstract_of(key@, k), k);
}

/// The number of entries equals the number of positions whose key is found:
/// a key is found exactly when the position it names is occupied, and the
/// count of occupied positions is the table's length.
pub proof fn lemma_len_counts_found_keys<T>(t: Table<T>)
    requires
        t.wf(),
    ensures
        live_positions(t@).finite(),
        t.spec_len() == live_positions(t@).len(),
        forall|key: Detached|
            #[trigger] t.lookup(key) is Some <==> live_positions(t@).contains(t.slot_of(key)),
{
    lemma_live_count_is_cardinality(t@);
    assert forall|key: Detached|
        #[trigger] t.lookup(key) is Some <==> live_positions(t@).contains(t.slot_of(key)) by {
        lemma_slot_in_range(t, key);
    }
}

/// Two inserts in a row hand out different keys, naming different slots.
pub proof fn lemma_inserts_distinct<T>(
    t0: Table<T>,
    v1: T,
    t1: Table<T>,
    k1: Detached,
    v2: T,
    t2: Table<T>,
    k2: Detached,
)
    requires
        t0.wf(),
        t0.inserted(v1, t1, Some(k1)),
        t1.inserted(v2, t2, Some(k2)),
    ensures
        k1 != k2,
        t0.slot_of(k1) != t0.slot_of(k2),
{
    lemma_slot_in_range(t0, k1);
    assert(t1.lookup(k1) == Some(v1));
}

/// An insert never hands out a key that equals the key of a live entry: the
/// slot it names was empty.
pub proof fn lemma_insert_key_not_live<T>(
    t0: Table<T>,
    value: T,
    t1: Table<T>,
    key: Detached,
    other: Detached,
)
    requires
        t0.wf(),
        t0.inserted(value, t1, Some(key)),
        t0.lookup(other) is Some,
    ensures
        key != other,
        t0.slot_of(key) != t0.slot_of(other),
{
}

/// After an insert returns a key, reading that key gives the inserted value.
pub proof fn lemma_read_after_insert<T>(t0: Table<T>, value: T, t1: Table<T>, key: Detached)
    requires
        t0.wf(),
        t0.inserted(value, t1, Some(key)),
    ensures
        t1.lookup(key) == Some(value),
{
    lemma_slot_in_range(t0, key);
}

/// Removing a freshly inserted key succeeds once; removing it again finds
/// nothing.
pub proof fn lemma_remove_twice<T>(
    t0: Table<T>,
    value: T,
    t1: Table<T>,
    key: Detached,
    first: bool,
    t2: Table<T>,
    second: bool,
    t3: Table<T>,
)
    requires
        t0.wf(),
        t0.inserted(value, t1, Some(key)),
        t1.removed(key, t2, first),
        t2.removed(key, t3, second),
    ensures
        first,
        !second,
        t3.lookup(key) is None,
        t3@ == t2@,
        t3.spec_len() == t2.spec_len(),
{
    lemma_slot_in_range(t0, key);
}

/// A full table refuses an insert; after one entry is removed, the next
/// insert succeeds and the table is full again.
pub proof fn lemma_full_remove_insert<T>(
    t0: Table<T>,
    v1: T,
    t1: Table<T>,
    r1: Option<Detached>,
    key: Detached,
    removed: bool,
    t2: Table<T>,
    v2: T,
    t3: Table<T>,
    r3: Option<Detached>,
)
    requires
        t0.wf(),
        t0.spec_len() == usable(t0.spec_capacity()),
        t0.inserted(v1, t1, r1),
        t1.lookup(key) is Some,
        t1.removed(key, t2, removed),
        t2.inserted(v2, t3, r3),
    ensures
        r1 is None,
        removed,
        r3 is Some,
        t3.spec_len() == usable(t0.spec_capacity()),
{
    lemma_slot_in_range(t1, key);
    lemma_live_count_update(t1@, t1.slot_of(key), None);
    if let Some(k3) = r3 {
        lemma_slot_in_range(t2, k3);
        lemma_live_count_update(t2@, t2.slot_of(k3), Some(v2));
    }
}

/// The free list holds at most one name for each slot.
pub proof fn lemma_free_names_unique<T>(t: Table<T>, a: usize, b: usize)
    requires
        t.wf(),
        t.is_free_name(a),
        t.is_free_name(b),
        concrete_of(a, t.spec_capacity().spec_log2()) == concrete_of(
            b,
            t.spec_capacity().spec_log2(),
        ),
    ensures
        a == b,
{
    let p = choose|p: int| 0 <= p < t.size() && t.slot@[p] == a;
    let q = choose|q: int| 0 <= q < t.size() && t.slot@[q] == b;
    assert(t.slot@[p] != RESERVED && t.slot@[q] != RESERVED);
}

/// Generations guard against reuse: once a key's entry is removed, the next
/// insert that lands in the same slot hands out a different key, the public
/// form of the slot's next-generation name.
pub proof fn lemma_reuse_changes_key<T>(
    t0: Table<T>,
    key: Detached,
    t1: Table<T>,
    value: T,
    t2: Table<T>,
    reused: Detached,
)
    requires
        t0.wf(),
        t0.removed(key, t1, true),
        t1.inserted(value, t2, Some(reused)),
        t1.slot_of(reused) == t0.slot_of(key),
    ensures
        reused != key,
        reused@ == detached_of(
            next_name(abstract_of(key@, t0.spec_capacity().spec_log2()), t0.spec_capacity().spec_log2()),
            t0.spec_capacity().spec_log2(),
        ),
{
    let k = t0.spec_capacity().spec_log2();
    let a = abstract_of(key@, k);
    let x = next_name(a, k);
    let y = abstract_of(reused@, k);
    lemma_next_name(a, k);
    lemma_concrete_of_abstract_of(key@, k);
    lemma_concrete_of_abstract_of(reused@, k);
    lemma_free_names_unique(t1, x, y);
    lemma_abstract_round_trip(reused@, k);
    lemma_abstract_round_trip(key@, k);
    lemma_detached_round_trip(x, k);
}

/// Scanning the first `n` abstract indices yields each occupied position
/// whose abstract index is below `n`, once, and nothing else.
proof fn lemma_weak_keys_prefix<T>(slots: Seq<Option<T>>, k: u32, n: nat)
    requires
        is_log2_in_range(k),
        slots.len() == pow2_usize(k),
        n <= pow2_usize(k),
    ensures
        weak_keys_upto(slots, k, n).no_duplicates(),
        forall|x: usize|
            #[trigger] weak_keys_upto(slots, k, n).contains(x) <==> (x < pow2_usize(k) && abstract_of(
                x,
                k,
            ) < n && slots[x as int] is Some),
    decreases n,
{
    lemma_concrete_of_bijective(k);
    if n > 0 {
        let m = (n - 1) as nat;
        let a = m as usize;
        let prev = weak_keys_upto(slots, k, m);
        lemma_weak_keys_prefix(slots, k, m);
        lemma_generation_zero(a, k);
        lemma_abstract_of_concrete_of(a, k);
        lemma_low_bits_below_capacity(a, k);
        let x0 = concrete_of(a, k);
        assert forall|x: usize| #[trigger] weak_keys_upto(slots, k, n).contains(x) <==> (x
            < pow2_usize(k) && abstract_of(x, k) < n && slots[x as int] is Some) by {
            if x < pow2_usize(k) && abstract_of(x, k) == m {
                assert(concrete_of(abstract_of(x, k), k) == x);
            }
            if slots[x0 as int] is Some {
                assert(weak_keys_upto(slots, k, n) == prev.push(x0));
                assert(prev.push(x0).contains(x) <==> (prev.contains(x) || x == x0)) by {
                    if x == x0 {
                        assert(prev.push(x0)[prev.len() as int] == x0);
                    }
                    if prev.contains(x) {
                        let j = choose|j: int| 0 <= j < prev.len() && prev[j] == x;
                        assert(prev.push(x0)[j] == x);
                    }
                    if prev.push(x0).contains(x) && x != x0 {
                        let j = choose|j: int| 0 <= j < prev.push(x0).len() && prev.push(x0)[j] == x;
                        assert(prev[j] == x);
                    }
                }
            }
        }
        if slots[x0 as int] is Some {
            assert(!prev.contains(x0));
            assert forall|i: int, j: int|
                0 <= i < prev.push(x0).len() && 0 <= j < prev.push(x0).len() && i != j implies prev.push(
                x0,
            )[i] != prev.push(x0)[j] by {
                if i < prev.len() && j < prev.len() {
                } else if i < prev.len() {
                    assert(prev.contains(prev[i]));
                } else {
                    assert(prev.contains(prev[j]));
                }
            }
        }
    }
}

/// A scan of a well-formed table yields every occupied position exactly once
/// and no other key: the keys it returns are the occupied array positions,
/// each as the generation-zero index of its slot.
pub proof fn lemma_weak_keys_cover_once<T>(t: Table<T>)
    requires
        t.wf(),
    ensures
        weak_keys_upto(
            t@,
            t.spec_capacity().spec_log2(),
            t.spec_capacity().spec_size() as nat,
        ).no_duplicates(),
        forall|c: usize|
            c < t.spec_capacity().spec_size() ==> (t@[c as int] is Some <==> #[trigger] weak_keys_upto(
                t@,
                t.spec_capacity().spec_log2(),
                t.spec_capacity().spec_size() as nat,
            ).contains(c)),
{
    let k = t.spec_capacity().spec_log2();
    lemma_concrete_of_bijective(k);
    lemma_weak_keys_prefix(t@, k, t.spec_capacity().spec_size() as nat);
}

} // verus!
