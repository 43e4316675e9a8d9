//! Index types and conversions.
//!
//! A slot is named three ways. An [`Abstract`] index is the serial name kept
//! in the free list: its low `lg N` bits select the slot in a cache-line
//! striped order and its high bits count generations. A [`Concrete`] index is
//! the position of the slot in the backing arrays. A [`Detached`] index is the
//! public name: the abstract index with its low bits replaced by the concrete
//! position.

use vstd::bits::lemma_usize_low_bits_mask_is_mod;
use vstd::bits::lemma_usize_pow2_no_overflow;
use vstd::bits::lemma_usize_shl_is_mul;
use vstd::prelude::*;

use crate::params::block_mask;
use crate::params::entry_mask;
use crate::params::index_mask;
use crate::params::is_log2_in_range;
use crate::params::Capacity;
use crate::params::CACHE_LINE_SHIFT;
use crate::params::CACHE_LINE_SLOTS;

verus! {

// -----------------------------------------------------------------------------
// Bit layout
// -----------------------------------------------------------------------------

/// The array position of the slot named by abstract index `a`, for capacity
/// `2^k`: the low `k - 4` bits of `a` become the block number and the next
/// four bits the offset inside the block.
pub open spec fn concrete_of(a: usize, k: u32) -> usize {
    ((a & block_mask(k)) << CACHE_LINE_SHIFT) | ((a >> ((k - CACHE_LINE_SHIFT) as u32))
        & index_mask())
}

/// The public form of abstract index `a`: its generation bits with the array
/// position in the low `k` bits.
pub open spec fn detached_of(a: usize, k: u32) -> usize {
    (a & !entry_mask(k)) | concrete_of(a, k)
}

/// The abstract index named by public index `d`.
pub open spec fn abstract_of(d: usize, k: u32) -> usize {
    (d & !entry_mask(k)) | ((d >> CACHE_LINE_SHIFT) & block_mask(k)) | ((d & index_mask()) << ((k
        - CACHE_LINE_SHIFT) as u32))
}

/// The array position named by public index `d`.
pub open spec fn concrete_of_detached(d: usize, k: u32) -> usize {
    d & entry_mask(k)
}

/// The cache line (block) that holds array position `c`.
pub open spec fn block_of(c: usize) -> usize {
    c >> CACHE_LINE_SHIFT
}

// -----------------------------------------------------------------------------
// Laws of the identifier algebra
// -----------------------------------------------------------------------------

/// Over the first `N = 2^k` abstract indices, `concrete_of` is a bijection onto
/// the array positions `[0, N)`: it stays in range, it is injective, and every
/// position is reached (from `abstract_of` of that position).
pub proof fn lemma_concrete_of_bijective(k: u32)
    requires
        is_log2_in_range(k),
    ensures
        forall|a: usize| a < (1usize << k) ==> #[trigger] concrete_of(a, k) < (1usize << k),
        forall|a: usize, b: usize|
            a < (1usize << k) && b < (1usize << k) && #[trigger] concrete_of(a, k)
                == #[trigger] concrete_of(b, k) ==> a == b,
        forall|c: usize|
            c < (1usize << k) ==> #[trigger] abstract_of(c, k) < (1usize << k) && concrete_of(
                abstract_of(c, k),
                k,
            ) == c,
{
    assert forall|a: usize| a < (1usize << k) implies #[trigger] concrete_of(a, k) < (1usize
        << k) by {
        lemma_concrete_of_in_range(a, k);
    }
    assert forall|a: usize, b: usize|
        a < (1usize << k) && b < (1usize << k) && #[trigger] concrete_of(a, k)
            == #[trigger] concrete_of(b, k) implies a == b by {
        lemma_abstract_of_concrete_of(a, k);
        lemma_abstract_of_concrete_of(b, k);
        lemma_low_bits_below_capacity(a, k);
        lemma_low_bits_below_capacity(b, k);
    }
    assert forall|c: usize| c < (1usize << k) implies #[trigger] abstract_of(c, k) < (1usize << k)
        && concrete_of(abstract_of(c, k), k) == c by {
        lemma_concrete_of_abstract_of(c, k);
        lemma_low_bits_below_capacity(c, k);
        assert(abstract_of(c, k) < (1usize << k)) by (bit_vector)
            requires
                4 <= k <= 27,
                c < (1usize << k),
        ;
    }
}

/// An array position always lies below the capacity.
pub proof fn lemma_concrete_of_in_range(a: usize, k: u32)
    requires
        is_log2_in_range(k),
    ensures
        concrete_of(a, k) < (1usize << k),
{
    assert(concrete_of(a, k) < (1usize << k)) by (bit_vector)
        requires
            4 <= k <= 27,
    ;
}

/// Taking the low `k` bits of an index below the capacity leaves it unchanged.
pub proof fn lemma_low_bits_below_capacity(a: usize, k: u32)
    requires
        is_log2_in_range(k),
    ensures
        a & entry_mask(k) == a % (1usize << k),
        a < (1usize << k) ==> a & entry_mask(k) == a,
{
    lemma_usize_pow2_no_overflow(k as nat);
    lemma_usize_shl_is_mul(1, k as usize);
    assert((1usize << k) == (1usize << (k as usize))) by (bit_vector)
        requires
            k <= 27,
    ;
    lemma_usize_low_bits_mask_is_mod(a, k as nat);
    assert(a < (1usize << k) ==> a & entry_mask(k) == a) by (bit_vector)
        requires
            4 <= k <= 27,
    ;
}

/// Mapping an abstract index to its array position and back recovers its low
/// `k` bits.
pub proof fn lemma_abstract_of_concrete_of(a: usize, k: u32)
    requires
        is_log2_in_range(k),
    ensures
        abstract_of(concrete_of(a, k), k) == a & entry_mask(k),
{
    assert(abstract_of(concrete_of(a, k), k) == a & entry_mask(k)) by (bit_vector)
        requires
            4 <= k <= 27,
    ;
}

/// The abstract index of a public index lives at the position that the
/// public index names.
pub proof fn lemma_concrete_of_abstract_of(d: usize, k: u32)
    requires
        is_log2_in_range(k),
    ensures
        concrete_of(abstract_of(d, k), k) == concrete_of_detached(d, k),
{
    assert(concrete_of(abstract_of(d, k), k) == d & entry_mask(k)) by (bit_vector)
        requires
            4 <= k <= 27,
    ;
}

/// Turning an abstract index into its public form and back is the identity,
/// whatever its generation.
pub proof fn lemma_detached_round_trip(a: usize, k: u32)
    requires
        is_log2_in_range(k),
    ensures
        abstract_of(detached_of(a, k), k) == a,
{
    assert(abstract_of(detached_of(a, k), k) == a) by (bit_vector)
        requires
            4 <= k <= 27,
    ;
}

/// A generation-zero abstract index and its public form both are the array
/// position.
pub proof fn lemma_generation_zero(a: usize, k: u32)
    requires
        is_log2_in_range(k),
        a < (1usize << k),
    ensures
        detached_of(a, k) == concrete_of(a, k),
{
    assert(detached_of(a, k) == concrete_of(a, k)) by (bit_vector)
        requires
            4 <= k <= 27,
            a < (1usize << k),
    ;
}

/// Turning a public index into its abstract index and back is the identity.
pub proof fn lemma_abstract_round_trip(d: usize, k: u32)
    requires
        is_log2_in_range(k),
    ensures
        detached_of(abstract_of(d, k), k) == d,
{
    assert(detached_of(abstract_of(d, k), k) == d) by (bit_vector)
        requires
            4 <= k <= 27,
    ;
}

/// The position named by the public form of an abstract index is the position
/// of that abstract index.
pub proof fn lemma_detached_keeps_position(a: usize, k: u32)
    requires
        is_log2_in_range(k),
    ensures
        concrete_of_detached(detached_of(a, k), k) == concrete_of(a, k),
{
    assert(concrete_of_detached(detached_of(a, k), k) == concrete_of(a, k)) by (bit_vector)
        requires
            4 <= k <= 27,
    ;
}

/// Cache-line striping: when there are at least as many blocks as slots per
/// cache line, the first `CACHE_LINE_SLOTS` abstract indices land on pairwise
/// different blocks.
pub proof fn lemma_first_line_striped(k: u32)
    requires
        is_log2_in_range(k),
        k >= 2 * CACHE_LINE_SHIFT,
    ensures
        forall|a: usize, b: usize|
            a < CACHE_LINE_SLOTS && b < CACHE_LINE_SLOTS && a != b ==> block_of(
                #[trigger] concrete_of(a, k),
            ) != block_of(#[trigger] concrete_of(b, k)),
{
    assert forall|a: usize, b: usize|
        a < CACHE_LINE_SLOTS && b < CACHE_LINE_SLOTS && a != b implies block_of(
        #[trigger] concrete_of(a, k),
    ) != block_of(#[trigger] concrete_of(b, k)) by {
        assert(block_of(concrete_of(a, k)) == a) by (bit_vector)
            requires
                8 <= k <= 27,
                a < 16,
        ;
        assert(block_of(concrete_of(b, k)) == b) by (bit_vector)
            requires
                8 <= k <= 27,
                b < 16,
        ;
    }
}

// -----------------------------------------------------------------------------
// Index types
// -----------------------------------------------------------------------------

/// An opaque index identifying an entry in a table.
///
/// Each index contains a generational component that changes when a slot is
/// reused, so an index kept from a removed entry differs from the index of a
/// later entry in the same slot.
#[derive(Clone, Copy, PartialEq, Eq, Structural, Hash, PartialOrd, Ord, Debug)]
pub struct Detached {
    bits: usize,
}

impl View for Detached {
    type V = usize;

    closed spec fn view(&self) -> usize {
        self.bits
    }
}

impl Detached {
    /// Creates a [`Detached`] index from its raw bit representation.
    ///
    /// An arbitrary bit pattern may not correspond to any entry; using it is
    /// safe and makes table operations return `None` or `false`.
    pub fn from_bits(bits: usize) -> (r: Self)
        ensures
            r@ == bits,
    {
        Detached { bits }
    }

    /// Returns the raw bit representation of this index.
    pub fn into_bits(self) -> (r: usize)
        ensures
            r == self@,
    {
        self.bits
    }

    /// The raw bits in decimal, as `usize` displays them.
    pub fn to_string(&self) -> (r: String)
        ensures
            vstd::string::to_string_from_display_ensures::<usize>(&self@, r),
    {
        self.bits.to_string()
    }

    /// The public form of an abstract index.
    pub fn from_abstract(other: Abstract, capacity: Capacity) -> (r: Self)
        ensures
            r@ == detached_of(other@, capacity.spec_log2()),
    {
        abstract_to_detached(other, capacity)
    }
}

/// A serial slot name, as kept in the free list: the slot in its low bits and
/// the generation above them.
#[derive(Clone, Copy, PartialEq, Eq, Structural, Debug)]
pub struct Abstract {
    source: usize,
}

impl View for Abstract {
    type V = usize;

    closed spec fn view(&self) -> usize {
        self.source
    }
}

impl Abstract {
    /// Wraps a raw abstract index.
    pub fn new(source: usize) -> (r: Self)
        ensures
            r@ == source,
    {
        Abstract { source }
    }

    /// Returns the raw abstract index.
    pub fn get(self) -> (r: usize)
        ensures
            r == self@,
    {
        self.source
    }

    /// The abstract index named by a public index.
    pub fn from_detached(other: Detached, capacity: Capacity) -> (r: Self)
        ensures
            r@ == abstract_of(other@, capacity.spec_log2()),
    {
        detached_to_abstract(other, capacity)
    }
}

/// A position in the backing arrays.
#[derive(Clone, Copy, PartialEq, Eq, Structural, Debug)]
pub struct Concrete {
    source: usize,
}

impl View for Concrete {
    type V = usize;

    closed spec fn view(&self) -> usize {
        self.source
    }
}

impl Concrete {
    /// Wraps a raw array position.
    pub fn new(source: usize) -> (r: Self)
        ensures
            r@ == source,
    {
        Concrete { source }
    }

    /// Returns the raw array position.
    pub fn get(self) -> (r: usize)
        ensures
            r == self@,
    {
        self.source
    }

    /// The array position of the slot named by an abstract index.
    pub fn from_abstract(other: Abstract, capacity: Capacity) -> (r: Self)
        ensures
            r@ == concrete_of(other@, capacity.spec_log2()),
            r@ < capacity.spec_size(),
    {
        abstract_to_concrete(other, capacity)
    }

    /// The array position named by a public index.
    pub fn from_detached(other: Detached, capacity: Capacity) -> (r: Self)
        ensures
            r@ == concrete_of_detached(other@, capacity.spec_log2()),
            r@ < capacity.spec_size(),
    {
        detached_to_concrete(other, capacity)
    }
}

// -----------------------------------------------------------------------------
// Index mapping
// -----------------------------------------------------------------------------

/// Extracts the [`Abstract`] serial index from a [`Detached`] index.
pub fn detached_to_abstract(detached: Detached, capacity: Capacity) -> (r: Abstract)
    ensures
        r@ == abstract_of(detached@, capacity.spec_log2()),
{
    let bits: usize = detached.into_bits();
    let mut value: usize = bits & !capacity.id_mask_entry();
    value = value | ((bits >> capacity.id_shift_block()) & capacity.id_mask_block());
    value = value | ((bits & capacity.id_mask_index()) << capacity.id_shift_index());
    Abstract::new(value)
}

/// Extracts the [`Concrete`] array position from a [`Detached`] index.
pub fn detached_to_concrete(detached: Detached, capacity: Capacity) -> (r: Concrete)
    ensures
        r@ == concrete_of_detached(detached@, capacity.spec_log2()),
        r@ < capacity.spec_size(),
{
    let k = capacity.log2();
    let r = Concrete::new(detached.into_bits() & capacity.id_mask_entry());
    proof {
        lemma_low_bits_below_capacity(detached@, k);
        lemma_concrete_of_abstract_of(detached@, k);
        lemma_concrete_of_in_range(abstract_of(detached@, k), k);
    }
    r
}

/// Converts an [`Abstract`] serial index to a [`Concrete`] array position.
pub fn abstract_to_concrete(abstract_idx: Abstract, capacity: Capacity) -> (r: Concrete)
    ensures
        r@ == concrete_of(abstract_idx@, capacity.spec_log2()),
        r@ < capacity.spec_size(),
{
    let k = capacity.log2();
    let a: usize = abstract_idx.get();
    let mut value: usize = (a & capacity.id_mask_block()) << capacity.id_shift_block();
    value = value | ((a >> capacity.id_shift_index()) & capacity.id_mask_index());
    proof {
        lemma_concrete_of_in_range(a, k);
    }
    Concrete::new(value)
}

/// Converts an [`Abstract`] serial index to a [`Detached`] index.
pub fn abstract_to_detached(abstract_idx: Abstract, capacity: Capacity) -> (r: Detached)
    ensures
        r@ == detached_of(abstract_idx@, capacity.spec_log2()),
{
    let index: usize = abstract_idx.get() & !capacity.id_mask_entry();
    let index: usize = index | abstract_to_concrete(abstract_idx, capacity).get();
    Detached::from_bits(index)
}

} // verus!
