//! Table capacity and the quantities derived from it.

use vstd::prelude::*;

verus! {

/// The size of a cache line in bytes. 128 covers the line pairs that x86-64
/// prefetches together and the lines of recent AArch64 cores.
pub const CACHE_LINE: usize = 128;

/// Bytes taken by one slot of an array: one 64-bit word.
pub const SLOT_BYTES: usize = 8;

/// The number of table slots that fit in a single cache line.
pub const CACHE_LINE_SLOTS: usize = CACHE_LINE / SLOT_BYTES;

/// The base-2 logarithm of [`CACHE_LINE_SLOTS`].
pub const CACHE_LINE_SHIFT: u32 = 4;

/// The base-2 logarithm of the smallest capacity.
pub const MIN_LOG2: u32 = 4;

/// The base-2 logarithm of the largest capacity.
pub const MAX_LOG2: u32 = 27;

/// The base-2 logarithm of the default capacity.
pub const DEF_LOG2: u32 = 20;

/// `k` is the base-2 logarithm of a supported capacity.
pub open spec fn is_log2_in_range(k: u32) -> bool {
    MIN_LOG2 <= k <= MAX_LOG2
}

/// `2^k` as a machine word.
pub open spec fn pow2_usize(k: u32) -> usize {
    1usize << k
}

/// `value` is a power of two in the supported capacity range.
pub open spec fn is_capacity_value(value: usize) -> bool {
    exists|k: u32| is_log2_in_range(k) && value == pow2_usize(k)
}

/// `k` is the base-2 logarithm of the capacity chosen for a requested size:
/// the smallest supported power of two that is at least `value`, or the
/// largest supported one when no supported power of two is large enough.
pub open spec fn rounds_to(value: usize, k: u32) -> bool {
    &&& is_log2_in_range(k)
    &&& value <= pow2_usize(MAX_LOG2) ==> {
        &&& value <= pow2_usize(k)
        &&& (k == MIN_LOG2 || pow2_usize((k - 1) as u32) < value)
    }
    &&& value > pow2_usize(MAX_LOG2) ==> k == MAX_LOG2
}

/// The base-2 logarithm of the capacity chosen for `value`, searching upward
/// from `k`: the first supported power of two that holds `value`, or the
/// largest supported one.
pub open spec fn rounded_log2_from(value: usize, k: u32) -> u32
    decreases MAX_LOG2 - k,
{
    if k >= MAX_LOG2 || value <= pow2_usize(k) {
        k
    } else {
        rounded_log2_from(value, (k + 1) as u32)
    }
}

/// The base-2 logarithm of the capacity chosen for `value`.
pub open spec fn rounded_log2(value: usize) -> u32 {
    rounded_log2_from(value, MIN_LOG2)
}

/// Powers of two over the supported range, as machine words.
pub proof fn lemma_pow2_usize(k: u32)
    requires
        k <= MAX_LOG2,
    ensures
        1 <= pow2_usize(k) <= 0x800_0000,
        k >= MIN_LOG2 ==> pow2_usize(k) >= 16,
        k >= MIN_LOG2 ==> pow2_usize(k) % 16 == 0,
{
    assert(1 <= (1usize << k) <= 0x800_0000) by (bit_vector)
        requires
            k <= 27,
    ;
    assert(k >= 4 ==> (1usize << k) >= 16 && (1usize << k) % 16 == 0) by (bit_vector)
        requires
            k <= 27,
    ;
}

/// Shifting one by a larger amount gives a larger power of two.
pub proof fn lemma_pow2_usize_strictly_increases(j: u32, k: u32)
    requires
        j < k <= MAX_LOG2,
    ensures
        pow2_usize(j) < pow2_usize(k),
{
    assert((1usize << j) < (1usize << k)) by (bit_vector)
        requires
            j < k <= 27,
    ;
}

/// Rounding a supported power of two gives back its own logarithm.
proof fn lemma_capacity_log2_unique(value: usize, k: u32, j: u32)
    requires
        is_log2_in_range(k),
        value == pow2_usize(k),
        rounds_to(value, j),
    ensures
        j == k,
{
    if k < MAX_LOG2 {
        lemma_pow2_usize_strictly_increases(k, MAX_LOG2);
    }
    if j < k {
        lemma_pow2_usize_strictly_increases(j, k);
    } else if k < j {
        if k < (j - 1) as u32 {
            lemma_pow2_usize_strictly_increases(k, (j - 1) as u32);
        }
    }
}

/// Mask of the low `k` bits: the slot part of an index.
pub open spec fn entry_mask(k: u32) -> usize {
    ((1usize << k) - 1) as usize
}

/// Mask of the block number, for `2^(k - 4)` blocks.
pub open spec fn block_mask(k: u32) -> usize {
    ((1usize << ((k - CACHE_LINE_SHIFT) as u32)) - 1) as usize
}

/// Mask of the offset inside one cache line.
pub open spec fn index_mask() -> usize {
    (CACHE_LINE_SLOTS - 1) as usize
}

/// A power of two in `[2^4, 2^27]`: a table capacity.
///
/// The value is held as its base-2 logarithm, so every value of this type is a
/// supported capacity.
#[derive(Clone, Copy, PartialEq, Eq, Structural, Debug)]
pub struct Capacity {
    log2: u32,
}

impl Capacity {
    #[verifier::type_invariant]
    spec fn inv(self) -> bool {
        is_log2_in_range(self.log2)
    }

    /// The base-2 logarithm of the capacity.
    pub closed spec fn spec_log2(self) -> u32 {
        self.log2
    }

    /// The capacity as a number of slots.
    pub open spec fn spec_size(self) -> usize {
        pow2_usize(self.spec_log2())
    }

    /// The capacity whose base-2 logarithm is `k`.
    pub closed spec fn spec_from_log2(k: u32) -> Self {
        Capacity { log2: k }
    }

    /// The capacity chosen for a requested size by [`Capacity::new`].
    pub open spec fn spec_new(value: usize) -> Self {
        Self::spec_from_log2(rounded_log2(value))
    }

    /// The smallest supported capacity (2⁴ entries).
    pub fn minimum() -> (r: Self)
        ensures
            r == Self::spec_from_log2(MIN_LOG2),
            r.spec_log2() == MIN_LOG2,
    {
        Capacity { log2: MIN_LOG2 }
    }

    /// The largest supported capacity (2²⁷ entries).
    pub fn maximum() -> (r: Self)
        ensures
            r == Self::spec_from_log2(MAX_LOG2),
            r.spec_log2() == MAX_LOG2,
    {
        Capacity { log2: MAX_LOG2 }
    }

    /// The default capacity (2²⁰ entries).
    pub fn default_capacity() -> (r: Self)
        ensures
            r == Self::spec_from_log2(DEF_LOG2),
            r.spec_log2() == DEF_LOG2,
    {
        Capacity { log2: DEF_LOG2 }
    }

    /// Creates a `Capacity` from a `usize`.
    ///
    /// Rounds up to the nearest power of two and clamps to the supported
    /// range.
    pub fn new(value: usize) -> (r: Self)
        ensures
            r == Self::spec_new(value),
            r.spec_log2() == rounded_log2(value),
            rounds_to(value, r.spec_log2()),
    {
        proof {
            lemma_pow2_usize(MAX_LOG2);
        }
        let mut log2: u32 = MIN_LOG2;
        while log2 < MAX_LOG2 && (1usize << log2) < value
            invariant
                MIN_LOG2 <= log2 <= MAX_LOG2,
                log2 == MIN_LOG2 || pow2_usize((log2 - 1) as u32) < value,
                rounded_log2_from(value, log2) == rounded_log2(value),
            decreases MAX_LOG2 - log2,
        {
            log2 = log2 + 1;
        }
        proof {
            if value <= pow2_usize(MAX_LOG2) && log2 == MAX_LOG2 {
                assert(value <= pow2_usize(log2));
            }
            if value > pow2_usize(MAX_LOG2) && log2 < MAX_LOG2 {
                lemma_pow2_usize_strictly_increases(log2, MAX_LOG2);
            }
        }
        Capacity { log2 }
    }

    /// Creates a `Capacity` from a value that is already a supported power of
    /// two.
    pub fn new_unchecked(capacity: usize) -> (r: Self)
        requires
            is_capacity_value(capacity),
        ensures
            r.spec_size() == capacity,
    {
        let r = Capacity::new(capacity);
        proof {
            let k = choose|k: u32| is_log2_in_range(k) && capacity == pow2_usize(k);
            use_type_invariant(r);
            lemma_pow2_usize(MAX_LOG2);
            lemma_capacity_log2_unique(capacity, k, r.log2);
        }
        r
    }

    /// Returns whether `value` is a power of two in the supported range.
    pub fn is_valid(value: usize) -> (r: bool)
        ensures
            r == is_capacity_value(value),
    {
        let rounded = Capacity::new(value);
        let r = rounded.as_usize() == value;
        proof {
            use_type_invariant(rounded);
            if is_capacity_value(value) {
                let k = choose|k: u32| is_log2_in_range(k) && value == pow2_usize(k);
                lemma_pow2_usize(MAX_LOG2);
                lemma_capacity_log2_unique(value, k, rounded.log2);
            }
            if r {
                assert(is_log2_in_range(rounded.log2) && value == pow2_usize(rounded.log2));
            }
        }
        r
    }

    /// Returns the capacity as a [`u32`].
    pub fn as_u32(self) -> (r: u32)
        ensures
            r as usize == self.spec_size(),
            is_log2_in_range(self.spec_log2()),
    {
        proof {
            use_type_invariant(self);
            lemma_pow2_usize(self.log2);
        }
        (1usize << self.log2) as u32
    }

    /// Returns the capacity as a [`usize`].
    pub fn as_usize(self) -> (r: usize)
        ensures
            r == self.spec_size(),
            is_log2_in_range(self.spec_log2()),
    {
        proof {
            use_type_invariant(self);
        }
        1usize << self.log2
    }

    /// Returns the base-2 logarithm of the capacity.
    ///
    /// This is always exact, as `self` represents a power of two.
    pub fn log2(self) -> (r: u32)
        ensures
            r == self.spec_log2(),
            is_log2_in_range(r),
    {
        proof {
            use_type_invariant(self);
        }
        self.log2
    }

    /// The number of cache-line blocks that one array of this capacity
    /// occupies.
    pub fn blocks(self) -> (r: usize)
        ensures
            r == pow2_usize((self.spec_log2() - CACHE_LINE_SHIFT) as u32),
            r * CACHE_LINE_SLOTS == self.spec_size(),
    {
        proof {
            use_type_invariant(self);
        }
        let k = self.log2;
        assert((1usize << ((k - 4) as u32)) * 16 == (1usize << k)) by (bit_vector)
            requires
                4 <= k <= 27,
        ;
        1usize << (self.log2 - CACHE_LINE_SHIFT)
    }

    /// The number of index bits that select a slot.
    pub fn id_mask_bits(self) -> (r: u32)
        ensures
            r == self.spec_log2(),
    {
        self.log2
    }

    /// The mask of the index bits that select a slot.
    pub fn id_mask_entry(self) -> (r: usize)
        ensures
            r == entry_mask(self.spec_log2()),
    {
        proof {
            use_type_invariant(self);
            lemma_pow2_usize(self.log2);
        }
        (1usize << self.log2) - 1
    }

    /// The mask of a block number.
    pub fn id_mask_block(self) -> (r: usize)
        ensures
            r == block_mask(self.spec_log2()),
    {
        proof {
            use_type_invariant(self);
            lemma_pow2_usize((self.log2 - CACHE_LINE_SHIFT) as u32);
        }
        (1usize << (self.log2 - CACHE_LINE_SHIFT)) - 1
    }

    /// The mask of an offset inside one cache line.
    pub fn id_mask_index(self) -> (r: usize)
        ensures
            r == index_mask(),
    {
        CACHE_LINE_SLOTS - 1
    }

    /// The shift that moves a block number above the in-line offset.
    pub fn id_shift_block(self) -> (r: u32)
        ensures
            r == CACHE_LINE_SHIFT,
    {
        CACHE_LINE_SHIFT
    }

    /// The shift that moves the in-line offset above the block number.
    pub fn id_shift_index(self) -> (r: u32)
        ensures
            r == self.spec_log2() - CACHE_LINE_SHIFT,
            is_log2_in_range(self.spec_log2()),
    {
        proof {
            use_type_invariant(self);
        }
        self.log2 - CACHE_LINE_SHIFT
    }

    /// The number of bytes that one array of this capacity occupies.
    pub fn memory(self) -> (r: usize)
        ensures
            r == self.spec_size() * SLOT_BYTES,
    {
        proof {
            use_type_invariant(self);
            lemma_pow2_usize(self.log2);
        }
        derive_blocks(self) * CACHE_LINE
    }
}

/// The number of cache-line blocks needed for an array of `capacity` slots:
/// the array size in bytes, rounded up to whole cache lines.
pub fn derive_blocks(capacity: Capacity) -> (r: usize)
    ensures
        r * CACHE_LINE_SLOTS == capacity.spec_size(),
        r == pow2_usize((capacity.spec_log2() - CACHE_LINE_SHIFT) as u32),
{
    let length = capacity.as_usize();
    proof {
        lemma_pow2_usize(capacity.spec_log2());
    }
    let mem_bytes: usize = length * SLOT_BYTES;
    let mem_align: usize = if mem_bytes % CACHE_LINE == 0 {
        mem_bytes
    } else {
        mem_bytes + (CACHE_LINE - mem_bytes % CACHE_LINE)
    };
    let blocks = mem_align / CACHE_LINE;
    proof {
        let k = capacity.spec_log2();
        assert((1usize << ((k - 4) as u32)) * 16 == (1usize << k)) by (bit_vector)
            requires
                4 <= k <= 27,
        ;
    }
    blocks
}

impl Default for Capacity {
    fn default() -> (r: Self)
        ensures
            r == Self::spec_from_log2(DEF_LOG2),
            r.spec_log2() == DEF_LOG2,
    {
        Capacity::default_capacity()
    }
}

impl From<Capacity> for usize {
    fn from(other: Capacity) -> (r: usize) {
        other.as_usize()
    }
}

impl vstd::std_specs::convert::FromSpecImpl<Capacity> for usize {
    open spec fn obeys_from_spec() -> bool {
        true
    }

    open spec fn from_spec(v: Capacity) -> usize {
        v.spec_size()
    }
}

// -----------------------------------------------------------------------------
// Configurable parameters
// -----------------------------------------------------------------------------

/// Compile-time configuration of a table.
pub trait Params {
    /// The capacity this configuration selects.
    spec fn spec_length() -> Capacity;

    /// The maximum number of entries the table can hold.
    fn length() -> (r: Capacity)
        ensures
            r == Self::spec_length(),
    ;
}

/// Marks the types that [`ParamsExt`] is implemented for: every [`Params`].
pub trait Sealed {

}

impl<P: Params> Sealed for P {

}

/// Parameters derived from a [`Params`] configuration.
pub trait ParamsExt: Params + Sealed {
    /// The number of cache-line blocks of one array.
    fn blocks() -> (r: usize)
        ensures
            r * CACHE_LINE_SLOTS == Self::spec_length().spec_size(),
    {
        Self::length().blocks()
    }

    /// The number of bytes of one array.
    fn memory() -> (r: usize)
        ensures
            r == Self::spec_length().spec_size() * SLOT_BYTES,
    {
        Self::length().memory()
    }

    /// The number of index bits that select a slot.
    fn id_mask_bits() -> (r: u32)
        ensures
            r == Self::spec_length().spec_log2(),
    {
        Self::length().id_mask_bits()
    }

    /// The mask of the index bits that select a slot.
    fn id_mask_entry() -> (r: usize)
        ensures
            r == entry_mask(Self::spec_length().spec_log2()),
    {
        Self::length().id_mask_entry()
    }

    /// The mask of a block number.
    fn id_mask_block() -> (r: usize)
        ensures
            r == block_mask(Self::spec_length().spec_log2()),
    {
        Self::length().id_mask_block()
    }

    /// The mask of an offset inside one cache line.
    fn id_mask_index() -> (r: usize)
        ensures
            r == index_mask(),
    {
        Self::length().id_mask_index()
    }

    /// The shift that moves a block number above the in-line offset.
    fn id_shift_block() -> (r: u32)
        ensures
            r == CACHE_LINE_SHIFT,
    {
        Self::length().id_shift_block()
    }

    /// The shift that moves the in-line offset above the block number.
    fn id_shift_index() -> (r: u32)
        ensures
            r == Self::spec_length().spec_log2() - CACHE_LINE_SHIFT,
    {
        Self::length().id_shift_index()
    }
}

impl<P: Params> ParamsExt for P {

}

/// The default configuration: 2²⁰ slots.
#[derive(Clone, Copy, Debug)]
pub struct DefaultParams;

impl Params for DefaultParams {
    open spec fn spec_length() -> Capacity {
        Capacity::spec_from_log2(DEF_LOG2)
    }

    fn length() -> (r: Capacity) {
        Capacity::default_capacity()
    }
}

/// A configuration with capacity `N`, rounded up to a power of two and
/// clamped to the supported range.
#[derive(Clone, Copy, Debug, Hash, PartialEq, Eq)]
pub struct ConstParams<const N: usize>;

impl<const N: usize> Params for ConstParams<N> {
    open spec fn spec_length() -> Capacity {
        Capacity::spec_new(N)
    }

    fn length() -> (r: Capacity) {
        Capacity::new(N)
    }
}

} // verus!
