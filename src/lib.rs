//! A fixed-capacity table that stores values under opaque generational
//! identifiers.
//!
//! Every inserted value receives a [`Detached`] identifier. The identifier
//! names a slot of the table and carries a generation counter that advances
//! each time the slot is reused. Slots are handed out from a free list kept as
//! a ring of metadata cells, and consecutive allocations are striped across
//! cache lines.
//!
//! Inserts and removals take `&mut self`; lookups take `&self`. Removing an
//! entry drops its value at once, since no lookup can be borrowing it.

pub mod index;
pub mod padded;
pub mod params;
pub mod public;
pub mod table;

pub use self::index::Abstract;
pub use self::index::Concrete;
pub use self::index::Detached;
pub use self::padded::CachePadded;
pub use self::params::Capacity;
pub use self::params::CACHE_LINE;
pub use self::params::CACHE_LINE_SLOTS;
pub use self::params::ConstParams;
pub use self::params::DefaultParams;
pub use self::params::Params;
pub use self::params::ParamsExt;
pub use self::params::Sealed;
pub use self::public::PTab;
pub use self::table::Table;
pub use self::table::Volatile;
