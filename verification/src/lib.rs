//! Parallel scanner over fixed-width groups of hash-table control bytes.
//!
//! A control byte records the state of one table slot: `FULL` with a 7-bit
//! hash fragment (top bit clear), `EMPTY` (all bits set), or `DELETED`
//! (only the top bit set). A `group::Group` views `WIDTH` contiguous control
//! bytes at once and reports which lanes satisfy a predicate as a
//! `bitmask::BitMask`.

use vstd::prelude::*;

pub mod bitmask;
pub mod group;

verus! {

/// Control byte of a slot that is unoccupied and has never been occupied
/// since the last full clear: all bits set.
pub const EMPTY: u8 = 0xff;

/// Control byte of a tombstone: a slot that was vacated but is kept so that
/// probe sequences which ran through it while it was occupied stay intact.
/// Only the top bit is set.
pub const DELETED: u8 = 0x80;

} // verus!
